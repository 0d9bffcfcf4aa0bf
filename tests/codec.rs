use heredian::net::{decode_frame, inbound, Addr, Message, NetError, Packet, FRAME_LEN};
use heredian::packet::PAYLOAD_LEN;
use heredian::{FromBytes, PacketCharInfo, PacketLifelessInfo, ToBytes};

fn sample() -> PacketCharInfo {
    PacketCharInfo {
        x: 1,
        y: 2,
        w: 3,
        h: 4,
        a: 5,
        d: 6,
        d2: 0,
        dhit: 7,
        numchar: 8,
        idchar: 9,
        totchar: 10,
        totenemies: 11,
        exit: true,
        healt: 13,
        stamina: 14,
        damage: 15,
        idmap: 16,
        totlifeless: 17,
        step: 18,
        vision: 19,
        listlifeless: [
            None,
            None,
            None,
            None,
            Some(PacketLifelessInfo { x: 20, y: 21, w: 22, h: 23, d: 24, damage: 25 }),
        ],
    }
}

#[test]
fn ser_des() {
    let packet = Packet {
        sign: *b"GDP",
        size: std::mem::size_of::<Packet<PacketCharInfo>>() as u16,
        data: sample(),
    };

    let buf = packet.to_bytes();
    let packet2 = Packet::<PacketCharInfo>::from_bytes(&buf);

    assert_eq!(packet.sign, packet2.sign);
    assert_eq!(packet.data, packet2.data);
}

#[test]
fn record_layout_is_little_endian_in_field_order() {
    let mut p = PacketCharInfo::default();
    p.x = -2;
    p.y = 0x0102;
    p.exit = true;
    p.healt = 300;
    p.vision = -1;
    p.listlifeless[1] = Some(PacketLifelessInfo { x: 7, y: 0, w: 0, h: 0, d: 0, damage: -3 });
    let b = p.encode();
    assert_eq!(b.len(), PAYLOAD_LEN);
    assert_eq!(&b[0..4], &[0xfe, 0xff, 0x02, 0x01]);
    assert_eq!(b[24], 1);
    assert_eq!(&b[25..27], &[0x2c, 0x01]);
    assert_eq!(&b[37..39], &[0xff, 0xff]);
    assert_eq!(&b[39..51], &[0u8; 12]);
    assert_eq!(&b[51..53], &[7, 0]);
    assert_eq!(&b[61..63], &[0xfd, 0xff]);
    assert!(b[99..].iter().all(|&v| v == 0));
}

#[test]
fn round_trip_every_slot_combination() {
    for mask in 0u32..32 {
        let mut p = sample();
        p.exit = mask % 2 == 0;
        p.x = -(mask as i16) * 1000;
        for i in 0..5 {
            p.listlifeless[i] = if mask & (1 << i) != 0 {
                Some(PacketLifelessInfo {
                    x: i as i16 - 3,
                    y: -7,
                    w: 100,
                    h: i16::MAX,
                    d: 4,
                    damage: i16::MIN,
                })
            } else {
                None
            };
        }
        let b = p.encode();
        assert_eq!(PacketCharInfo::decode(&b), p);
        assert_eq!(PacketCharInfo::from_bytes(&p.to_bytes()), p);
    }
}

#[test]
fn zero_slot_reads_back_as_absent() {
    let mut p = sample();
    p.listlifeless[2] = Some(PacketLifelessInfo::default());
    p.listlifeless[0] = Some(PacketLifelessInfo::default());
    let q = PacketCharInfo::decode(&p.encode());
    assert_eq!(q.listlifeless[2], None);
    assert_eq!(q.listlifeless[0], None);
    assert_eq!(q.listlifeless[4], p.listlifeless[4]);
    assert_eq!(PacketCharInfo { listlifeless: [None, None, None, None, p.listlifeless[4]], ..p }, q);
}

#[test]
fn frame_has_signature_and_length() {
    let packet = Packet::new(sample());
    assert_eq!(packet.size as usize, FRAME_LEN);
    let b = packet.to_bytes();
    assert_eq!(b.len(), FRAME_LEN);
    assert_eq!(&b[0..3], b"GDP");
    assert_eq!(&b[3..5], &[116, 0]);
    assert_eq!(decode_frame(&b), Ok(sample()));
}

#[test]
fn malformed_frames_are_refused() {
    let b = Packet::new(sample()).to_bytes();
    assert_eq!(decode_frame(&b[..FRAME_LEN - 1]), Err(NetError::MalformedFrame));
    let mut bad = b.clone();
    bad[1] = b'X';
    assert_eq!(decode_frame(&bad), Err(NetError::MalformedFrame));
    let from = Addr { ip: 0x7f00_0001, port: 4000 };
    assert!(matches!(inbound(&bad, from), Err(NetError::MalformedFrame)));
    match inbound(&b, from) {
        Ok(Message::Direct(p, a)) => {
            assert_eq!(p, sample());
            assert_eq!(a, from);
        },
        _ => panic!("expected a direct message"),
    }
}
