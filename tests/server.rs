use heredian::net::{Addr, Message, NetError, Sessions};
use heredian::world::Ambients;
use heredian::geometry::{Area, CollisionMask};
use heredian::PacketCharInfo;

fn addr(port: u16) -> Addr {
    Addr { ip: 0x7f00_0001, port }
}

fn open_area() -> Area {
    Area { width: 100, height: 100, mask: CollisionMask { width: 100, height: 100, walls: vec![false; 10000] } }
}

fn enemy(idchar: i16) -> PacketCharInfo {
    PacketCharInfo { idchar, idmap: 1, healt: 10, w: 10, h: 10, ..Default::default() }
}

#[test]
fn broadcast_survives_one_failed_write() {
    let mut s = Sessions::new();
    for p in [1, 2, 3] {
        assert!(s.accept::<PacketCharInfo>(addr(p)).is_some());
    }
    assert!(s.accept::<PacketCharInfo>(addr(2)).is_none());
    let targets = s.targets(&Message::Broadcast(PacketCharInfo::default())).unwrap();
    assert_eq!(targets, vec![addr(1), addr(2), addr(3)]);
    let gone: Vec<Message<PacketCharInfo>> = s.drop_failed(&vec![addr(1)]);
    assert_eq!(s.addrs, vec![addr(2), addr(3)]);
    assert_eq!(gone.len(), 1);
    assert!(matches!(gone[0], Message::Disconnected(a) if a == addr(1)));
}

#[test]
fn except_and_direct_targets() {
    let mut s = Sessions::new();
    for p in [1, 2, 3] {
        s.accept::<PacketCharInfo>(addr(p));
    }
    let m = Message::BroadcastExcept(PacketCharInfo::default(), addr(2));
    assert_eq!(s.targets(&m).unwrap(), vec![addr(1), addr(3)]);
    let m = Message::Direct(PacketCharInfo::default(), addr(3));
    assert_eq!(s.targets(&m).unwrap(), vec![addr(3)]);
    let m = Message::Direct(PacketCharInfo::default(), addr(9));
    assert_eq!(s.targets(&m), Err(NetError::UnknownSessionTarget));
    assert!(!Message::<PacketCharInfo>::Accepted(addr(1)).is_outbound());
    assert!(!Message::<PacketCharInfo>::Disconnected(addr(1)).is_outbound());
    assert!(Message::Broadcast(PacketCharInfo::default()).is_outbound());
}

#[test]
fn joins_get_distinct_ids_and_the_roster() {
    let mut w = Ambients::new(9, vec![open_area()], vec![enemy(1), enemy(2)]);
    assert_eq!(w.last_id, 2);
    let mut out = Vec::new();
    for p in 0..5 {
        assert!(w.connect_client(addr(p), &mut out));
    }
    let ids: Vec<i16> = w.clients.iter().map(|c| c.idchar).collect();
    assert_eq!(ids, vec![3, 4, 5, 6, 7]);
    assert!(w.clients.iter().all(|c| c.x == -1 && c.y == -1));
    assert_eq!(out.len(), 15);
    match out[0] {
        Message::Direct(p, a) => {
            assert_eq!(a, addr(0));
            assert_eq!(p.idchar, 3);
            assert_eq!(p.totchar, 1);
            assert_eq!((p.x, p.y), (-1, -1));
        },
        _ => panic!("expected a direct message"),
    }
    match out[14] {
        Message::Direct(p, a) => {
            assert_eq!(a, addr(4));
            assert_eq!(p.idchar, 2);
            assert_eq!(p.totchar, 5);
            assert_eq!(p.totenemies, 2);
        },
        _ => panic!("expected a direct message"),
    }
    assert!(w.disconnect_client(addr(1)));
    assert!(!w.disconnect_client(addr(1)));
    assert!(w.connect_client(addr(1), &mut out));
    assert_eq!(w.clients.last().unwrap().idchar, 8);
    assert_eq!(w.clients_addrs.len(), w.clients.len());
}

#[test]
fn ids_run_out_without_reuse() {
    let mut w = Ambients::new(9, vec![], vec![]);
    w.last_id = i16::MAX;
    let mut out = Vec::new();
    assert!(!w.connect_client(addr(1), &mut out));
    assert!(w.clients.is_empty());
    assert!(out.is_empty());
}

#[test]
fn first_update_anchors_the_position() {
    let mut w = Ambients::new(9, vec![open_area()], vec![]);
    let mut out = Vec::new();
    w.connect_client(addr(1), &mut out);
    let id = w.clients[0].idchar;
    let first = PacketCharInfo { idchar: id, x: 40, y: 50, healt: 30, numchar: 2, idmap: 1, a: 1, d: 2, step: 3, ..Default::default() };
    out.clear();
    assert!(w.on_message(first, addr(1), &mut out));
    assert_eq!((w.clients[0].x, w.clients[0].y), (40, 50));
    assert_eq!(w.clients[0].healt, 30);
    assert!(w.anchored[0]);
    let later = PacketCharInfo { x: 1, y: 1, healt: 99, numchar: 4, d: 8, ..first };
    assert!(w.on_message(later, addr(1), &mut out));
    let c = w.clients[0];
    assert_eq!((c.x, c.y), (40, 50));
    assert_eq!(c.healt, 30);
    assert_eq!(c.numchar, 2);
    assert_eq!(c.d, 8);
    assert_eq!(out.len(), 2);
    assert!(matches!(out[1], Message::Broadcast(p) if p.x == 40 && p.d == 8));
    let stranger = PacketCharInfo { idchar: 77, ..first };
    assert!(!w.on_message(stranger, addr(1), &mut out));
    assert_eq!(out.len(), 2);
}

#[test]
fn a_sentinel_first_report_still_anchors() {
    let mut w = Ambients::new(9, vec![open_area()], vec![]);
    let mut out = Vec::new();
    w.connect_client(addr(1), &mut out);
    let id = w.clients[0].idchar;
    let first = PacketCharInfo { idchar: id, x: -1, y: -1, ..Default::default() };
    w.on_message(first, addr(1), &mut out);
    let later = PacketCharInfo { x: 10, y: 10, ..first };
    w.on_message(later, addr(1), &mut out);
    assert_eq!((w.clients[0].x, w.clients[0].y), (-1, -1));
}

#[test]
fn player_attack_hits_enemies_of_its_area() {
    let mut w = Ambients::new(9, vec![open_area()], vec![PacketCharInfo { x: 9, y: 0, ..enemy(1) }, PacketCharInfo { x: 9, idmap: 2, ..enemy(2) }]);
    let mut out = Vec::new();
    w.connect_client(addr(1), &mut out);
    out.clear();
    let id = w.clients[0].idchar;
    let attack = PacketCharInfo { idchar: id, x: 0, y: 0, w: 10, h: 10, d: 2, damage: 4, idmap: 1, healt: 5, ..Default::default() };
    assert!(w.on_message(attack, addr(1), &mut out));
    assert_eq!(w.enemies[0].healt, 6);
    assert_eq!(w.enemies[0].dhit, 2);
    assert_eq!(w.enemies[0].x, 12);
    assert_eq!(w.enemies[1].healt, 10);
    assert_eq!(out.len(), 2);
    assert!(matches!(out[0], Message::Broadcast(p) if p.idchar == 1 && p.healt == 6));
    assert!(matches!(out[1], Message::Broadcast(p) if p.idchar == id));
}

#[test]
fn disconnect_forgets_the_session() {
    let mut w = Ambients::new(9, vec![open_area()], vec![]);
    let mut out = Vec::new();
    w.on_event(Message::Accepted(addr(1)), &mut out);
    w.on_event(Message::Accepted(addr(2)), &mut out);
    assert_eq!(w.clients.len(), 2);
    w.on_event(Message::Disconnected(addr(1)), &mut out);
    assert_eq!(w.clients_addrs, vec![addr(2)]);
    assert_eq!(w.clients.len(), 1);
    assert_eq!(w.anchored.len(), 1);
    assert_eq!(w.clients[0].idchar, 2);
}
