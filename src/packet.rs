//! The character record that travels on the wire, and its byte layout.

use vstd::prelude::*;

verus! {

/// A value with a byte encoding.
pub trait ToBytes {
    fn to_bytes(&self) -> Vec<u8>;
}

/// A value that can be read back from its byte encoding.
pub trait FromBytes: Sized {
    /// How many bytes a reading needs.
    spec fn needed() -> nat;

    fn from_bytes(buf: &[u8]) -> Self
        requires
            buf@.len() >= Self::needed(),
    ;
}

/// An attached short-lived sub-entity (a projectile or a companion).
#[derive(Clone, Copy, Debug, Default, PartialEq, Eq, Structural)]
pub struct PacketLifelessInfo {
    pub x: i16,
    pub y: i16,
    pub w: i16,
    pub h: i16,
    pub d: i16,
    pub damage: i16,
}

/// Position, health and action of one player character or enemy.
#[derive(Clone, Copy, Debug, Default, PartialEq)]
pub struct PacketCharInfo {
    pub x: i16,
    pub y: i16,
    pub w: i16,
    pub h: i16,
    pub a: i16,
    pub d: i16,
    pub d2: i16,
    pub dhit: i16,
    pub numchar: i16,
    pub idchar: i16,
    pub totchar: i16,
    pub totenemies: i16,
    pub exit: bool,
    pub healt: i16,
    pub stamina: i16,
    pub damage: i16,
    pub idmap: i16,
    pub totlifeless: i16,
    pub step: i16,
    pub vision: i16,
    pub listlifeless: [Option<PacketLifelessInfo>; 5],
}

/// Bytes of an encoded record: 39 bytes of fields, five slots of 12 bytes,
/// and zero bytes up to the record's in-memory size.
pub const PAYLOAD_LEN: usize = 110;

/// The unsigned 16-bit pattern of `v`.
pub open spec fn bits16(v: i16) -> int {
    if v < 0 { v + 65536 } else { v as int }
}

/// Little-endian bytes of `v`.
pub open spec fn le16(v: i16) -> Seq<u8> {
    seq![(bits16(v) % 256) as u8, (bits16(v) / 256) as u8]
}

/// The `i16` whose little-endian bytes are `lo`, `hi`.
pub open spec fn i16_of(lo: u8, hi: u8) -> i16 {
    let u = lo as int + 256 * hi as int;
    if u >= 32768 { (u - 65536) as i16 } else { u as i16 }
}

/// The `i16` stored at `off` in `b`.
pub open spec fn word_at(b: Seq<u8>, off: int) -> i16 {
    i16_of(b[off], b[off + 1])
}

/// Little-endian bytes of a sequence of words, back to back.
pub open spec fn words_le(ws: Seq<i16>) -> Seq<u8>
    decreases ws.len(),
{
    if ws.len() == 0 {
        Seq::empty()
    } else {
        words_le(ws.drop_last()) + le16(ws.last())
    }
}

pub open spec fn zeros(n: nat) -> Seq<u8> {
    Seq::new(n, |i: int| 0u8)
}

pub open spec fn lifeless_words(l: PacketLifelessInfo) -> Seq<i16> {
    seq![l.x, l.y, l.w, l.h, l.d, l.damage]
}

pub open spec fn blank_lifeless() -> PacketLifelessInfo {
    PacketLifelessInfo { x: 0, y: 0, w: 0, h: 0, d: 0, damage: 0 }
}

/// The words of a slot; an absent slot reads as six zeros.
pub open spec fn slot_words(s: Option<PacketLifelessInfo>) -> Seq<i16> {
    match s {
        Some(l) => lifeless_words(l),
        None => lifeless_words(blank_lifeless()),
    }
}

/// The first twelve fields, in wire order.
pub open spec fn head_words(p: PacketCharInfo) -> Seq<i16> {
    seq![p.x, p.y, p.w, p.h, p.a, p.d, p.d2, p.dhit, p.numchar, p.idchar, p.totchar, p.totenemies]
}

/// The fields after `exit`, then the five slots, in wire order.
pub open spec fn tail_words(p: PacketCharInfo) -> Seq<i16> {
    seq![p.healt, p.stamina, p.damage, p.idmap, p.totlifeless, p.step, p.vision]
        + slot_words(p.listlifeless[0]) + slot_words(p.listlifeless[1])
        + slot_words(p.listlifeless[2]) + slot_words(p.listlifeless[3])
        + slot_words(p.listlifeless[4])
}

pub open spec fn bool_byte(b: bool) -> u8 {
    if b { 1 } else { 0 }
}

/// The encoding of a record.
pub open spec fn encode_spec(p: PacketCharInfo) -> Seq<u8> {
    words_le(head_words(p)) + seq![bool_byte(p.exit)] + words_le(tail_words(p)) + zeros(11)
}

/// The sub-entity stored at `off`; six zero words read as an absent slot.
pub open spec fn slot_at(b: Seq<u8>, off: int) -> Option<PacketLifelessInfo> {
    let l = PacketLifelessInfo {
        x: word_at(b, off),
        y: word_at(b, off + 2),
        w: word_at(b, off + 4),
        h: word_at(b, off + 6),
        d: word_at(b, off + 8),
        damage: word_at(b, off + 10),
    };
    if l == blank_lifeless() { None } else { Some(l) }
}

/// The record that the first `PAYLOAD_LEN` bytes of `b` encode.
pub open spec fn decode_spec(b: Seq<u8>) -> PacketCharInfo {
    PacketCharInfo {
        x: word_at(b, 0),
        y: word_at(b, 2),
        w: word_at(b, 4),
        h: word_at(b, 6),
        a: word_at(b, 8),
        d: word_at(b, 10),
        d2: word_at(b, 12),
        dhit: word_at(b, 14),
        numchar: word_at(b, 16),
        idchar: word_at(b, 18),
        totchar: word_at(b, 20),
        totenemies: word_at(b, 22),
        exit: b[24] == 1,
        healt: word_at(b, 25),
        stamina: word_at(b, 27),
        damage: word_at(b, 29),
        idmap: word_at(b, 31),
        totlifeless: word_at(b, 33),
        step: word_at(b, 35),
        vision: word_at(b, 37),
        listlifeless: [
            slot_at(b, 39),
            slot_at(b, 51),
            slot_at(b, 63),
            slot_at(b, 75),
            slot_at(b, 87),
        ],
    }
}

/// A record survives the wire unchanged: no slot holds an all-zero entity,
/// which would read back as an absent slot.
pub open spec fn wire_faithful(p: PacketCharInfo) -> bool {
    forall|i: int| 0 <= i < 5 ==> p.listlifeless[i] != Some(blank_lifeless())
}

pub proof fn lemma_i16_round_trip(v: i16)
    ensures
        le16(v).len() == 2,
        i16_of(le16(v)[0], le16(v)[1]) == v,
{
}

pub proof fn lemma_words_len(ws: Seq<i16>)
    ensures
        words_le(ws).len() == 2 * ws.len(),
    decreases ws.len(),
{
    if ws.len() > 0 {
        lemma_words_len(ws.drop_last());
    }
}

proof fn lemma_words_le_at(ws: Seq<i16>, k: int)
    requires
        0 <= k < ws.len(),
    ensures
        words_le(ws).len() == 2 * ws.len(),
        word_at(words_le(ws), 2 * k) == ws[k],
    decreases ws.len(),
{
    lemma_words_len(ws);
    lemma_words_len(ws.drop_last());
    lemma_i16_round_trip(ws.last());
    if k < ws.len() - 1 {
        lemma_words_le_at(ws.drop_last(), k);
    }
}


proof fn lemma_slot_round_trip(b: Seq<u8>, tw: Seq<i16>, k: int, s: Option<PacketLifelessInfo>)
    requires
        0 <= k,
        k + 6 <= tw.len(),
        tw.subrange(k, k + 6) == slot_words(s),
        forall|o: int| 25 <= o < 25 + 2 * tw.len() && (o - 25) % 2 == 0
            ==> #[trigger] word_at(b, o) == tw[(o - 25) / 2],
    ensures
        slot_at(b, 25 + 2 * k) == absent_if_blank(s),
{
    let ws = slot_words(s);
    assert(word_at(b, 25 + 2 * k) == tw[k]);
    assert(word_at(b, 25 + 2 * k + 2) == tw[k + 1]);
    assert(word_at(b, 25 + 2 * k + 4) == tw[k + 2]);
    assert(word_at(b, 25 + 2 * k + 6) == tw[k + 3]);
    assert(word_at(b, 25 + 2 * k + 8) == tw[k + 4]);
    assert(word_at(b, 25 + 2 * k + 10) == tw[k + 5]);
    assert(tw[k] == ws[0] && tw[k + 1] == ws[1] && tw[k + 2] == ws[2]);
    assert(tw[k + 3] == ws[3] && tw[k + 4] == ws[4] && tw[k + 5] == ws[5]);
}

/// A slot as it reads back from the wire: an all-zero entity is absent.
pub open spec fn absent_if_blank(s: Option<PacketLifelessInfo>) -> Option<PacketLifelessInfo> {
    if s == Some(blank_lifeless()) { None } else { s }
}

/// A record as it reads back from the wire: every slot holding an all-zero
/// entity reads as absent, and all else is kept.
pub open spec fn as_read_back(p: PacketCharInfo) -> PacketCharInfo {
    let l = p.listlifeless;
    PacketCharInfo {
        listlifeless: [
            absent_if_blank(l[0]),
            absent_if_blank(l[1]),
            absent_if_blank(l[2]),
            absent_if_blank(l[3]),
            absent_if_blank(l[4]),
        ],
        ..p
    }
}

/// Decoding the encoding of a record gives the record back, for every record
/// whose sub-entity slots hold no all-zero entity.
pub proof fn lemma_round_trip(p: PacketCharInfo)
    requires
        wire_faithful(p),
    ensures
        encode_spec(p).len() == PAYLOAD_LEN,
        decode_spec(encode_spec(p)) == p,
{
    lemma_round_trip_any(p);
    assert(as_read_back(p).listlifeless =~= p.listlifeless);
}

/// Decoding the encoding of any record gives it back, except that each
/// slot that held an all-zero entity reads as absent.
pub proof fn lemma_round_trip_any(p: PacketCharInfo)
    ensures
        encode_spec(p).len() == PAYLOAD_LEN,
        decode_spec(encode_spec(p)) == as_read_back(p),
{
    let hw = head_words(p);
    let tw = tail_words(p);
    let a = words_le(hw);
    let b = words_le(tw);
    let e = encode_spec(p);
    lemma_words_len(hw);
    lemma_words_len(tw);
    assert(tw.len() == 37);
    assert forall|o: int| 0 <= o < 24 && o % 2 == 0 implies #[trigger] word_at(e, o) == hw[o / 2] by {
        lemma_words_le_at(hw, o / 2);
        assert(e[o] == a[o] && e[o + 1] == a[o + 1]);
    }
    assert forall|o: int| 25 <= o < 99 && (o - 25) % 2 == 0 implies #[trigger] word_at(e, o) == tw[(o - 25) / 2] by {
        lemma_words_le_at(tw, (o - 25) / 2);
        assert(e[o] == b[o - 25] && e[o + 1] == b[o + 1 - 25]);
    }
    assert(e[24] == bool_byte(p.exit));
    assert(word_at(e, 0) == hw[0]);
    assert(word_at(e, 2) == hw[1]);
    assert(word_at(e, 4) == hw[2]);
    assert(word_at(e, 6) == hw[3]);
    assert(word_at(e, 8) == hw[4]);
    assert(word_at(e, 10) == hw[5]);
    assert(word_at(e, 12) == hw[6]);
    assert(word_at(e, 14) == hw[7]);
    assert(word_at(e, 16) == hw[8]);
    assert(word_at(e, 18) == hw[9]);
    assert(word_at(e, 20) == hw[10]);
    assert(word_at(e, 22) == hw[11]);
    assert(word_at(e, 25) == tw[0]);
    assert(word_at(e, 27) == tw[1]);
    assert(word_at(e, 29) == tw[2]);
    assert(word_at(e, 31) == tw[3]);
    assert(word_at(e, 33) == tw[4]);
    assert(word_at(e, 35) == tw[5]);
    assert(word_at(e, 37) == tw[6]);
    let l = p.listlifeless;
    assert(tw.subrange(7, 13) =~= slot_words(l[0]));
    assert(tw.subrange(13, 19) =~= slot_words(l[1]));
    assert(tw.subrange(19, 25) =~= slot_words(l[2]));
    assert(tw.subrange(25, 31) =~= slot_words(l[3]));
    assert(tw.subrange(31, 37) =~= slot_words(l[4]));
    lemma_slot_round_trip(e, tw, 7, l[0]);
    lemma_slot_round_trip(e, tw, 13, l[1]);
    lemma_slot_round_trip(e, tw, 19, l[2]);
    lemma_slot_round_trip(e, tw, 25, l[3]);
    lemma_slot_round_trip(e, tw, 31, l[4]);
    let d = decode_spec(e);
    assert(d.listlifeless =~= as_read_back(p).listlifeless);
}

proof fn lemma_words_le_push(ws: Seq<i16>, v: i16)
    ensures
        words_le(ws.push(v)) == words_le(ws) + le16(v),
{
    assert(ws.push(v).drop_last() =~= ws);
}

/// Appends the little-endian bytes of `v`.
fn push_word(buf: &mut Vec<u8>, v: i16, Ghost(ws): Ghost<Seq<i16>>)
    requires
        old(buf)@ == words_le(ws),
    ensures
        final(buf)@ == words_le(ws.push(v)),
{
    let u: u16 = if v < 0 { (v as i32 + 65536) as u16 } else { v as u16 };
    buf.push((u % 256) as u8);
    buf.push((u / 256) as u8);
    proof {
        lemma_words_le_push(ws, v);
        assert(buf@ =~= words_le(ws) + le16(v));
    }
}

/// Appends the words of one slot.
fn push_slot(buf: &mut Vec<u8>, s: Option<PacketLifelessInfo>, Ghost(ws): Ghost<Seq<i16>>)
    requires
        old(buf)@ == words_le(ws),
    ensures
        final(buf)@ == words_le(ws + slot_words(s)),
{
    let l = match s {
        Some(l) => l,
        None => PacketLifelessInfo { x: 0, y: 0, w: 0, h: 0, d: 0, damage: 0 },
    };
    push_word(buf, l.x, Ghost(ws));
    push_word(buf, l.y, Ghost(ws.push(l.x)));
    push_word(buf, l.w, Ghost(ws.push(l.x).push(l.y)));
    push_word(buf, l.h, Ghost(ws.push(l.x).push(l.y).push(l.w)));
    push_word(buf, l.d, Ghost(ws.push(l.x).push(l.y).push(l.w).push(l.h)));
    push_word(buf, l.damage, Ghost(ws.push(l.x).push(l.y).push(l.w).push(l.h).push(l.d)));
    assert(ws.push(l.x).push(l.y).push(l.w).push(l.h).push(l.d).push(l.damage) =~= ws + slot_words(s));
}

/// The `i16` stored little-endian at `off`.
fn read_word(buf: &[u8], off: usize) -> (r: i16)
    requires
        off + 1 < buf@.len(),
    ensures
        r == word_at(buf@, off as int),
{
    let u: i32 = buf[off] as i32 + 256 * (buf[off + 1] as i32);
    if u >= 32768 { (u - 65536) as i16 } else { u as i16 }
}

/// The sub-entity stored at `off`; six zero words read as an absent slot.
fn read_slot(buf: &[u8], off: usize) -> (r: Option<PacketLifelessInfo>)
    requires
        off + 11 < buf@.len(),
        off < PAYLOAD_LEN,
    ensures
        r == slot_at(buf@, off as int),
{
    let l = PacketLifelessInfo {
        x: read_word(buf, off),
        y: read_word(buf, off + 2),
        w: read_word(buf, off + 4),
        h: read_word(buf, off + 6),
        d: read_word(buf, off + 8),
        damage: read_word(buf, off + 10),
    };
    if l.x == 0 && l.y == 0 && l.w == 0 && l.h == 0 && l.d == 0 && l.damage == 0 {
        None
    } else {
        Some(l)
    }
}

impl ToBytes for PacketCharInfo {
    fn to_bytes(&self) -> (r: Vec<u8>)
        ensures
            r@ == encode_spec(*self),
    {
        self.encode()
    }
}

impl FromBytes for PacketCharInfo {
    open spec fn needed() -> nat {
        PAYLOAD_LEN as nat
    }

    fn from_bytes(buf: &[u8]) -> (r: PacketCharInfo)
        ensures
            r == decode_spec(buf@),
    {
        PacketCharInfo::decode(buf)
    }
}

impl PacketCharInfo {
    /// The record's bytes on the wire.
    pub fn encode(&self) -> (r: Vec<u8>)
        ensures
            r@ == encode_spec(*self),
    {
        let mut head: Vec<u8> = Vec::new();
        let ghost ws = Seq::<i16>::empty();
        assert(words_le(ws) =~= Seq::<u8>::empty());
        push_word(&mut head, self.x, Ghost(ws));
        push_word(&mut head, self.y, Ghost(ws.push(self.x)));
        let ghost ws = ws.push(self.x).push(self.y);
        push_word(&mut head, self.w, Ghost(ws));
        push_word(&mut head, self.h, Ghost(ws.push(self.w)));
        let ghost ws = ws.push(self.w).push(self.h);
        push_word(&mut head, self.a, Ghost(ws));
        push_word(&mut head, self.d, Ghost(ws.push(self.a)));
        let ghost ws = ws.push(self.a).push(self.d);
        push_word(&mut head, self.d2, Ghost(ws));
        push_word(&mut head, self.dhit, Ghost(ws.push(self.d2)));
        let ghost ws = ws.push(self.d2).push(self.dhit);
        push_word(&mut head, self.numchar, Ghost(ws));
        push_word(&mut head, self.idchar, Ghost(ws.push(self.numchar)));
        let ghost ws = ws.push(self.numchar).push(self.idchar);
        push_word(&mut head, self.totchar, Ghost(ws));
        push_word(&mut head, self.totenemies, Ghost(ws.push(self.totchar)));
        let ghost ws = ws.push(self.totchar).push(self.totenemies);
        assert(ws =~= head_words(*self));

        let mut tail: Vec<u8> = Vec::new();
        let ghost ts = Seq::<i16>::empty();
        assert(words_le(ts) =~= Seq::<u8>::empty());
        push_word(&mut tail, self.healt, Ghost(ts));
        push_word(&mut tail, self.stamina, Ghost(ts.push(self.healt)));
        let ghost ts = ts.push(self.healt).push(self.stamina);
        push_word(&mut tail, self.damage, Ghost(ts));
        push_word(&mut tail, self.idmap, Ghost(ts.push(self.damage)));
        let ghost ts = ts.push(self.damage).push(self.idmap);
        push_word(&mut tail, self.totlifeless, Ghost(ts));
        push_word(&mut tail, self.step, Ghost(ts.push(self.totlifeless)));
        let ghost ts = ts.push(self.totlifeless).push(self.step);
        push_word(&mut tail, self.vision, Ghost(ts));
        let ghost ts = ts.push(self.vision);
        let ghost t0 = ts;
        push_slot(&mut tail, self.listlifeless[0], Ghost(ts));
        let ghost ts = ts + slot_words(self.listlifeless[0]);
        push_slot(&mut tail, self.listlifeless[1], Ghost(ts));
        let ghost ts = ts + slot_words(self.listlifeless[1]);
        push_slot(&mut tail, self.listlifeless[2], Ghost(ts));
        let ghost ts = ts + slot_words(self.listlifeless[2]);
        push_slot(&mut tail, self.listlifeless[3], Ghost(ts));
        let ghost ts = ts + slot_words(self.listlifeless[3]);
        push_slot(&mut tail, self.listlifeless[4], Ghost(ts));
        let ghost ts = ts + slot_words(self.listlifeless[4]);
        assert(ts =~= tail_words(*self));

        let mut out = head;
        out.push(if self.exit { 1u8 } else { 0u8 });
        out.append(&mut tail);
        let mut k: usize = 0;
        while k < 11
            invariant
                k <= 11,
                out@ == words_le(head_words(*self)) + seq![bool_byte(self.exit)]
                    + words_le(tail_words(*self)) + zeros(k as nat),
            decreases 11 - k,
        {
            out.push(0u8);
            k = k + 1;
            assert(out@ =~= words_le(head_words(*self)) + seq![bool_byte(self.exit)]
                + words_le(tail_words(*self)) + zeros(k as nat));
        }
        out
    }

    /// The record that the first bytes of `buf` encode.
    pub fn decode(buf: &[u8]) -> (r: PacketCharInfo)
        requires
            buf@.len() >= PAYLOAD_LEN,
        ensures
            r == decode_spec(buf@),
    {
        PacketCharInfo {
            x: read_word(buf, 0),
            y: read_word(buf, 2),
            w: read_word(buf, 4),
            h: read_word(buf, 6),
            a: read_word(buf, 8),
            d: read_word(buf, 10),
            d2: read_word(buf, 12),
            dhit: read_word(buf, 14),
            numchar: read_word(buf, 16),
            idchar: read_word(buf, 18),
            totchar: read_word(buf, 20),
            totenemies: read_word(buf, 22),
            exit: buf[24] == 1,
            healt: read_word(buf, 25),
            stamina: read_word(buf, 27),
            damage: read_word(buf, 29),
            idmap: read_word(buf, 31),
            totlifeless: read_word(buf, 33),
            step: read_word(buf, 35),
            vision: read_word(buf, 37),
            listlifeless: [
                read_slot(buf, 39),
                read_slot(buf, 51),
                read_slot(buf, 63),
                read_slot(buf, 75),
                read_slot(buf, 87),
            ],
        }
    }
}

} // verus!
