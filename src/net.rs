//! Frames on the wire, the messages exchanged with the connection manager,
//! and the manager's bookkeeping of live sessions.

use vstd::prelude::*;
use crate::packet::{
    decode_spec, encode_spec, head_words, lemma_words_len, tail_words, FromBytes, PacketCharInfo, ToBytes,
    PAYLOAD_LEN,
};

verus! {

/// Bytes of one frame: signature, length, record, and a trailing zero byte.
pub const FRAME_LEN: usize = 116;

/// The frame signature, "GDP".
pub open spec fn signature() -> Seq<u8> {
    seq![71u8, 68u8, 80u8]
}

/// A network peer: an IPv4 address (most significant byte first) and a port.
#[derive(Clone, Copy, Debug, PartialEq, Eq, Structural, Hash)]
pub struct Addr {
    pub ip: u32,
    pub port: u16,
}

/// A frame: signature, total length, and the record it carries.
#[derive(Clone, Copy, Debug, Default)]
pub struct Packet<TData> {
    pub sign: [u8; 3],
    pub size: u16,
    pub data: TData,
}

/// Why a frame or a send request could not be handled.
#[derive(Clone, Copy, Debug, PartialEq, Eq, Structural)]
pub enum NetError {
    /// The bytes are too few or do not start with the signature.
    MalformedFrame,
    /// A direct send names a peer that is no longer connected.
    UnknownSessionTarget,
}

/// An envelope of the connection manager's mailbox.
#[derive(Clone, Copy, Debug)]
pub enum Message<TMsg> {
    Accepted(Addr),
    Broadcast(TMsg),
    BroadcastExcept(TMsg, Addr),
    Direct(TMsg, Addr),
    Disconnected(Addr),
}

impl<TMsg> Message<TMsg> {
    /// Whether application code may hand this message to the manager:
    /// `Accepted` and `Disconnected` come only from the manager itself.
    pub open spec fn outbound(&self) -> bool {
        !(self is Accepted || self is Disconnected)
    }

    pub fn is_outbound(&self) -> (r: bool)
        ensures
            r == self.outbound(),
    {
        match self {
            Message::Accepted(_) | Message::Disconnected(_) => false,
            _ => true,
        }
    }
}

pub open spec fn le_u16(v: u16) -> Seq<u8> {
    seq![(v % 256) as u8, (v / 256) as u8]
}

/// The bytes of a frame carrying a record.
pub open spec fn frame_spec(p: Packet<PacketCharInfo>) -> Seq<u8> {
    p.sign@ + le_u16(p.size) + encode_spec(p.data) + seq![0u8]
}

/// The frame that `b` holds, read without checking it.
pub open spec fn unframe_spec(b: Seq<u8>) -> Packet<PacketCharInfo> {
    Packet {
        sign: [b[0], b[1], b[2]],
        size: (b[3] as int + 256 * b[4] as int) as u16,
        data: decode_spec(b.subrange(5, b.len() as int)),
    }
}

/// Whether `b` is long enough and starts with the signature.
pub open spec fn well_framed(b: Seq<u8>) -> bool {
    b.len() >= FRAME_LEN && b.subrange(0, 3) == signature()
}

impl Packet<PacketCharInfo> {
    /// A frame around `msg`, with the signature and the frame length.
    pub fn new(msg: PacketCharInfo) -> (r: Self)
        ensures
            r.sign@ == signature(),
            r.size == FRAME_LEN,
            r.data == msg,
    {
        let r = Packet { sign: [71u8, 68u8, 80u8], size: FRAME_LEN as u16, data: msg };
        assert(r.sign@ =~= signature());
        r
    }

}

impl ToBytes for Packet<PacketCharInfo> {
    /// The frame's bytes.
    fn to_bytes(&self) -> (r: Vec<u8>)
        ensures
            r@ == frame_spec(*self),
            r@.len() == FRAME_LEN,
    {
        let mut out: Vec<u8> = Vec::new();
        out.push(self.sign[0]);
        out.push(self.sign[1]);
        out.push(self.sign[2]);
        out.push((self.size % 256) as u8);
        out.push((self.size / 256) as u8);
        let mut body = self.data.encode();
        out.append(&mut body);
        out.push(0u8);
        assert(out@ =~= frame_spec(*self));
        proof {
            lemma_encode_len(self.data);
        }
        out
    }

}

impl FromBytes for Packet<PacketCharInfo> {
    open spec fn needed() -> nat {
        FRAME_LEN as nat
    }

    /// The frame at the start of `buf`, read without checking its signature.
    fn from_bytes(buf: &[u8]) -> (r: Self)
        ensures
            r == unframe_spec(buf@),
    {
        let sign = [buf[0], buf[1], buf[2]];
        let size = (buf[3] as u16) + 256 * (buf[4] as u16);
        let body = slice_from(buf, 5);
        let data = PacketCharInfo::decode(body.as_slice());
        Packet { sign, size, data }
    }
}

/// The bytes of `buf` from `start` on.
fn slice_from(buf: &[u8], start: usize) -> (r: Vec<u8>)
    requires
        start <= buf@.len(),
    ensures
        r@ == buf@.subrange(start as int, buf@.len() as int),
{
    let mut r: Vec<u8> = Vec::new();
    let mut i = start;
    while i < buf.len()
        invariant
            start <= i <= buf@.len(),
            r@ == buf@.subrange(start as int, i as int),
        decreases buf@.len() - i,
    {
        r.push(buf[i]);
        i = i + 1;
        assert(r@ =~= buf@.subrange(start as int, i as int));
    }
    r
}

proof fn lemma_encode_len(p: PacketCharInfo)
    ensures
        encode_spec(p).len() == PAYLOAD_LEN,
{
    lemma_words_len(head_words(p));
    lemma_words_len(tail_words(p));
}

/// Reads one inbound frame: the record it carries, or `MalformedFrame` when
/// `buf` is short or lacks the signature.
pub fn decode_frame(buf: &[u8]) -> (r: Result<PacketCharInfo, NetError>)
    ensures
        well_framed(buf@) ==> r == Ok::<PacketCharInfo, NetError>(
            decode_spec(buf@.subrange(5, buf@.len() as int)),
        ),
        !well_framed(buf@) ==> r == Err::<PacketCharInfo, NetError>(NetError::MalformedFrame),
{
    if buf.len() < FRAME_LEN {
        return Err(NetError::MalformedFrame);
    }
    if buf[0] != 71u8 || buf[1] != 68u8 || buf[2] != 80u8 {
        proof {
            if buf@.subrange(0, 3) == signature() {
                assert(buf@[0] == buf@.subrange(0, 3)[0]);
                assert(buf@[1] == buf@.subrange(0, 3)[1]);
                assert(buf@[2] == buf@.subrange(0, 3)[2]);
            }
        }
        return Err(NetError::MalformedFrame);
    }
    assert(buf@.subrange(0, 3) =~= signature());
    let p = Packet::<PacketCharInfo>::from_bytes(buf);
    Ok(p.data)
}

/// Whether enough bytes wait on a socket to read one whole frame.
pub fn frame_ready(available: usize) -> (r: bool)
    ensures
        r == (available >= FRAME_LEN),
{
    available >= FRAME_LEN
}

/// The message for a frame read from `addr`: the record as a `Direct`
/// message, or `MalformedFrame`, after which the session is dropped.
pub fn inbound(buf: &[u8], addr: Addr) -> (r: Result<Message<PacketCharInfo>, NetError>)
    ensures
        well_framed(buf@) ==> r == Ok::<Message<PacketCharInfo>, NetError>(
            Message::Direct(decode_spec(buf@.subrange(5, buf@.len() as int)), addr),
        ),
        !well_framed(buf@) ==> r == Err::<Message<PacketCharInfo>, NetError>(NetError::MalformedFrame),
{
    match decode_frame(buf) {
        Ok(p) => Ok(Message::Direct(p, addr)),
        Err(e) => Err(e),
    }
}


/// The peers of `s` that are not in `gone`, in their order.
pub open spec fn survivors(s: Seq<Addr>, gone: Seq<Addr>) -> Seq<Addr>
    decreases s.len(),
{
    if s.len() == 0 {
        Seq::empty()
    } else if gone.contains(s.last()) {
        survivors(s.drop_last(), gone)
    } else {
        survivors(s.drop_last(), gone).push(s.last())
    }
}

/// The peers of `s` that are in `gone`, in their order.
pub open spec fn casualties(s: Seq<Addr>, gone: Seq<Addr>) -> Seq<Addr>
    decreases s.len(),
{
    if s.len() == 0 {
        Seq::empty()
    } else if gone.contains(s.last()) {
        casualties(s.drop_last(), gone).push(s.last())
    } else {
        casualties(s.drop_last(), gone)
    }
}

/// The peers that an outbound message is written to, in session order.
pub open spec fn targets_spec<T>(s: Seq<Addr>, m: Message<T>) -> Seq<Addr> {
    match m {
        Message::Broadcast(_) => s,
        Message::BroadcastExcept(_, a) => survivors(s, seq![a]),
        Message::Direct(_, a) => seq![a],
        _ => Seq::empty(),
    }
}

pub proof fn lemma_survivors_contains(s: Seq<Addr>, gone: Seq<Addr>, a: Addr)
    ensures
        survivors(s, gone).contains(a) <==> (s.contains(a) && !gone.contains(a)),
    decreases s.len(),
{
    if s.len() > 0 {
        lemma_survivors_contains(s.drop_last(), gone, a);
        let r = survivors(s.drop_last(), gone);
        assert(s =~= s.drop_last().push(s.last()));
        if s.drop_last().contains(a) {
            let i = choose|i: int| 0 <= i < s.drop_last().len() && s.drop_last()[i] == a;
            assert(s[i] == a);
        }
        if s.contains(a) {
            let i = choose|i: int| 0 <= i < s.len() && s[i] == a;
            if i < s.len() - 1 {
                assert(s.drop_last()[i] == a);
            }
        }
        if !gone.contains(s.last()) {
            assert(r.push(s.last())[r.len() as int] == s.last());
            if r.contains(a) {
                let i = choose|i: int| 0 <= i < r.len() && r[i] == a;
                assert(r.push(s.last())[i] == a);
            }
            if r.push(s.last()).contains(a) {
                let i = choose|i: int| 0 <= i < r.len() + 1 && r.push(s.last())[i] == a;
                if i < r.len() {
                    assert(r[i] == a);
                }
            }
        }
    }
}

pub proof fn lemma_survivors_no_duplicates(s: Seq<Addr>, gone: Seq<Addr>)
    requires
        s.no_duplicates(),
    ensures
        survivors(s, gone).no_duplicates(),
    decreases s.len(),
{
    if s.len() > 0 {
        let d = s.drop_last();
        assert(d.no_duplicates());
        lemma_survivors_no_duplicates(d, gone);
        if !gone.contains(s.last()) {
            let r = survivors(d, gone);
            lemma_survivors_contains(d, gone, s.last());
            assert(!d.contains(s.last())) by {
                if d.contains(s.last()) {
                    let i = choose|i: int| 0 <= i < d.len() && d[i] == s.last();
                    assert(s[i] == s[s.len() - 1]);
                }
            }
            let k = r.push(s.last());
            assert forall|x: int, y: int| 0 <= x < k.len() && 0 <= y < k.len() && x != y
                implies k[x] != k[y] by {
                if x == k.len() - 1 {
                    assert(r[y] == k[y]);
                } else if y == k.len() - 1 {
                    assert(r[x] == k[x]);
                } else {
                    assert(r[x] == k[x] && r[y] == k[y]);
                }
            }
        }
    }
}

/// The peers with a live connection, in the order they connected. No peer
/// appears twice.
pub struct Sessions {
    pub addrs: Vec<Addr>,
}

impl Sessions {
    pub open spec fn wf(&self) -> bool {
        self.addrs@.no_duplicates()
    }

    pub fn new() -> (r: Sessions)
        ensures
            r.wf(),
            r.addrs@.len() == 0,
    {
        Sessions { addrs: Vec::new() }
    }

    pub fn contains(&self, addr: Addr) -> (r: bool)
        ensures
            r == self.addrs@.contains(addr),
    {
        let mut i: usize = 0;
        while i < self.addrs.len()
            invariant
                i <= self.addrs@.len(),
                forall|j: int| 0 <= j < i ==> self.addrs@[j] != addr,
            decreases self.addrs@.len() - i,
        {
            if self.addrs[i] == addr {
                return true;
            }
            i = i + 1;
        }
        false
    }

    /// Registers a newly accepted peer and gives the `Accepted` event for it;
    /// gives `None`, changing nothing, for a peer already registered.
    pub fn accept<T>(&mut self, addr: Addr) -> (r: Option<Message<T>>)
        requires
            old(self).wf(),
        ensures
            final(self).wf(),
            old(self).addrs@.contains(addr) ==> r is None && final(self).addrs@ == old(self).addrs@,
            !old(self).addrs@.contains(addr) ==> r == Some(Message::<T>::Accepted(addr))
                && final(self).addrs@ == old(self).addrs@.push(addr),
    {
        if self.contains(addr) {
            return None;
        }
        self.addrs.push(addr);
        proof {
            let s = self.addrs@;
            assert forall|i: int, j: int| 0 <= i < s.len() && 0 <= j < s.len() && i != j
                implies s[i] != s[j] by {
                if i == s.len() - 1 {
                    assert(old(self).addrs@[j] == s[j]);
                } else if j == s.len() - 1 {
                    assert(old(self).addrs@[i] == s[i]);
                }
            }
        }
        Some(Message::Accepted(addr))
    }

    /// The peers that one outbound message is to be written to. A `Direct`
    /// message to a peer that has gone gives `UnknownSessionTarget`.
    pub fn targets<T>(&self, msg: &Message<T>) -> (r: Result<Vec<Addr>, NetError>)
        requires
            msg.outbound(),
        ensures
            (msg is Direct && !self.addrs@.contains(msg->Direct_1)) ==> r
                == Err::<Vec<Addr>, NetError>(NetError::UnknownSessionTarget),
            !(msg is Direct && !self.addrs@.contains(msg->Direct_1)) ==> (r is Ok && r->Ok_0@
                == targets_spec(self.addrs@, *msg)),
    {
        match msg {
            Message::Broadcast(_) => Ok(self.addrs.clone()),
            Message::BroadcastExcept(_, a) => {
                let gone = vec![*a];
                assert(gone@ =~= seq![*a]);
                Ok(keep_unlisted(&self.addrs, &gone))
            },
            Message::Direct(_, a) => {
                if self.contains(*a) {
                    let r = vec![*a];
                    assert(r@ =~= seq![*a]);
                    Ok(r)
                } else {
                    Err(NetError::UnknownSessionTarget)
                }
            },
            _ => Err(NetError::UnknownSessionTarget),
        }
    }

    /// Ends a write pass: drops every session whose write failed, and gives
    /// one `Disconnected` event for each, in session order.
    pub fn drop_failed<T>(&mut self, failed: &Vec<Addr>) -> (r: Vec<Message<T>>)
        requires
            old(self).wf(),
        ensures
            final(self).wf(),
            final(self).addrs@ == survivors(old(self).addrs@, failed@),
            r@ == casualties(old(self).addrs@, failed@).map_values(|a: Addr| Message::<T>::Disconnected(a)),
    {
        let ghost s = self.addrs@;
        let mut kept: Vec<Addr> = Vec::new();
        let mut events: Vec<Message<T>> = Vec::new();
        let mut i: usize = 0;
        while i < self.addrs.len()
            invariant
                s == self.addrs@,
                s.no_duplicates(),
                i <= s.len(),
                kept@ == survivors(s.subrange(0, i as int), failed@),
                events@ == casualties(s.subrange(0, i as int), failed@).map_values(
                    |a: Addr| Message::<T>::Disconnected(a),
                ),
            decreases s.len() - i,
        {
            let a = self.addrs[i];
            assert(s.subrange(0, i + 1).drop_last() =~= s.subrange(0, i as int));
            assert(s.subrange(0, i + 1).last() == a);
            if contains_addr(failed, a) {
                events.push(Message::Disconnected(a));
                assert(events@ =~= casualties(s.subrange(0, i + 1), failed@).map_values(
                    |a: Addr| Message::<T>::Disconnected(a),
                ));
            } else {
                kept.push(a);
            }
            i = i + 1;
        }
        assert(s.subrange(0, s.len() as int) =~= s);
        proof {
            lemma_survivors_no_duplicates(s, failed@);
        }
        self.addrs = kept;
        events
    }
}

/// Whether `a` is listed in `v`.
fn contains_addr(v: &Vec<Addr>, a: Addr) -> (r: bool)
    ensures
        r == v@.contains(a),
{
    let mut i: usize = 0;
    while i < v.len()
        invariant
            i <= v@.len(),
            forall|j: int| 0 <= j < i ==> v@[j] != a,
        decreases v@.len() - i,
    {
        if v[i] == a {
            return true;
        }
        i = i + 1;
    }
    false
}

/// The peers of `s` that are not listed in `gone`.
fn keep_unlisted(s: &Vec<Addr>, gone: &Vec<Addr>) -> (r: Vec<Addr>)
    ensures
        r@ == survivors(s@, gone@),
{
    let mut r: Vec<Addr> = Vec::new();
    let mut i: usize = 0;
    while i < s.len()
        invariant
            i <= s@.len(),
            r@ == survivors(s@.subrange(0, i as int), gone@),
        decreases s@.len() - i,
    {
        assert(s@.subrange(0, i + 1).drop_last() =~= s@.subrange(0, i as int));
        if !contains_addr(gone, s[i]) {
            r.push(s[i]);
        }
        i = i + 1;
    }
    assert(s@.subrange(0, s@.len() as int) =~= s@);
    r
}

/// A failed write on one session keeps no other session from the broadcast:
/// every registered peer is a target of a `Broadcast`, and each one whose
/// own write succeeded stays registered after the pass, whichever others failed.
pub proof fn lemma_disconnect_isolation<T>(s: Seq<Addr>, failed: Seq<Addr>, m: T, b: Addr)
    requires
        s.contains(b),
        !failed.contains(b),
    ensures
        targets_spec(s, Message::Broadcast(m)).contains(b),
        survivors(s, failed).contains(b),
{
    lemma_survivors_contains(s, failed, b);
}

} // verus!
