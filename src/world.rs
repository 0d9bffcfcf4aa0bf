//! The server's authoritative world: the areas, the enemy roster and the
//! connected players, and how joins, leaves and player updates change it.

use vstd::prelude::*;
use crate::geometry::{covers, attack_point, dir_damage, is_direction, struck, Area};
use crate::net::{Addr, Message};
use crate::packet::PacketCharInfo;

verus! {

/// The world of one server process.
///
/// `clients`, `clients_addrs` and `anchored` are parallel: entry `i` of
/// each belongs to the same session. A session is anchored once its first
/// update has set its position.
pub struct Ambients {
    pub boss_num: i16,
    pub areas: Vec<Area>,
    pub enemies: Vec<PacketCharInfo>,
    pub clients: Vec<PacketCharInfo>,
    pub clients_addrs: Vec<Addr>,
    pub anchored: Vec<bool>,
    pub last_id: i16,
}

/// The record of a player who has just joined: its id, the player count,
/// and the sentinel position (-1, -1) of a session not yet anchored.
pub open spec fn joined(id: i16, totchar: i16) -> PacketCharInfo {
    PacketCharInfo {
        x: -1i16,
        y: -1i16,
        w: 0,
        h: 0,
        a: 0,
        d: 0,
        d2: 0,
        dhit: 0,
        numchar: 0,
        idchar: id,
        totchar: totchar,
        totenemies: 0,
        exit: false,
        healt: 0,
        stamina: 0,
        damage: 0,
        idmap: 0,
        totlifeless: 0,
        step: 0,
        vision: 0,
        listlifeless: [None, None, None, None, None],
    }
}

/// A count as carried in a record, capped at `i16::MAX`.
pub open spec fn count16(n: int) -> i16 {
    if n > i16::MAX { i16::MAX } else { n as i16 }
}

pub fn count_i16(n: usize) -> (r: i16)
    ensures
        r == count16(n as int),
{
    if n > i16::MAX as usize { i16::MAX } else { n as i16 }
}

/// An enemy as sent in the roster snapshot to a joining player.
pub open spec fn roster_entry(e: PacketCharInfo, totchar: i16, totenemies: i16) -> PacketCharInfo {
    PacketCharInfo { totchar: totchar, totenemies: totenemies, ..e }
}

/// Whether an attack by `this_char` lands on `e`: it deals damage, shares
/// `e`'s area, faces a single direction, and its attack point lies in `e`'s box.
pub open spec fn lands(this_char: PacketCharInfo, e: PacketCharInfo) -> bool {
    &&& this_char.damage > 0
    &&& e.idmap == this_char.idmap
    &&& is_direction(this_char.d)
    &&& covers(e, attack_point(this_char).0, attack_point(this_char).1)
}

/// `e` after an attack by `this_char`.
pub open spec fn strike(this_char: PacketCharInfo, e: PacketCharInfo, area: Area) -> PacketCharInfo {
    if lands(this_char, e) { struck(e, this_char.d, this_char.damage, area) } else { e }
}

/// The broadcasts of an attack by `this_char` on each of `es`: one for each
/// entity it lands on, in order.
pub open spec fn strike_reports(this_char: PacketCharInfo, es: Seq<PacketCharInfo>, area: Area) -> Seq<
    Message<PacketCharInfo>,
>
    decreases es.len(),
{
    if es.len() == 0 {
        Seq::empty()
    } else {
        let rest = strike_reports(this_char, es.drop_last(), area);
        if lands(this_char, es.last()) {
            rest.push(Message::Broadcast(strike(this_char, es.last(), area)))
        } else {
            rest
        }
    }
}

/// Attacks every entity of `others` with `this_char`'s facing and damage,
/// broadcasting each one it lands on.
pub fn damage_char(
    this_char: &PacketCharInfo,
    others: &mut Vec<PacketCharInfo>,
    area: &Area,
    out: &mut Vec<Message<PacketCharInfo>>,
)
    requires
        area.wf(),
    ensures
        final(others)@ == old(others)@.map_values(|e: PacketCharInfo| strike(*this_char, e, *area)),
        final(out)@ == old(out)@ + strike_reports(*this_char, old(others)@, *area),
{
    let ghost es = others@;
    let ghost o = out@;
    let mut i: usize = 0;
    while i < others.len()
        invariant
            es == old(others)@,
            o == old(out)@,
            area.wf(),
            others@.len() == es.len(),
            i <= es.len(),
            forall|k: int| 0 <= k < i ==> others@[k] == strike(*this_char, es[k], *area),
            forall|k: int| i <= k < es.len() ==> others@[k] == es[k],
            out@ == o + strike_reports(*this_char, es.subrange(0, i as int), *area),
        decreases es.len() - i,
    {
        assert(es.subrange(0, i + 1).drop_last() =~= es.subrange(0, i as int));
        let mut other = others[i];
        if this_char.damage > 0 && other.idmap == this_char.idmap {
            if dir_damage(this_char, &mut other, area) {
                out.push(Message::Broadcast(other));
            }
        }
        others[i] = other;
        i = i + 1;
        assert(out@ =~= o + strike_reports(*this_char, es.subrange(0, i as int), *area));
    }
    assert(es.subrange(0, i as int) =~= es);
    assert(others@ =~= es.map_values(|e: PacketCharInfo| strike(*this_char, e, *area)));
}

/// A player's record after taking an update `p` from its client: counts and
/// area refreshed; size, facing, action, last hit, damage and step taken
/// from the client; position, health and character type taken from the
/// client only while the session is not yet anchored.
pub open spec fn refreshed(c: PacketCharInfo, p: PacketCharInfo, anchored: bool, tc: i16, te: i16) -> PacketCharInfo {
    PacketCharInfo {
        totchar: tc,
        totenemies: te,
        idmap: p.idmap,
        healt: if anchored { c.healt } else { p.healt },
        numchar: if anchored { c.numchar } else { p.numchar },
        x: if anchored { c.x } else { p.x },
        y: if anchored { c.y } else { p.y },
        w: p.w,
        h: p.h,
        d: p.d,
        a: p.a,
        dhit: p.dhit,
        damage: p.damage,
        step: p.step,
        ..c
    }
}

/// Whether areas `areas` hold one for map id `idmap` (map ids start at 1).
pub open spec fn has_area(areas: Seq<Area>, idmap: i16) -> bool {
    1 <= idmap <= areas.len()
}

/// The position of the first entry of `s` that holds `a`.
pub open spec fn first_index<A>(s: Seq<A>, a: A, i: int) -> bool {
    0 <= i < s.len() && s[i] == a && forall|j: int| 0 <= j < i ==> s[j] != a
}

/// The player ids of `cs`.
pub open spec fn ids(cs: Seq<PacketCharInfo>) -> Seq<i16> {
    cs.map_values(|c: PacketCharInfo| c.idchar)
}

impl Ambients {
    /// The three session lists move in lock-step, every area is well
    /// formed, and player ids are distinct and never above `last_id`.
    pub open spec fn wf(&self) -> bool {
        &&& self.clients@.len() == self.clients_addrs@.len()
        &&& self.clients@.len() == self.anchored@.len()
        &&& forall|k: int| 0 <= k < self.areas@.len() ==> (#[trigger] self.areas@[k]).wf()
        &&& forall|i: int| 0 <= i < self.clients@.len() ==> (#[trigger] self.clients@[i]).idchar <= self.last_id
        &&& forall|i: int, j: int| 0 <= i < self.clients@.len() && 0 <= j < self.clients@.len() && i != j
            ==> (#[trigger] self.clients@[i]).idchar != (#[trigger] self.clients@[j]).idchar
    }

    /// A world with the given areas and enemy roster and no players. Player
    /// ids start above the enemies' count.
    pub fn new(boss_num: i16, areas: Vec<Area>, enemies: Vec<PacketCharInfo>) -> (r: Ambients)
        requires
            forall|k: int| 0 <= k < areas@.len() ==> (#[trigger] areas@[k]).wf(),
        ensures
            r.wf(),
            r.boss_num == boss_num,
            r.areas@ == areas@,
            r.enemies@ == enemies@,
            r.clients@.len() == 0,
            r.last_id == count16(enemies@.len() as int),
    {
        let last_id = count_i16(enemies.len());
        Ambients {
            boss_num,
            areas,
            enemies,
            clients: Vec::new(),
            clients_addrs: Vec::new(),
            anchored: Vec::new(),
            last_id,
        }
    }

    /// Registers a player who connected from `addr`: gives it the next id,
    /// sends it its fresh record (see `joined`) and then the whole enemy
    /// roster, each `Direct`. When every id has been used, nothing changes
    /// and false is returned.
    pub fn connect_client(&mut self, addr: Addr, out: &mut Vec<Message<PacketCharInfo>>) -> (r: bool)
        requires
            old(self).wf(),
        ensures
            final(self).wf(),
            r == (old(self).last_id < i16::MAX),
            joined_world(*old(self), *final(self), old(out)@, final(out)@, addr),
    {
        if self.last_id == i16::MAX {
            return false;
        }
        self.last_id = self.last_id + 1;
        let id = self.last_id;
        let totchar = if self.clients.len() >= i16::MAX as usize {
            i16::MAX
        } else {
            (self.clients.len() + 1) as i16
        };
        let packet = PacketCharInfo {
            x: -1,
            y: -1,
            w: 0,
            h: 0,
            a: 0,
            d: 0,
            d2: 0,
            dhit: 0,
            numchar: 0,
            idchar: id,
            totchar: totchar,
            totenemies: 0,
            exit: false,
            healt: 0,
            stamina: 0,
            damage: 0,
            idmap: 0,
            totlifeless: 0,
            step: 0,
            vision: 0,
            listlifeless: [None, None, None, None, None],
        };
        out.push(Message::Direct(packet, addr));
        self.clients_addrs.push(addr);
        self.clients.push(packet);
        self.anchored.push(false);
        self.send_direct_enemies(addr, out);
        true
    }

    /// Sends the whole enemy roster to `addr`, each enemy `Direct`, with the
    /// current player and enemy counts.
    pub fn send_direct_enemies(&mut self, addr: Addr, out: &mut Vec<Message<PacketCharInfo>>)
        ensures
            final(self).clients@ == old(self).clients@,
            final(self).clients_addrs@ == old(self).clients_addrs@,
            final(self).anchored@ == old(self).anchored@,
            final(self).areas@ == old(self).areas@,
            final(self).boss_num == old(self).boss_num,
            final(self).last_id == old(self).last_id,
            final(self).enemies@ == old(self).enemies@.map_values(
                |e: PacketCharInfo| roster_entry(
                    e,
                    count16(old(self).clients@.len() as int),
                    count16(old(self).enemies@.len() as int),
                ),
            ),
            final(out)@ == old(out)@ + final(self).enemies@.map_values(
                |e: PacketCharInfo| Message::Direct(e, addr),
            ),
    {
        let tc = count_i16(self.clients.len());
        let te = count_i16(self.enemies.len());
        let ghost es = self.enemies@;
        let ghost o = out@;
        let mut i: usize = 0;
        while i < self.enemies.len()
            invariant
                es.len() == self.enemies@.len(),
                es == old(self).enemies@,
                o == old(out)@,
                self.clients@ == old(self).clients@,
                self.clients_addrs@ == old(self).clients_addrs@,
                self.anchored@ == old(self).anchored@,
                self.areas@ == old(self).areas@,
                self.boss_num == old(self).boss_num,
                self.last_id == old(self).last_id,
                i <= es.len(),
                tc == count16(self.clients@.len() as int),
                te == count16(es.len() as int),
                forall|k: int| 0 <= k < i ==> self.enemies@[k] == roster_entry(es[k], tc, te),
                forall|k: int| i <= k < es.len() ==> self.enemies@[k] == es[k],
                out@ == o + self.enemies@.subrange(0, i as int).map_values(
                    |e: PacketCharInfo| Message::Direct(e, addr),
                ),
            decreases es.len() - i,
        {
            let e = PacketCharInfo { totchar: tc, totenemies: te, ..self.enemies[i] };
            self.enemies[i] = e;
            out.push(Message::Direct(e, addr));
            i = i + 1;
            assert(out@ =~= o + self.enemies@.subrange(0, i as int).map_values(
                |e: PacketCharInfo| Message::Direct(e, addr),
            ));
        }
        assert(self.enemies@.subrange(0, i as int) =~= self.enemies@);
        assert(self.enemies@ =~= es.map_values(|e: PacketCharInfo| roster_entry(e, tc, te)));
    }
}


/// `w1` and the outbox `o1` after the player at `addr` joined `w0` with
/// outbox `o0` (see `Ambients::connect_client`). When every id has been
/// used, nothing changes.
pub open spec fn joined_world(
    w0: Ambients,
    w1: Ambients,
    o0: Seq<Message<PacketCharInfo>>,
    o1: Seq<Message<PacketCharInfo>>,
    addr: Addr,
) -> bool {
    if w0.last_id < i16::MAX {
        let id = (w0.last_id + 1) as i16;
        let n = w0.clients@.len() as int + 1;
        let tc = count16(n);
        let te = count16(w0.enemies@.len() as int);
        &&& w1.last_id == id
        &&& id as int == w0.last_id as int + 1
        &&& forall|i: int| 0 <= i < w0.clients@.len() ==> id != (#[trigger] w0.clients@[i]).idchar
        &&& w1.clients@ == w0.clients@.push(joined(id, count16(n)))
        &&& w1.clients_addrs@ == w0.clients_addrs@.push(addr)
        &&& w1.anchored@ == w0.anchored@.push(false)
        &&& w1.areas@ == w0.areas@
        &&& w1.boss_num == w0.boss_num
        &&& w1.enemies@ == w0.enemies@.map_values(
            |e: PacketCharInfo| roster_entry(e, tc, te),
        )
        &&& o1 == o0.push(Message::Direct(joined(id, count16(n)), addr))
            + w1.enemies@.map_values(|e: PacketCharInfo| Message::Direct(e, addr))
    } else {
        w1 == w0 && o1 == o0
    }
}

/// `w1` after the player at `addr` left `w0` (see
/// `Ambients::disconnect_client`).
pub open spec fn left_world(w0: Ambients, w1: Ambients, addr: Addr) -> bool {
    &&& !w0.clients_addrs@.contains(addr) ==> w1 == w0
    &&& w0.clients_addrs@.contains(addr) ==> exists|i: int| {
        &&& first_index(w0.clients_addrs@, addr, i)
        &&& w1.clients@ == w0.clients@.remove(i)
        &&& w1.clients_addrs@ == w0.clients_addrs@.remove(i)
        &&& w1.anchored@ == w0.anchored@.remove(i)
    }
    &&& w1.enemies@ == w0.enemies@
    &&& w1.areas@ == w0.areas@
    &&& w1.boss_num == w0.boss_num
    &&& w1.last_id == w0.last_id
}

/// `w1` and the outbox `o1` after `w0` took the update `packet` from a
/// player's client, with outbox `o0` (see `Ambients::on_message`). An
/// update for an id that is not connected changes nothing.
pub open spec fn updated_world(
    w0: Ambients,
    w1: Ambients,
    o0: Seq<Message<PacketCharInfo>>,
    o1: Seq<Message<PacketCharInfo>>,
    packet: PacketCharInfo,
) -> bool {
    &&& !(exists|i: int| 0 <= i < w0.clients@.len() && w0.clients@[i].idchar == packet.idchar) ==> w1 == w0 && o1 == o0
    &&& (exists|i: int| 0 <= i < w0.clients@.len() && w0.clients@[i].idchar == packet.idchar) ==> exists|
        i: int,
    |
        #![trigger w0.clients@[i]]
        {
        let c = refreshed(
            w0.clients@[i],
            packet,
            w0.anchored@[i],
            count16(w0.clients@.len() as int),
            count16(w0.enemies@.len() as int),
        );
        let area = w0.areas@[c.idmap - 1];
        let fought = has_area(w0.areas@, c.idmap);
        let done = PacketCharInfo { healt: if c.healt < 0 { 0i16 } else { c.healt }, ..c };
        &&& 0 <= i < w0.clients@.len()
        &&& w0.clients@[i].idchar == packet.idchar
        &&& w1.clients@ == w0.clients@.update(i, done)
        &&& w1.anchored@ == w0.anchored@.update(i, true)
        &&& fought ==> w1.enemies@ == w0.enemies@.map_values(
            |e: PacketCharInfo| strike(c, e, area),
        )
        &&& !fought ==> w1.enemies@ == w0.enemies@
        &&& fought ==> o1 == o0 + strike_reports(c, w0.enemies@, area)
            + seq![Message::Broadcast(done)]
        &&& !fought ==> o1 == o0 + seq![Message::Broadcast(done)]
    }
    &&& w1.clients_addrs@ == w0.clients_addrs@
    &&& w1.areas@ == w0.areas@
    &&& w1.boss_num == w0.boss_num
    &&& w1.last_id == w0.last_id
}

/// A player's record after a run of updates on an anchored session.
pub open spec fn after_updates(c: PacketCharInfo, ps: Seq<PacketCharInfo>, tc: i16, te: i16) -> PacketCharInfo
    decreases ps.len(),
{
    if ps.len() == 0 {
        c
    } else {
        refreshed(after_updates(c, ps.drop_last(), tc, te), ps.last(), true, tc, te)
    }
}

/// The first update of a session takes the client's position; the session
/// is then anchored, and no later update moves it again.
pub proof fn lemma_anchoring(c: PacketCharInfo, first: PacketCharInfo, later: Seq<PacketCharInfo>, tc: i16, te: i16)
    ensures
        refreshed(c, first, false, tc, te).x == first.x,
        refreshed(c, first, false, tc, te).y == first.y,
        after_updates(refreshed(c, first, false, tc, te), later, tc, te).x == first.x,
        after_updates(refreshed(c, first, false, tc, te), later, tc, te).y == first.y,
    decreases later.len(),
{
    if later.len() > 0 {
        lemma_anchoring(c, first, later.drop_last(), tc, te);
    }
}

proof fn lemma_join_ids_step(ws: Seq<Ambients>, outs: Seq<Seq<Message<PacketCharInfo>>>, addrs: Seq<Addr>, k: int)
    requires
        ws.len() == addrs.len() + 1,
        outs.len() == addrs.len() + 1,
        forall|m: int| 0 <= m < addrs.len() ==> (#[trigger] ws[m]).last_id < i16::MAX
            && joined_world(ws[m], ws[m + 1], outs[m], outs[m + 1], addrs[m]),
        0 <= k <= addrs.len(),
    ensures
        ws[k].last_id == ws[0].last_id + k,
    decreases k,
{
    if k > 0 {
        lemma_join_ids_step(ws, outs, addrs, k - 1);
        assert(ws[k - 1].last_id < i16::MAX);
    }
}

/// However many players join one after another, the ids they are given
/// are pairwise distinct: each join takes the id after the last one handed
/// out, so later joins get larger ids.
pub proof fn lemma_join_ids_distinct(ws: Seq<Ambients>, outs: Seq<Seq<Message<PacketCharInfo>>>, addrs: Seq<Addr>)
    requires
        ws.len() == addrs.len() + 1,
        outs.len() == addrs.len() + 1,
        forall|m: int| 0 <= m < addrs.len() ==> (#[trigger] ws[m]).last_id < i16::MAX
            && joined_world(ws[m], ws[m + 1], outs[m], outs[m + 1], addrs[m]),
    ensures
        forall|j: int, k: int| 0 <= j < k < addrs.len() ==> (#[trigger] ws[j + 1]).last_id < (#[trigger] ws[k + 1]).last_id,
{
    assert forall|j: int, k: int| 0 <= j < k < addrs.len() implies (#[trigger] ws[j + 1]).last_id < (#[trigger] ws[k + 1]).last_id by {
        lemma_join_ids_step(ws, outs, addrs, j + 1);
        lemma_join_ids_step(ws, outs, addrs, k + 1);
    }
}

/// Player records that changed without their ids changing keep the ids
/// distinct and never above `last_id`.
pub proof fn lemma_ids_kept(before: Seq<PacketCharInfo>, after: Seq<PacketCharInfo>, last_id: i16)
    requires
        before.len() == after.len(),
        forall|a: int| 0 <= a < after.len() ==> (#[trigger] after[a]).idchar == before[a].idchar,
        forall|i: int| 0 <= i < before.len() ==> (#[trigger] before[i]).idchar <= last_id,
        forall|i: int, j: int| 0 <= i < before.len() && 0 <= j < before.len() && i != j
            ==> (#[trigger] before[i]).idchar != (#[trigger] before[j]).idchar,
    ensures
        forall|i: int| 0 <= i < after.len() ==> (#[trigger] after[i]).idchar <= last_id,
        forall|i: int, j: int| 0 <= i < after.len() && 0 <= j < after.len() && i != j
            ==> (#[trigger] after[i]).idchar != (#[trigger] after[j]).idchar,
{
    assert forall|i: int| 0 <= i < after.len() implies (#[trigger] after[i]).idchar <= last_id by {
        assert(after[i].idchar == before[i].idchar);
    }
    assert forall|i: int, j: int| 0 <= i < after.len() && 0 <= j < after.len() && i != j
        implies (#[trigger] after[i]).idchar != (#[trigger] after[j]).idchar by {
        assert(after[i].idchar == before[i].idchar);
        assert(after[j].idchar == before[j].idchar);
    }
}

/// Whether no record of `es` has negative health.
pub open spec fn healths_sound(es: Seq<PacketCharInfo>) -> bool {
    forall|k: int| 0 <= k < es.len() ==> (#[trigger] es[k]).healt >= 0
}

/// Whether no record broadcast in `ms` has negative health.
pub open spec fn broadcasts_sound(ms: Seq<Message<PacketCharInfo>>) -> bool {
    forall|k: int| 0 <= k < ms.len() && (#[trigger] ms[k]) is Broadcast ==> ms[k]->Broadcast_0.healt >= 0
}

proof fn lemma_strike_reports_sound(this_char: PacketCharInfo, es: Seq<PacketCharInfo>, area: Area)
    ensures
        broadcasts_sound(strike_reports(this_char, es, area)),
    decreases es.len(),
{
    if es.len() > 0 {
        lemma_strike_reports_sound(this_char, es.drop_last(), area);
        let rest = strike_reports(this_char, es.drop_last(), area);
        if lands(this_char, es.last()) {
            let r = rest.push(Message::Broadcast(strike(this_char, es.last(), area)));
            assert forall|k: int| 0 <= k < r.len() && (#[trigger] r[k]) is Broadcast implies r[k]->Broadcast_0.healt >= 0 by {
                if k < rest.len() {
                    assert(r[k] == rest[k]);
                }
            }
        }
    }
}

/// A player's update leaves no health negative: not the player's, not an
/// enemy's it struck, and not one it broadcast.
pub proof fn lemma_update_health(
    w0: Ambients,
    w1: Ambients,
    o0: Seq<Message<PacketCharInfo>>,
    o1: Seq<Message<PacketCharInfo>>,
    packet: PacketCharInfo,
)
    requires
        updated_world(w0, w1, o0, o1, packet),
        healths_sound(w0.clients@),
        healths_sound(w0.enemies@),
    ensures
        healths_sound(w1.clients@),
        healths_sound(w1.enemies@),
        o0.len() <= o1.len(),
        broadcasts_sound(o1.subrange(o0.len() as int, o1.len() as int)),
{
    if !(exists|i: int| 0 <= i < w0.clients@.len() && w0.clients@[i].idchar == packet.idchar) {
        assert(o1.subrange(o0.len() as int, o1.len() as int) =~= Seq::<Message<PacketCharInfo>>::empty());
    } else {
        let i = choose|i: int| #![trigger w0.clients@[i]] {
            let c = refreshed(
                w0.clients@[i],
                packet,
                w0.anchored@[i],
                count16(w0.clients@.len() as int),
                count16(w0.enemies@.len() as int),
            );
            let area = w0.areas@[c.idmap - 1];
            let fought = has_area(w0.areas@, c.idmap);
            let done = PacketCharInfo { healt: if c.healt < 0 { 0i16 } else { c.healt }, ..c };
            &&& 0 <= i < w0.clients@.len()
            &&& w0.clients@[i].idchar == packet.idchar
            &&& w1.clients@ == w0.clients@.update(i, done)
            &&& w1.anchored@ == w0.anchored@.update(i, true)
            &&& fought ==> w1.enemies@ == w0.enemies@.map_values(|e: PacketCharInfo| strike(c, e, area))
            &&& !fought ==> w1.enemies@ == w0.enemies@
            &&& fought ==> o1 == o0 + strike_reports(c, w0.enemies@, area) + seq![Message::Broadcast(done)]
            &&& !fought ==> o1 == o0 + seq![Message::Broadcast(done)]
        };
        let c = refreshed(
            w0.clients@[i],
            packet,
            w0.anchored@[i],
            count16(w0.clients@.len() as int),
            count16(w0.enemies@.len() as int),
        );
        let area = w0.areas@[c.idmap - 1];
        let done = PacketCharInfo { healt: if c.healt < 0 { 0i16 } else { c.healt }, ..c };
        assert forall|k: int| 0 <= k < w1.clients@.len() implies (#[trigger] w1.clients@[k]).healt >= 0 by {
            if k != i {
                assert(w1.clients@[k] == w0.clients@[k]);
            }
        }
        assert forall|k: int| 0 <= k < w1.enemies@.len() implies (#[trigger] w1.enemies@[k]).healt >= 0 by {
            assert(w0.enemies@[k].healt >= 0);
        }
        let tail = o1.subrange(o0.len() as int, o1.len() as int);
        if has_area(w0.areas@, c.idmap) {
            let reps = strike_reports(c, w0.enemies@, area);
            lemma_strike_reports_sound(c, w0.enemies@, area);
            assert(tail =~= reps + seq![Message::Broadcast(done)]);
            assert forall|k: int| 0 <= k < tail.len() && (#[trigger] tail[k]) is Broadcast
                implies tail[k]->Broadcast_0.healt >= 0 by {
                if k < reps.len() {
                    assert(tail[k] == reps[k]);
                }
            }
        } else {
            assert(tail =~= seq![Message::Broadcast(done)]);
        }
    }
}

/// However the players joined, left and updated, no two connected players
/// share an id, and every id handed out lies above every id still in use.
pub proof fn lemma_ids_distinct(w: Ambients)
    requires
        w.wf(),
    ensures
        ids(w.clients@).no_duplicates(),
        forall|i: int| 0 <= i < w.clients@.len() ==> (#[trigger] w.clients@[i]).idchar < w.last_id + 1,
{
    let s = ids(w.clients@);
    assert forall|i: int, j: int| 0 <= i < s.len() && 0 <= j < s.len() && i != j implies s[i] != s[j] by {
        assert(s[i] == w.clients@[i].idchar);
        assert(s[j] == w.clients@[j].idchar);
    }
}

impl Ambients {
    /// Forgets the session of `addr`, with its player record; true when
    /// there was one. Other players are not told.
    pub fn disconnect_client(&mut self, addr: Addr) -> (r: bool)
        requires
            old(self).wf(),
        ensures
            final(self).wf(),
            r == old(self).clients_addrs@.contains(addr),
            left_world(*old(self), *final(self), addr),
    {
        let mut i: usize = 0;
        while i < self.clients_addrs.len()
            invariant
                *self == *old(self),
                self.wf(),
                i <= self.clients_addrs@.len(),
                forall|j: int| 0 <= j < i ==> self.clients_addrs@[j] != addr,
            decreases self.clients_addrs@.len() - i,
        {
            if self.clients_addrs[i] == addr {
                let ghost before = self.clients@;
                self.clients_addrs.remove(i);
                self.clients.remove(i);
                self.anchored.remove(i);
                proof {
                    assert(first_index(old(self).clients_addrs@, addr, i as int));
                    assert forall|a: int| 0 <= a < self.clients@.len() implies
                        (#[trigger] self.clients@[a]).idchar <= self.last_id by {
                        if a >= i {
                            assert(self.clients@[a] == before[a + 1]);
                        }
                    }
                    assert forall|a: int, b: int| 0 <= a < self.clients@.len() && 0 <= b < self.clients@.len()
                        && a != b implies (#[trigger] self.clients@[a]).idchar != (#[trigger] self.clients@[b]).idchar by {
                        let a2 = if a >= i { a + 1 } else { a };
                        let b2 = if b >= i { b + 1 } else { b };
                        assert(self.clients@[a] == before[a2]);
                        assert(self.clients@[b] == before[b2]);
                    }
                }
                return true;
            }
            i = i + 1;
        }
        false
    }

    /// The index of the player with id `idchar`, if one is connected.
    pub fn position_of(&self, idchar: i16) -> (r: Option<usize>)
        ensures
            r is None ==> forall|i: int| 0 <= i < self.clients@.len() ==> self.clients@[i].idchar != idchar,
            r is Some ==> r->Some_0 < self.clients@.len() && self.clients@[r->Some_0 as int].idchar == idchar,
    {
        let mut i: usize = 0;
        while i < self.clients.len()
            invariant
                i <= self.clients@.len(),
                forall|j: int| 0 <= j < i ==> self.clients@[j].idchar != idchar,
            decreases self.clients@.len() - i,
        {
            if self.clients[i].idchar == idchar {
                return Some(i);
            }
            i = i + 1;
        }
        None
    }

    /// Applies an update that a player's client sent: refreshes the
    /// player's record (see `refreshed`), anchors the session, lets the
    /// player attack the enemies of its area, floors its health at zero and
    /// broadcasts the record. An update for an id that is not connected
    /// changes nothing and gives false.
    pub fn on_message(&mut self, packet: PacketCharInfo, addr: Addr, out: &mut Vec<Message<PacketCharInfo>>) -> (r: bool)
        requires
            old(self).wf(),
        ensures
            final(self).wf(),
            r == exists|i: int| 0 <= i < old(self).clients@.len() && old(self).clients@[i].idchar == packet.idchar,
            updated_world(*old(self), *final(self), old(out)@, final(out)@, packet),
    {
        let pos = match self.position_of(packet.idchar) {
            Some(p) => p,
            None => {
                return false;
            },
        };
        let ghost o = out@;
        let mut c = self.clients[pos];
        c.totchar = count_i16(self.clients.len());
        c.totenemies = count_i16(self.enemies.len());
        c.idmap = packet.idmap;
        if !self.anchored[pos] {
            c.healt = packet.healt;
            c.numchar = packet.numchar;
            c.x = packet.x;
            c.y = packet.y;
        }
        c.w = packet.w;
        c.h = packet.h;
        c.d = packet.d;
        c.a = packet.a;
        c.dhit = packet.dhit;
        c.damage = packet.damage;
        c.step = packet.step;
        let ghost c0 = c;
        if 1 <= c.idmap && (c.idmap as usize) <= self.areas.len() {
            let k = (c.idmap - 1) as usize;
            damage_char(&c, &mut self.enemies, &self.areas[k], out);
        }
        if c.healt < 0 {
            c.healt = 0;
        }
        self.clients[pos] = c;
        self.anchored[pos] = true;
        out.push(Message::Broadcast(c));
        proof {
            assert(c0 == refreshed(
                old(self).clients@[pos as int],
                packet,
                old(self).anchored@[pos as int],
                count16(old(self).clients@.len() as int),
                count16(old(self).enemies@.len() as int),
            ));
            assert forall|a: int| 0 <= a < self.clients@.len() implies
                (#[trigger] self.clients@[a]).idchar == old(self).clients@[a].idchar by {}
            lemma_ids_kept(old(self).clients@, self.clients@, self.last_id);
            let w0 = *old(self);
            let i = pos as int;
            assert(0 <= i < w0.clients@.len() && w0.clients@[i].idchar == packet.idchar);
            let fought = has_area(w0.areas@, c0.idmap);
            let area = w0.areas@[c0.idmap - 1];
            if fought {
                assert(out@ == old(out)@ + strike_reports(c0, w0.enemies@, area) + seq![Message::Broadcast(c)]);
            } else {
                assert(out@ == old(out)@ + seq![Message::Broadcast(c)]);
            }
        }
        true
    }
}

} // verus!
