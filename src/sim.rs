//! One step of the simulation: players walking, enemies choosing a target,
//! pursuing it and attacking it, and the boss's slower cadence.

use vstd::prelude::*;
use crate::geometry::{
    attack_point, covers, dir_damage, fits_i16, intersected, intersected_spec, is_direction, offset, struck, Area,
};
use crate::world::{count16, count_i16, has_area, joined_world, lemma_ids_kept, left_world, updated_world, Ambients};
use crate::net::{Addr, Message};
use crate::packet::PacketCharInfo;
use crate::{ACTION_ATTACK, ACTION_IDLE, ACTION_RUN, ACTION_WALK, DIRECTION_DOWN, DIRECTION_LEFT, DIRECTION_RIGHT, DIRECTION_UP};

verus! {

/// Ticks that a boss waits between two decisions.
pub const BOSS_LOCK: i32 = 20;

/// `v` moved by `by`, or `v` itself where that leaves the `i16` range.
pub open spec fn shifted(v: i16, by: int) -> i16 {
    if fits_i16(v + by) { (v + by) as i16 } else { v }
}

fn shift(v: i16, by: i32) -> (r: i16)
    requires
        -70000 <= by <= 70000,
    ensures
        r == shifted(v, by as int),
{
    let n = v as i32 + by;
    if i16::MIN as i32 <= n && n <= i16::MAX as i32 { n as i16 } else { v }
}

/// Whether a player walks this tick: its action is walking or running.
pub open spec fn walking(c: PacketCharInfo) -> bool {
    (c.a == ACTION_WALK || c.a == ACTION_RUN) && is_direction(c.d)
}

/// A walking player after one tick: `step` units along its facing.
pub open spec fn walked(c: PacketCharInfo) -> PacketCharInfo {
    let (dx, dy) = offset(c.d, c.step as int);
    PacketCharInfo { x: shifted(c.x, dx), y: shifted(c.y, dy), ..c }
}

/// The broadcasts of a tick of walking: one for each walking player.
pub open spec fn walk_reports(cs: Seq<PacketCharInfo>) -> Seq<Message<PacketCharInfo>>
    decreases cs.len(),
{
    if cs.len() == 0 {
        Seq::empty()
    } else if walking(cs.last()) {
        walk_reports(cs.drop_last()).push(Message::Broadcast(walked(cs.last())))
    } else {
        walk_reports(cs.drop_last())
    }
}

pub open spec fn walk_all(cs: Seq<PacketCharInfo>) -> Seq<PacketCharInfo> {
    cs.map_values(|c: PacketCharInfo| if walking(c) { walked(c) } else { c })
}

/// Moves every walking or running player `step` units along its facing,
/// with no collision check, and broadcasts each one moved. A player whose
/// facing is no single direction, or whose move would leave the `i16`
/// range along that axis, stays put there.
pub fn move_chars(clients: &mut Vec<PacketCharInfo>, out: &mut Vec<Message<PacketCharInfo>>)
    ensures
        final(clients)@ == walk_all(old(clients)@),
        final(out)@ == old(out)@ + walk_reports(old(clients)@),
{
    let ghost cs = clients@;
    let ghost o = out@;
    let mut i: usize = 0;
    while i < clients.len()
        invariant
            cs == old(clients)@,
            o == old(out)@,
            clients@.len() == cs.len(),
            i <= cs.len(),
            forall|k: int| 0 <= k < i ==> clients@[k] == (if walking(cs[k]) { walked(cs[k]) } else { cs[k] }),
            forall|k: int| i <= k < cs.len() ==> clients@[k] == cs[k],
            out@ == o + walk_reports(cs.subrange(0, i as int)),
        decreases cs.len() - i,
    {
        assert(cs.subrange(0, i + 1).drop_last() =~= cs.subrange(0, i as int));
        let mut c = clients[i];
        if (c.a == ACTION_WALK || c.a == ACTION_RUN) && (c.d == DIRECTION_LEFT || c.d == DIRECTION_RIGHT
            || c.d == DIRECTION_UP || c.d == DIRECTION_DOWN) {
            let s = c.step as i32;
            if c.d == DIRECTION_LEFT {
                c.x = shift(c.x, -s);
            } else if c.d == DIRECTION_RIGHT {
                c.x = shift(c.x, s);
            } else if c.d == DIRECTION_UP {
                c.y = shift(c.y, -s);
            } else {
                c.y = shift(c.y, s);
            }
            clients[i] = c;
            out.push(Message::Broadcast(c));
        }
        i = i + 1;
        assert(out@ =~= o + walk_reports(cs.subrange(0, i as int)));
    }
    assert(cs.subrange(0, i as int) =~= cs);
    assert(clients@ =~= walk_all(cs));
}

pub open spec fn abs(v: int) -> int {
    if v < 0 { -v } else { v }
}

/// Whether the boss stands next to the player, on the side it would move
/// toward: then it turns and strikes without stepping.
pub open spec fn boss_adjacent(b: PacketCharInfo, c: PacketCharInfo) -> bool {
    (abs(b.x - c.x) < b.step + b.w && b.x < c.x) || (abs(b.y - c.y) < b.step + b.h && b.y < c.y)
}

/// A boss after a decision: it attacks, facing the player along the axis of
/// the larger gap, and steps `step` units that way unless adjacent.
pub open spec fn boss_moved(b: PacketCharInfo, c: PacketCharInfo) -> PacketCharInfo {
    let dx = abs(b.x - c.x);
    let dy = abs(b.y - c.y);
    let stay = boss_adjacent(b, c);
    if dx >= dy {
        if b.x < c.x {
            PacketCharInfo { a: ACTION_ATTACK, d: DIRECTION_RIGHT, x: if stay { b.x } else { shifted(b.x, b.step as int) }, ..b }
        } else {
            PacketCharInfo { a: ACTION_ATTACK, d: DIRECTION_LEFT, x: if stay { b.x } else { shifted(b.x, -b.step) }, ..b }
        }
    } else {
        if b.y < c.y {
            PacketCharInfo { a: ACTION_ATTACK, d: DIRECTION_DOWN, y: if stay { b.y } else { shifted(b.y, b.step as int) }, ..b }
        } else {
            PacketCharInfo { a: ACTION_ATTACK, d: DIRECTION_UP, y: if stay { b.y } else { shifted(b.y, -b.step) }, ..b }
        }
    }
}

/// One tick of a boss chasing `client`. While `lock` is positive the boss
/// waits: `lock` counts down and nothing is to be sent. Otherwise it
/// decides (see `boss_moved`), `lock` restarts at `BOSS_LOCK`, and its new
/// state is to be sent (true).
pub fn move_boss(boss: &mut PacketCharInfo, client: &PacketCharInfo, lock: &mut i32) -> (r: bool)
    ensures
        *old(lock) > 0 ==> !r && *final(lock) == *old(lock) - 1 && *final(boss) == *old(boss),
        *old(lock) <= 0 ==> r && *final(lock) == BOSS_LOCK && *final(boss) == boss_moved(*old(boss), *client),
{
    if *lock > 0 {
        *lock = *lock - 1;
        return false;
    }
    let bx = boss.x as i32;
    let by = boss.y as i32;
    let cx = client.x as i32;
    let cy = client.y as i32;
    let dx = if bx >= cx { bx - cx } else { cx - bx };
    let dy = if by >= cy { by - cy } else { cy - by };
    let s = boss.step as i32;
    let stay = (dx < s + boss.w as i32 && bx < cx) || (dy < s + boss.h as i32 && by < cy);
    *lock = BOSS_LOCK;
    boss.a = ACTION_ATTACK;
    if dx >= dy {
        if bx < cx {
            if !stay {
                boss.x = shift(boss.x, s);
            }
            boss.d = DIRECTION_RIGHT;
        } else {
            if !stay {
                boss.x = shift(boss.x, -s);
            }
            boss.d = DIRECTION_LEFT;
        }
    } else {
        if by < cy {
            if !stay {
                boss.y = shift(boss.y, s);
            }
            boss.d = DIRECTION_DOWN;
        } else {
            if !stay {
                boss.y = shift(boss.y, -s);
            }
            boss.d = DIRECTION_UP;
        }
    }
    true
}


/// Whether `m` is the nearest integer to `n / sqrt(r2)`, halves rounded up,
/// with results capped at 32768.
pub open spec fn nearest_share(m: int, n: int, r2: int) -> bool {
    &&& 0 <= m <= 32768
    &&& m == 0 || (2 * m - 1) * (2 * m - 1) * r2 <= 4 * n * n
    &&& m == 32768 || 4 * n * n < (2 * m + 1) * (2 * m + 1) * r2
}

/// The nearest integer to `n / sqrt(r2)`.
pub open spec fn rounded_share(n: int, r2: int) -> int {
    choose|m: int| nearest_share(m, n, r2)
}

proof fn lemma_nearest_unique(m1: int, m2: int, n: int, r2: int)
    requires
        nearest_share(m1, n, r2),
        nearest_share(m2, n, r2),
        r2 >= 1,
    ensures
        m1 == m2,
{
    if m1 < m2 {
        assert((2 * m1 + 1) * (2 * m1 + 1) * r2 <= (2 * m2 - 1) * (2 * m2 - 1) * r2) by (nonlinear_arith)
            requires
                0 <= m1 < m2,
                r2 >= 1,
        ;
    } else if m2 < m1 {
        assert((2 * m2 + 1) * (2 * m2 + 1) * r2 <= (2 * m1 - 1) * (2 * m1 - 1) * r2) by (nonlinear_arith)
            requires
                0 <= m2 < m1,
                r2 >= 1,
        ;
    }
}

/// The nearest integer to `n / sqrt(r2)`, found by counting up.
fn round_share(n: u128, r2: u128) -> (m: u128)
    requires
        r2 >= 1,
        n <= 0x4_0000_0000,
        r2 <= 0x100_0000_0000,
        n * n <= 32768 * 32768 * r2,
    ensures
        nearest_share(m as int, n as int, r2 as int),
        m as int == rounded_share(n as int, r2 as int),
{
    let mut m: u128 = 0;
    proof {
        assert(4 * n * n <= 4 * 0x4_0000_0000 * 0x4_0000_0000) by (nonlinear_arith)
            requires
                n <= 0x4_0000_0000,
        ;
    }
    let lim = 4 * n * n;
    loop
        invariant
            m <= 32768,
            lim == 4 * n * n,
            m == 0 || (2 * m - 1) * (2 * m - 1) * r2 <= 4 * n * n,
            n * n <= 32768 * 32768 * r2,
            1 <= r2 <= 0x100_0000_0000,
        ensures
            m <= 32768,
            m == 0 || (2 * m - 1) * (2 * m - 1) * r2 <= 4 * n * n,
            m == 32768 || 4 * n * n < (2 * m + 1) * (2 * m + 1) * r2,
        decreases 32768 - m,
    {
        if m == 32768 {
            break;
        }
        proof {
            assert((2 * m + 1) * (2 * m + 1) <= 65537 * 65537) by (nonlinear_arith)
                requires
                    m < 32768,
            ;
            assert((2 * m + 1) * (2 * m + 1) * r2 <= 65537 * 65537 * 0x100_0000_0000) by (nonlinear_arith)
                requires
                    (2 * m + 1) * (2 * m + 1) <= 65537 * 65537,
                    r2 <= 0x100_0000_0000,
            ;
        }
        let next = (2 * m + 1) * (2 * m + 1) * r2;
        if next > lim {
            break;
        }
        m = m + 1;
    }
    proof {
        assert(nearest_share(m as int, n as int, r2 as int));
        lemma_nearest_unique(m as int, rounded_share(n as int, r2 as int), n as int, r2 as int);
    }
    m
}


/// The sign of `v`, with zero counted as positive.
pub open spec fn sgn(v: int) -> int {
    if v < 0 { -1 } else { 1 }
}

/// The move along an axis with gap `a` toward a target whose gap along the
/// other axis is `b`: `s * a / sqrt(a * a + b * b)`, rounded to the nearest
/// integer (halves away from zero); nothing when both gaps are zero.
pub open spec fn axis_share(s: int, a: int, b: int) -> int {
    if a == 0 && b == 0 { 0 } else { sgn(s * a) * rounded_share(abs(s) * abs(a), a * a + b * b) }
}

/// The facing toward a target with gaps `a` and `b`: along the axis of the
/// larger gap, the vertical one on a tie.
pub open spec fn facing(a: int, b: int) -> i16 {
    if abs(a) > abs(b) {
        if a >= 0 { DIRECTION_RIGHT } else { DIRECTION_LEFT }
    } else {
        if b >= 0 { DIRECTION_DOWN } else { DIRECTION_UP }
    }
}

/// The horizontal gap from `e` to `c`, between the far edges of their boxes.
pub open spec fn gap_x(e: PacketCharInfo, c: PacketCharInfo) -> int {
    (c.x + c.w) - (e.x + e.w)
}

/// The vertical gap from `e` to `c`, between the far edges of their boxes.
pub open spec fn gap_y(e: PacketCharInfo, c: PacketCharInfo) -> int {
    (c.y + c.h) - (e.y + e.h)
}

/// An enemy after one pursuit step toward `c`: it moves `step` units along
/// the direction of the target, first across, then down; a move along an
/// axis is undone where the mask obstructs it. It then faces the target.
pub open spec fn pursued(e: PacketCharInfo, c: PacketCharInfo, area: Area) -> PacketCharInfo {
    let a = gap_x(e, c);
    let b = gap_y(e, c);
    let nx = e.x + axis_share(e.step as int, a, b);
    let x1 = if fits_i16(nx) && !area.obstructed_spec(nx, e.y as int, e.w as int, e.h as int) {
        nx as i16
    } else {
        e.x
    };
    let ny = e.y + axis_share(e.step as int, b, a);
    let y1 = if fits_i16(ny) && !area.obstructed_spec(x1 as int, ny, e.w as int, e.h as int) {
        ny as i16
    } else {
        e.y
    };
    PacketCharInfo { x: x1, y: y1, d: facing(a, b), ..e }
}

fn axis_share_exec(s: i64, a: i64, b: i64) -> (r: i64)
    requires
        -32768 <= s <= 32767,
        -140000 <= a <= 140000,
        -140000 <= b <= 140000,
        !(a == 0 && b == 0),
    ensures
        r == axis_share(s as int, a as int, b as int),
        -32768 <= r <= 32768,
{
    let sa: i64 = if s < 0 { -s } else { s };
    let aa: i64 = if a < 0 { -a } else { a };
    let ba: i64 = if b < 0 { -b } else { b };
    proof {
        assert(0 <= sa * aa <= 32768 * 140000) by (nonlinear_arith)
            requires
                0 <= sa <= 32768,
                0 <= aa <= 140000,
        ;
        assert(0 <= aa * aa <= 140000 * 140000) by (nonlinear_arith)
            requires
                0 <= aa <= 140000,
        ;
        assert(0 <= ba * ba <= 140000 * 140000) by (nonlinear_arith)
            requires
                0 <= ba <= 140000,
        ;
        assert(a * a == aa * aa && b * b == ba * ba) by (nonlinear_arith)
            requires
                aa == abs(a as int),
                ba == abs(b as int),
        ;
        assert(aa * aa + ba * ba >= 1) by (nonlinear_arith)
            requires
                aa >= 0,
                ba >= 0,
                aa > 0 || ba > 0,
        ;
        assert((sa * aa) * (sa * aa) <= 32768 * 32768 * (aa * aa + ba * ba)) by (nonlinear_arith)
            requires
                0 <= sa <= 32768,
                aa >= 0,
                ba >= 0,
        ;
    }
    let n = (sa * aa) as u128;
    let r2 = (aa * aa + ba * ba) as u128;
    let m = round_share(n, r2);
    proof {
        assert(s * a < 0 <==> ((s < 0 && a > 0) || (s > 0 && a < 0))) by (nonlinear_arith);
    }
    if (s < 0 && a > 0) || (s > 0 && a < 0) { -(m as i64) } else { m as i64 }
}

/// One pursuit step of `enemy` toward `client` (see `pursued`).
pub fn move_enemy(enemy: &mut PacketCharInfo, client: &PacketCharInfo, area: &Area)
    requires
        area.wf(),
    ensures
        *final(enemy) == pursued(*old(enemy), *client, *area),
{
    let a: i64 = (client.x as i64 + client.w as i64) - (enemy.x as i64 + enemy.w as i64);
    let b: i64 = (client.y as i64 + client.h as i64) - (enemy.y as i64 + enemy.h as i64);
    let s = enemy.step as i64;
    let (mx, my): (i64, i64) = if a == 0 && b == 0 {
        (0, 0)
    } else {
        (axis_share_exec(s, a, b), axis_share_exec(s, b, a))
    };
    let nx = enemy.x as i64 + mx;
    if i16::MIN as i64 <= nx && nx <= i16::MAX as i64 && !area.obstructed(nx as i32, enemy.y as i32, enemy.w, enemy.h) {
        enemy.x = nx as i16;
    }
    let ny = enemy.y as i64 + my;
    if i16::MIN as i64 <= ny && ny <= i16::MAX as i64 && !area.obstructed(enemy.x as i32, ny as i32, enemy.w, enemy.h) {
        enemy.y = ny as i16;
    }
    let aa = if a < 0 { -a } else { a };
    let ba = if b < 0 { -b } else { b };
    enemy.d = if aa > ba {
        if a >= 0 { DIRECTION_RIGHT } else { DIRECTION_LEFT }
    } else {
        if b >= 0 { DIRECTION_DOWN } else { DIRECTION_UP }
    };
}


/// Four times the squared distance between the centres of the boxes of `u`
/// and `v`.
pub open spec fn dist4(u: PacketCharInfo, v: PacketCharInfo) -> int {
    let dx = (2 * u.x + u.w) - (2 * v.x + v.w);
    let dy = (2 * u.y + u.h) - (2 * v.y + v.h);
    dx * dx + dy * dy
}

/// Whether enemy `e` sees player `c`: same area, still in play, and centres
/// no farther apart than `e`'s vision.
pub open spec fn in_sight(e: PacketCharInfo, c: PacketCharInfo) -> bool {
    &&& c.idmap == e.idmap
    &&& !c.exit
    &&& e.vision >= 0
    &&& dist4(c, e) <= 4 * (e.vision * e.vision)
}

/// Whether `cs[t]` is the target of `e`: of the players it sees, the
/// farthest, and the last one among equally far ones.
pub open spec fn is_target(e: PacketCharInfo, cs: Seq<PacketCharInfo>, t: int) -> bool {
    &&& 0 <= t < cs.len()
    &&& in_sight(e, cs[t])
    &&& forall|j: int| 0 <= j < cs.len() && in_sight(e, #[trigger] cs[j]) ==> dist4(cs[j], e) <= dist4(cs[t], e)
    &&& forall|j: int| t < j < cs.len() && in_sight(e, #[trigger] cs[j]) ==> dist4(cs[j], e) < dist4(cs[t], e)
}

/// Four times the squared distance between the centres of two boxes.
pub fn distance4(u: &PacketCharInfo, v: &PacketCharInfo) -> (r: i64)
    ensures
        r == dist4(*u, *v),
{
    let dx = (2 * u.x as i64 + u.w as i64) - (2 * v.x as i64 + v.w as i64);
    let dy = (2 * u.y as i64 + u.h as i64) - (2 * v.y as i64 + v.h as i64);
    proof {
        assert(0 <= dx * dx <= 200000 * 200000) by (nonlinear_arith)
            requires
                -200000 <= dx <= 200000,
        ;
        assert(0 <= dy * dy <= 200000 * 200000) by (nonlinear_arith)
            requires
                -200000 <= dy <= 200000,
        ;
    }
    dx * dx + dy * dy
}

/// The player that enemy `e` goes after, if it sees any (see `is_target`).
pub fn select_target(e: &PacketCharInfo, cs: &Vec<PacketCharInfo>) -> (r: Option<usize>)
    ensures
        r is None <==> forall|j: int| 0 <= j < cs@.len() ==> !in_sight(*e, #[trigger] cs@[j]),
        r is Some ==> is_target(*e, cs@, r->Some_0 as int),
{
    let v = e.vision as i64;
    proof {
        assert(0 <= v * v <= 32768 * 32768) by (nonlinear_arith)
            requires
                -32768 <= v <= 32767,
        ;
    }
    let reach = 4 * (v * v);
    let mut best: Option<usize> = None;
    let mut best_d: i64 = 0;
    let mut i: usize = 0;
    while i < cs.len()
        invariant
            i <= cs@.len(),
            reach == 4 * (e.vision * e.vision),
            best is None ==> forall|j: int| 0 <= j < i ==> !in_sight(*e, #[trigger] cs@[j]),
            best is Some ==> {
                let t = best->Some_0 as int;
                &&& 0 <= t < i
                &&& in_sight(*e, cs@[t])
                &&& best_d == dist4(cs@[t], *e)
                &&& forall|j: int| 0 <= j < i && in_sight(*e, #[trigger] cs@[j]) ==> dist4(cs@[j], *e) <= best_d
                &&& forall|j: int| t < j < i && in_sight(*e, #[trigger] cs@[j]) ==> dist4(cs@[j], *e) < best_d
            },
        decreases cs@.len() - i,
    {
        let c = &cs[i];
        let d = distance4(c, e);
        if c.idmap == e.idmap && !c.exit && e.vision >= 0 && d <= reach {
            if best.is_none() || d >= best_d {
                best = Some(i);
                best_d = d;
            }
        }
        i = i + 1;
    }
    best
}

/// How one enemy's turn ended for the player it went after.
pub open spec fn target_after(e: PacketCharInfo, c: PacketCharInfo, coin: bool, area: Area) -> PacketCharInfo {
    if hits_target(e, c, coin) { struck(c, e.d, e.damage, area) } else { c }
}

/// Whether the enemy's attack lands this turn: the boxes touch, the chance
/// came up, and its attack point lies in the player's box.
pub open spec fn hits_target(e: PacketCharInfo, c: PacketCharInfo, coin: bool) -> bool {
    &&& intersected_spec(e, c)
    &&& coin
    &&& is_direction(e.d)
    &&& covers(c, attack_point(e).0, attack_point(e).1)
}

/// `w1`, `l1` and the outbox `o1` after enemy `i` of `w0` took its turn
/// with boss lock `l0`, outbox `o0` and chance `coin` (see
/// `Ambients::enemy_tick`).
pub open spec fn ticked(
    w0: Ambients,
    l0: i32,
    o0: Seq<Message<PacketCharInfo>>,
    i: int,
    coin: bool,
    w1: Ambients,
    l1: i32,
    o1: Seq<Message<PacketCharInfo>>,
) -> bool {
    &&& w1.enemies@.len() == w0.enemies@.len()
    &&& forall|k: int| 0 <= k < w0.enemies@.len() && k != i ==> w1.enemies@[k] == w0.enemies@[k]
    &&& w1.clients_addrs@ == w0.clients_addrs@
    &&& w1.anchored@ == w0.anchored@
    &&& w1.areas@ == w0.areas@
    &&& w1.boss_num == w0.boss_num
    &&& w1.last_id == w0.last_id
    &&& {
        let e = w0.enemies@[i];
        let cs = w0.clients@;
        let tc = count16(cs.len() as int);
        let te = count16(w0.enemies@.len() as int);
        let area = w0.areas@[e.idmap - 1];
        let e1 = PacketCharInfo { a: ACTION_WALK, ..e };
        if e.healt <= 0 {
            let e2 = PacketCharInfo { exit: true, totchar: tc, totenemies: te, ..e };
            &&& w1.enemies@[i] == e2
            &&& w1.clients@ == cs
            &&& l1 == l0
            &&& o1 == o0.push(Message::Broadcast(e2))
        } else if !has_area(w0.areas@, e.idmap) {
            &&& w1.enemies@[i] == e
            &&& w1.clients@ == cs
            &&& l1 == l0
            &&& o1 == o0
        } else if forall|j: int| 0 <= j < cs.len() ==> !in_sight(e, #[trigger] cs[j]) {
            &&& w1.enemies@[i] == (PacketCharInfo { a: ACTION_IDLE, ..e })
            &&& w1.clients@ == cs
            &&& l1 == l0
            &&& o1 == o0
        } else {
            exists|t: int| #![trigger cs[t]] {
                let c = target_after(e1, cs[t], coin, area);
                let hit_msgs = if hits_target(e1, cs[t], coin) {
                    seq![Message::Broadcast(c)]
                } else {
                    Seq::empty()
                };
                &&& is_target(e, cs, t)
                &&& w1.clients@ == cs.update(t, c)
                &&& if e.numchar == w0.boss_num && l0 > 0 {
                    &&& w1.enemies@[i] == e1
                    &&& l1 == l0 - 1
                    &&& o1 == o0 + hit_msgs
                } else if e.numchar == w0.boss_num {
                    let e2 = PacketCharInfo { totchar: tc, totenemies: te, ..boss_moved(e1, c) };
                    &&& w1.enemies@[i] == e2
                    &&& l1 == BOSS_LOCK
                    &&& o1 == o0 + hit_msgs + seq![Message::Broadcast(e2)]
                } else {
                    let e2 = PacketCharInfo { totchar: tc, totenemies: te, ..pursued(e1, c, area) };
                    &&& w1.enemies@[i] == e2
                    &&& l1 == l0
                    &&& o1 == o0 + hit_msgs + seq![Message::Broadcast(e2)]
                }
            }
        }
    }
}

impl Ambients {
    /// One turn of enemy `i`, `coin` being the outcome of its one-in-two
    /// chance to land a blow. A dead enemy is marked `exit` and broadcast.
    /// An enemy on an unknown area does nothing. One that sees no player
    /// turns idle, unannounced. Otherwise it pursues its target: it strikes
    /// it when their boxes touch and the chance came up (broadcasting the
    /// player when the blow lands), then moves (the boss by `move_boss`,
    /// with the shared `lock`; others by `move_enemy`), and is broadcast
    /// unless the boss waited.
    #[verifier::rlimit(80)]
    pub fn enemy_tick(&mut self, i: usize, lock: &mut i32, coin: bool, out: &mut Vec<Message<PacketCharInfo>>)
        requires
            old(self).wf(),
            i < old(self).enemies@.len(),
        ensures
            final(self).wf(),
            ticked(*old(self), *old(lock), old(out)@, i as int, coin, *final(self), *final(lock), final(out)@),
    {
        let tc = count_i16(self.clients.len());
        let te = count_i16(self.enemies.len());
        let mut e = self.enemies[i];
        if e.healt <= 0 {
            e.exit = true;
            e.totchar = tc;
            e.totenemies = te;
            self.enemies[i] = e;
            out.push(Message::Broadcast(e));
            return;
        }
        if !(1 <= e.idmap && (e.idmap as usize) <= self.areas.len()) {
            return;
        }
        let k = (e.idmap - 1) as usize;
        let t = match select_target(&e, &self.clients) {
            Some(t) => t,
            None => {
                e.a = ACTION_IDLE;
                self.enemies[i] = e;
                return;
            },
        };
        e.a = ACTION_WALK;
        let ghost e1 = e;
        let mut c = self.clients[t];
        let ghost c0 = c;
        if intersected(&e, &c) && coin {
            if dir_damage(&e, &mut c, &self.areas[k]) {
                out.push(Message::Broadcast(c));
            }
        }
        let ghost o1 = out@;
        let ghost lock0 = *lock;
        proof {
            let area = old(self).areas@[e1.idmap - 1];
            assert(c == target_after(e1, c0, coin, area));
            if hits_target(e1, c0, coin) {
                assert(o1 == old(out)@ + seq![Message::Broadcast(c)]);
            } else {
                assert(o1 == old(out)@ + Seq::<Message<PacketCharInfo>>::empty());
            }
        }
        self.clients[t] = c;
        let send = if e.numchar == self.boss_num {
            move_boss(&mut e, &c, lock)
        } else {
            move_enemy(&mut e, &c, &self.areas[k]);
            true
        };
        if send {
            e.totchar = tc;
            e.totenemies = te;
            out.push(Message::Broadcast(e));
        }
        self.enemies[i] = e;
        proof {
            assert(is_target(old(self).enemies@[i as int], old(self).clients@, t as int));
            assert(old(self).clients@[t as int] == c0);
            assert(self.clients@ == old(self).clients@.update(t as int, c));
            let w0 = *old(self);
            let w1 = *self;
            assert(w1.enemies@.len() == w0.enemies@.len());
            assert(forall|k: int| 0 <= k < w0.enemies@.len() && k != i ==> w1.enemies@[k] == w0.enemies@[k]);
            assert(!(forall|j: int| 0 <= j < w0.clients@.len() ==> !in_sight(w0.enemies@[i as int], #[trigger] w0.clients@[j])));
            let area = w0.areas@[e1.idmap - 1];
            let hit_msgs = if hits_target(e1, c0, coin) {
                seq![Message::Broadcast(c)]
            } else {
                Seq::<Message<PacketCharInfo>>::empty()
            };
            assert(o1 == old(out)@ + hit_msgs);
            if e1.numchar == w0.boss_num && lock0 > 0 {
                assert(out@ == old(out)@ + hit_msgs);
            } else {
                assert(out@ == old(out)@ + hit_msgs + seq![Message::Broadcast(e)]);
            }
            assert(ticked(w0, *old(lock), old(out)@, i as int, coin, w1, *lock, out@));
            assert forall|a: int| 0 <= a < self.clients@.len() implies
                (#[trigger] self.clients@[a]).idchar == old(self).clients@[a].idchar by {}
            lemma_ids_kept(old(self).clients@, self.clients@, self.last_id);
        }
    }
}


/// Relies on `rand::random`: a value drawn from the thread-local generator.
/// Nothing is promised of it; for `bool` it comes up true about half the time.
pub assume_specification<T>[ rand::random::<T> ]() -> (r: T)
    where
        rand::distributions::Standard: rand::distributions::Distribution<T>,
;

/// The enemies of `es` that are still in play, in order.
pub open spec fn in_play(es: Seq<PacketCharInfo>) -> Seq<PacketCharInfo>
    decreases es.len(),
{
    if es.len() == 0 {
        Seq::empty()
    } else if es.last().exit {
        in_play(es.drop_last())
    } else {
        in_play(es.drop_last()).push(es.last())
    }
}

/// `w1` after the enemies of `w0` marked `exit` were removed (see
/// `Ambients::prune_enemies`).
pub open spec fn pruned(w0: Ambients, w1: Ambients) -> bool {
    &&& w1.enemies@ == in_play(w0.enemies@)
    &&& w1.clients@ == w0.clients@
    &&& w1.clients_addrs@ == w0.clients_addrs@
    &&& w1.anchored@ == w0.anchored@
    &&& w1.areas@ == w0.areas@
    &&& w1.boss_num == w0.boss_num
    &&& w1.last_id == w0.last_id
}

/// Whether the worlds `ws`, boss locks `ls` and outboxes `os` are those of
/// a pass over the enemies: for each `k`, enemy `k` takes its turn with
/// chance `coins[k]` (see `ticked`), from state `k` to state `k + 1`.
pub open spec fn pass_chain(
    ws: Seq<Ambients>,
    ls: Seq<i32>,
    os: Seq<Seq<Message<PacketCharInfo>>>,
    coins: Seq<bool>,
) -> bool {
    &&& ws.len() == coins.len() + 1
    &&& ls.len() == coins.len() + 1
    &&& os.len() == coins.len() + 1
    &&& forall|k: int| #![trigger coins[k]] 0 <= k < coins.len()
        ==> ticked(ws[k], ls[k], os[k], k, coins[k], ws[k + 1], ls[k + 1], os[k + 1])
}

impl Ambients {
    /// Removes from the roster every enemy marked `exit`.
    pub fn prune_enemies(&mut self)
        requires
            old(self).wf(),
        ensures
            final(self).wf(),
            pruned(*old(self), *final(self)),
    {
        let mut kept: Vec<PacketCharInfo> = Vec::new();
        let mut i: usize = 0;
        while i < self.enemies.len()
            invariant
                *self == *old(self),
                i <= self.enemies@.len(),
                kept@ == in_play(self.enemies@.subrange(0, i as int)),
            decreases self.enemies@.len() - i,
        {
            assert(self.enemies@.subrange(0, i + 1).drop_last() =~= self.enemies@.subrange(0, i as int));
            if !self.enemies[i].exit {
                kept.push(self.enemies[i]);
            }
            i = i + 1;
        }
        assert(self.enemies@.subrange(0, i as int) =~= self.enemies@);
        self.enemies = kept;
    }

    /// The enemies' turns of an outer cycle: enemy `k` takes its turn
    /// (`enemy_tick`) with chance `coins[k]`, in roster order, each turn
    /// starting from the world, boss lock and outbox that the previous one
    /// left (see `pass_chain`).
    pub fn run_enemies_with(&mut self, lock: &mut i32, coins: &Vec<bool>, out: &mut Vec<Message<PacketCharInfo>>)
        requires
            old(self).wf(),
            coins@.len() == old(self).enemies@.len(),
        ensures
            final(self).wf(),
            exists|ws: Seq<Ambients>, ls: Seq<i32>, os: Seq<Seq<Message<PacketCharInfo>>>|
                #![trigger pass_chain(ws, ls, os, coins@)]
                {
                    &&& pass_chain(ws, ls, os, coins@)
                    &&& ws[0] == *old(self) && ls[0] == *old(lock) && os[0] == old(out)@
                    &&& ws.last() == *final(self) && ls.last() == *final(lock) && os.last() == final(out)@
                },
    {
        let ghost n = self.enemies@.len();
        let ghost mut ws = seq![*self];
        let ghost mut ls = seq![*lock];
        let ghost mut os = seq![out@];
        let mut i: usize = 0;
        while i < coins.len()
            invariant
                self.wf(),
                self.enemies@.len() == n,
                coins@.len() == n,
                i <= n,
                ws.len() == i + 1,
                ls.len() == i + 1,
                os.len() == i + 1,
                ws[0] == *old(self) && ls[0] == *old(lock) && os[0] == old(out)@,
                ws.last() == *self && ls.last() == *lock && os.last() == out@,
                forall|k: int| #![trigger coins@[k]] 0 <= k < i
                    ==> ticked(ws[k], ls[k], os[k], k, coins@[k], ws[k + 1], ls[k + 1], os[k + 1]),
            decreases n - i,
        {
            self.enemy_tick(i, lock, coins[i], out);
            proof {
                let ws0 = ws;
                let ls0 = ls;
                let os0 = os;
                ws = ws.push(*self);
                ls = ls.push(*lock);
                os = os.push(out@);
                assert forall|k: int| #![trigger coins@[k]] 0 <= k < i + 1
                    implies ticked(ws[k], ls[k], os[k], k, coins@[k], ws[k + 1], ls[k + 1], os[k + 1]) by {
                    if k < i {
                        assert(ws[k] == ws0[k] && ws[k + 1] == ws0[k + 1]);
                        assert(ls[k] == ls0[k] && ls[k + 1] == ls0[k + 1]);
                        assert(os[k] == os0[k] && os[k + 1] == os0[k + 1]);
                    } else {
                        assert(ws[k] == ws0.last() && ls[k] == ls0.last() && os[k] == os0.last());
                    }
                }
            }
            i = i + 1;
        }
        assert(pass_chain(ws, ls, os, coins@));
    }

    /// The enemies' part of an outer cycle: the roster is pruned, then each
    /// remaining enemy takes its turn with a fresh coin from `rand::random`.
    /// Whatever the coins, the result is that of `run_enemies_with` on the
    /// pruned world with one coin per enemy.
    pub fn run_enemies(&mut self, lock: &mut i32, out: &mut Vec<Message<PacketCharInfo>>)
        requires
            old(self).wf(),
        ensures
            final(self).wf(),
            exists|w: Ambients, coins: Seq<bool>, ws: Seq<Ambients>, ls: Seq<i32>, os: Seq<Seq<Message<PacketCharInfo>>>|
                #![trigger pruned(*old(self), w), pass_chain(ws, ls, os, coins)]
                {
                    &&& pruned(*old(self), w)
                    &&& coins.len() == w.enemies@.len()
                    &&& pass_chain(ws, ls, os, coins)
                    &&& ws[0] == w && ls[0] == *old(lock) && os[0] == old(out)@
                    &&& ws.last() == *final(self) && ls.last() == *final(lock) && os.last() == final(out)@
                },
    {
        self.prune_enemies();
        let ghost w = *self;
        let mut coins: Vec<bool> = Vec::new();
        while coins.len() < self.enemies.len()
            invariant
                coins@.len() <= self.enemies@.len(),
            decreases self.enemies@.len() - coins@.len(),
        {
            let coin: bool = rand::random::<bool>();
            coins.push(coin);
        }
        self.run_enemies_with(lock, &coins, out);
        assert(pruned(*old(self), w));
    }

    /// One inner tick of player movement (see `move_chars`).
    pub fn move_players(&mut self, out: &mut Vec<Message<PacketCharInfo>>)
        requires
            old(self).wf(),
        ensures
            final(self).wf(),
            final(self).clients@ == walk_all(old(self).clients@),
            final(out)@ == old(out)@ + walk_reports(old(self).clients@),
            final(self).enemies@ == old(self).enemies@,
            final(self).clients_addrs@ == old(self).clients_addrs@,
            final(self).anchored@ == old(self).anchored@,
            final(self).areas@ == old(self).areas@,
            final(self).boss_num == old(self).boss_num,
            final(self).last_id == old(self).last_id,
    {
        move_chars(&mut self.clients, out);
        proof {
            assert forall|a: int| 0 <= a < self.clients@.len() implies
                (#[trigger] self.clients@[a]).idchar == old(self).clients@[a].idchar by {}
            lemma_ids_kept(old(self).clients@, self.clients@, self.last_id);
        }
    }

    /// Applies one message from the connection manager's mailbox: a join
    /// (`connect_client`), a leave (`disconnect_client`), or a player's
    /// update (`on_message`). Send requests are no mailbox events and change
    /// nothing.
    pub fn on_event(&mut self, msg: Message<PacketCharInfo>, out: &mut Vec<Message<PacketCharInfo>>)
        requires
            old(self).wf(),
        ensures
            final(self).wf(),
            final(self).areas@ == old(self).areas@,
            match msg {
                Message::Accepted(a) => joined_world(*old(self), *final(self), old(out)@, final(out)@, a),
                Message::Disconnected(a) => left_world(*old(self), *final(self), a) && final(out)@ == old(out)@,
                Message::Direct(p, _) => updated_world(*old(self), *final(self), old(out)@, final(out)@, p),
                _ => *final(self) == *old(self) && final(out)@ == old(out)@,
            },
    {
        match msg {
            Message::Accepted(addr) => {
                self.connect_client(addr, out);
            },
            Message::Disconnected(addr) => {
                self.disconnect_client(addr);
            },
            Message::Direct(packet, addr) => {
                self.on_message(packet, addr, out);
            },
            _ => {},
        }
    }
}

} // verus!
