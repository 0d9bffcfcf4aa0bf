//! Areas and their collision masks, bounding boxes, and melee hits.

use vstd::prelude::*;
use crate::packet::PacketCharInfo;
use crate::{DIRECTION_DOWN, DIRECTION_LEFT, DIRECTION_RIGHT, DIRECTION_UP};

verus! {

/// Which pixels of an area's image are walls, row by row.
pub struct CollisionMask {
    pub width: u32,
    pub height: u32,
    pub walls: Vec<bool>,
}

/// One simulated map: its logical size and its collision mask.
pub struct Area {
    pub width: i16,
    pub height: i16,
    pub mask: CollisionMask,
}

impl CollisionMask {
    pub open spec fn wf(&self) -> bool {
        self.walls@.len() == self.width as int * self.height as int
    }

    /// Whether pixel (`px`, `py`) lies inside the mask and is no wall.
    pub open spec fn free_spec(&self, px: int, py: int) -> bool {
        0 <= px < self.width && 0 <= py < self.height
            && !self.walls@[py * self.width as int + px]
    }

    pub fn is_free(&self, px: u64, py: u64) -> (r: bool)
        requires
            self.wf(),
        ensures
            r == self.free_spec(px as int, py as int),
    {
        if px >= self.width as u64 || py >= self.height as u64 {
            return false;
        }
        let n = self.walls.len();
        proof {
            assert(py * self.width as int + px < self.width as int * self.height as int) by (nonlinear_arith)
                requires
                    px < self.width as int,
                    py < self.height as int,
            ;
            assert(py * self.width as int >= 0) by (nonlinear_arith)
                requires
                    py >= 0,
                    self.width >= 0,
            ;
        }
        let i = (py as usize) * (self.width as usize) + (px as usize);
        !self.walls[i]
    }
}

proof fn lemma_div_bounds(n: int, d: int)
    requires
        n >= 0,
        d >= 1,
    ensures
        0 <= n / d <= n,
{
    assert(0 <= n / d <= n) by (nonlinear_arith)
        requires
            n >= 0,
            d >= 1,
    ;
}

impl Area {
    pub open spec fn wf(&self) -> bool {
        self.mask.wf()
    }

    /// Whether a box at (`x`, `y`) of size `w` by `h` is obstructed: it
    /// leaves the area at the left, top or bottom, or a corner of its bottom
    /// edge, scaled to the mask, falls outside the mask or on a wall.
    pub open spec fn obstructed_spec(&self, x: int, y: int, w: int, h: int) -> bool {
        let lw = self.width as int;
        let lh = self.height as int;
        let mw = self.mask.width as int;
        let mh = self.mask.height as int;
        if x < 0 || y < 0 || y + h > lh || lw <= 0 || lh <= 0 || x + w < 0 || y + h < 0 {
            true
        } else {
            let xd = x * mw / lw;
            let xu = (x + w) * mw / lw;
            let yd = (y + h) * mh / lh;
            let yu = y * mh / lh;
            xu > mw || yu > mh || !self.mask.free_spec(xd, yd) || !self.mask.free_spec(xu, yd)
        }
    }

    /// Whether a box at (`x`, `y`) of size `w` by `h` is obstructed.
    pub fn obstructed(&self, x: i32, y: i32, w: i16, h: i16) -> (r: bool)
        requires
            self.wf(),
        ensures
            r == self.obstructed_spec(x as int, y as int, w as int, h as int),
    {
        let lw = self.width as i128;
        let lh = self.height as i128;
        let mw = self.mask.width as i128;
        let mh = self.mask.height as i128;
        let (x, y, w, h) = (x as i128, y as i128, w as i128, h as i128);
        if x < 0 || y < 0 || y + h > lh || lw <= 0 || lh <= 0 || x + w < 0 || y + h < 0 {
            return true;
        }
        proof {
            assert(0 <= x * mw <= 0x8001_0000 * 0x1_0000_0000) by (nonlinear_arith)
                requires 0 <= x <= 0x8001_0000, 0 <= mw <= 0x1_0000_0000;
            assert(0 <= (x + w) * mw <= 0x8001_0000 * 0x1_0000_0000) by (nonlinear_arith)
                requires 0 <= x + w <= 0x8001_0000, 0 <= mw <= 0x1_0000_0000;
            assert(0 <= (y + h) * mh <= 0x8001_0000 * 0x1_0000_0000) by (nonlinear_arith)
                requires 0 <= y + h <= 0x8001_0000, 0 <= mh <= 0x1_0000_0000;
            assert(0 <= y * mh <= 0x8001_0000 * 0x1_0000_0000) by (nonlinear_arith)
                requires 0 <= y <= 0x8001_0000, 0 <= mh <= 0x1_0000_0000;
        }
        let xd = x * mw / lw;
        let xu = (x + w) * mw / lw;
        let yd = (y + h) * mh / lh;
        let yu = y * mh / lh;
        if xu > mw || yu > mh {
            return true;
        }
        proof {
            lemma_div_bounds(x * mw, lw as int);
            lemma_div_bounds((x + w) * mw, lw as int);
            lemma_div_bounds((y + h) * mh, lh as int);
        }
        !self.mask.is_free(xd as u64, yd as u64) || !self.mask.is_free(xu as u64, yd as u64)
    }
}

/// Whether two bounding boxes overlap or touch.
pub open spec fn intersected_spec(p1: PacketCharInfo, p2: PacketCharInfo) -> bool {
    p1.x <= p2.x + p2.w && p2.x <= p1.x + p1.w && p1.y <= p2.y + p2.h && p2.y <= p1.y + p1.h
}

pub fn intersected(p1: &PacketCharInfo, p2: &PacketCharInfo) -> (r: bool)
    ensures
        r == intersected_spec(*p1, *p2),
{
    let p1_x2 = p1.x as i32 + p1.w as i32;
    let p1_y2 = p1.y as i32 + p1.h as i32;
    let p2_x2 = p2.x as i32 + p2.w as i32;
    let p2_y2 = p2.y as i32 + p2.h as i32;
    p1.x as i32 <= p2_x2 && p2.x as i32 <= p1_x2 && p1.y as i32 <= p2_y2 && p2.y as i32 <= p1_y2
}

/// Whether `d` is one of the four single directions (left, right, up,
/// down); a combination of them is none.
pub open spec fn is_direction(d: i16) -> bool {
    d == DIRECTION_LEFT || d == DIRECTION_RIGHT || d == DIRECTION_UP || d == DIRECTION_DOWN
}

/// The displacement of `n` units along direction `d`.
pub open spec fn offset(d: i16, n: int) -> (int, int) {
    if d == DIRECTION_UP {
        (0, -n)
    } else if d == DIRECTION_DOWN {
        (0, n)
    } else if d == DIRECTION_LEFT {
        (-n, 0)
    } else if d == DIRECTION_RIGHT {
        (n, 0)
    } else {
        (0, 0)
    }
}

pub open spec fn fits_i16(v: int) -> bool {
    i16::MIN <= v <= i16::MAX
}

/// How far a hit pushes its target back.
pub const DISPLACEMENT: i16 = 3;

/// Health after taking `damage`: never below zero.
pub open spec fn damaged_health(h: i16, damage: i16) -> i16 {
    let v = h - damage;
    if v < 0 {
        0
    } else if v > i16::MAX {
        i16::MAX
    } else {
        v as i16
    }
}

/// The target of a hit that lands: health reduced (floor 0), `exit` set
/// once health is 0, `dhit` recorded, and a push of `DISPLACEMENT` along the
/// hit direction unless that lands on an obstruction.
pub open spec fn struck(p: PacketCharInfo, td: i16, damage: i16, area: Area) -> PacketCharInfo {
    let h = damaged_health(p.healt, damage);
    let (dx, dy) = offset(td, DISPLACEMENT as int);
    let nx = p.x + dx;
    let ny = p.y + dy;
    let moved = fits_i16(nx) && fits_i16(ny) && !area.obstructed_spec(nx, ny, p.w as int, p.h as int);
    PacketCharInfo {
        healt: h,
        exit: p.exit || h == 0,
        dhit: td,
        x: if moved { nx as i16 } else { p.x },
        y: if moved { ny as i16 } else { p.y },
        ..p
    }
}

/// Whether the point (`tx`, `ty`) lies in the bounding box of `p`.
pub open spec fn covers(p: PacketCharInfo, tx: int, ty: int) -> bool {
    p.x <= tx <= p.x + p.w && p.y <= ty <= p.y + p.h
}

/// Applies a hit at point (`tx`, `ty`) in direction `td` to `packet`; true
/// when the point lies in its bounding box, which is then `struck`.
pub fn hit(packet: &mut PacketCharInfo, tx: i32, ty: i32, td: i16, damage: i16, area: &Area) -> (r: bool)
    requires
        area.wf(),
    ensures
        r == covers(*old(packet), tx as int, ty as int),
        r ==> *final(packet) == struck(*old(packet), td, damage, *area),
        !r ==> *final(packet) == *old(packet),
{
    let x1 = packet.x as i32;
    let y1 = packet.y as i32;
    let x2 = packet.x as i32 + packet.w as i32;
    let y2 = packet.y as i32 + packet.h as i32;
    if !(x1 <= tx && tx <= x2 && y1 <= ty && ty <= y2) {
        return false;
    }
    let v = packet.healt as i32 - damage as i32;
    packet.healt = if v < 0 {
        0
    } else if v > i16::MAX as i32 {
        i16::MAX
    } else {
        v as i16
    };
    packet.exit = packet.exit || packet.healt == 0;
    packet.dhit = td;
    let (dx, dy): (i32, i32) = if td == DIRECTION_UP {
        (0, -(DISPLACEMENT as i32))
    } else if td == DIRECTION_DOWN {
        (0, DISPLACEMENT as i32)
    } else if td == DIRECTION_LEFT {
        (-(DISPLACEMENT as i32), 0)
    } else if td == DIRECTION_RIGHT {
        (DISPLACEMENT as i32, 0)
    } else {
        (0, 0)
    };
    let nx = packet.x as i32 + dx;
    let ny = packet.y as i32 + dy;
    if i16::MIN as i32 <= nx && nx <= i16::MAX as i32 && i16::MIN as i32 <= ny && ny <= i16::MAX as i32
        && !area.obstructed(nx, ny, packet.w, packet.h) {
        packet.x = nx as i16;
        packet.y = ny as i16;
    }
    true
}


/// `v / 2`, rounded toward zero.
pub open spec fn half(v: int) -> int {
    if v >= 0 { v / 2 } else { -((-v) / 2) }
}

/// The point that an attack by `p` reaches: the middle of the edge of its
/// bounding box that it faces.
pub open spec fn attack_point(p: PacketCharInfo) -> (int, int) {
    let x2 = p.x + p.w;
    let y2 = p.y + p.h;
    let xm = half(p.x + x2);
    let ym = half(p.y + y2);
    if p.d == DIRECTION_UP {
        (xm, p.y as int)
    } else if p.d == DIRECTION_DOWN {
        (xm, y2)
    } else if p.d == DIRECTION_LEFT {
        (p.x as int, ym)
    } else {
        (x2, ym)
    }
}

fn half_i32(v: i32) -> (r: i32)
    requires
        -200000 <= v <= 200000,
    ensures
        r == half(v as int),
{
    if v >= 0 { v / 2 } else { -((-v) / 2) }
}

/// An attack by `this_char` in the direction it faces, with its damage,
/// against `other_char`; true when it lands. Facing no single direction,
/// it attacks nothing.
pub fn dir_damage(this_char: &PacketCharInfo, other_char: &mut PacketCharInfo, area: &Area) -> (r: bool)
    requires
        area.wf(),
    ensures
        !is_direction(this_char.d) ==> !r && *final(other_char) == *old(other_char),
        is_direction(this_char.d) ==> r == covers(*old(other_char), attack_point(*this_char).0,
            attack_point(*this_char).1),
        r ==> *final(other_char) == struck(*old(other_char), this_char.d, this_char.damage, *area),
        !r ==> *final(other_char) == *old(other_char),
{
    let x1 = this_char.x as i32;
    let y1 = this_char.y as i32;
    let x2 = this_char.x as i32 + this_char.w as i32;
    let y2 = this_char.y as i32 + this_char.h as i32;
    let xm = half_i32(x1 + x2);
    let ym = half_i32(y1 + y2);
    let d = this_char.d;
    if d == DIRECTION_UP {
        hit(other_char, xm, y1, d, this_char.damage, area)
    } else if d == DIRECTION_DOWN {
        hit(other_char, xm, y2, d, this_char.damage, area)
    } else if d == DIRECTION_LEFT {
        hit(other_char, x1, ym, d, this_char.damage, area)
    } else if d == DIRECTION_RIGHT {
        hit(other_char, x2, ym, d, this_char.damage, area)
    } else {
        false
    }
}

/// A target after a sequence of attacks, each given by its point, its
/// direction and its damage; attacks whose point misses change nothing.
pub open spec fn after_hits(p: PacketCharInfo, hits: Seq<(int, int, i16, i16)>, area: Area) -> PacketCharInfo
    decreases hits.len(),
{
    if hits.len() == 0 {
        p
    } else {
        let q = after_hits(p, hits.drop_last(), area);
        let (tx, ty, td, damage) = hits.last();
        if covers(q, tx, ty) { struck(q, td, damage, area) } else { q }
    }
}

/// Health is never negative, and health 0 goes with `exit`.
pub open spec fn health_sound(p: PacketCharInfo) -> bool {
    p.healt >= 0 && (p.healt == 0 ==> p.exit)
}

/// Over any sequence of attacks, health stays at or above zero, `exit` is
/// set whenever health is zero, and once set `exit` stays set.
pub proof fn lemma_health_floor(p: PacketCharInfo, hits: Seq<(int, int, i16, i16)>, area: Area)
    requires
        health_sound(p),
    ensures
        health_sound(after_hits(p, hits, area)),
        p.exit ==> after_hits(p, hits, area).exit,
    decreases hits.len(),
{
    if hits.len() > 0 {
        lemma_health_floor(p, hits.drop_last(), area);
    }
}

} // verus!
