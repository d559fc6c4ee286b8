use vstd::prelude::*;

use rand::Rng;

use crate::vector::{abs, in_limit, sgn, Vec2, COORD_LIMIT};

verus! {

/// An axis-aligned bounding box given by its two extreme corners.
#[derive(Clone, Copy, Debug, PartialEq, Eq, Structural)]
pub struct Aabb {
    pub min: Vec2,
    pub max: Vec2,
}

/// A non-negative time `num / den`, relative to a swept displacement.
#[derive(Clone, Copy, Debug, PartialEq, Eq, Structural)]
pub struct Fraction {
    pub num: i64,
    pub den: i64,
}

/// Where and when a moving point first touches a box.
///
/// `normal` is the direction of the contact normal: `(±1, 0)` or `(0, ±1)`
/// for a face, `(±1, ±1)` (whose unit vector is the normalised diagonal) for an
/// exact corner, and the reversed direction of travel for a segment that
/// starts inside the box.
#[derive(Clone, Copy, Debug, PartialEq, Eq, Structural)]
pub struct HitInfo {
    pub t: Fraction,
    pub pos: Vec2,
    pub normal: Vec2,
}

impl Aabb {
    /// The invariant of a box: `min <= max` on both axes.
    pub open spec fn wf(self) -> bool {
        self.min.x <= self.max.x && self.min.y <= self.max.y
    }

    pub open spec fn in_range(self) -> bool {
        self.min.in_range() && self.max.in_range()
    }

    pub open spec fn in_half_range(self) -> bool {
        self.min.in_half_range() && self.max.in_half_range()
    }

    pub open spec fn spec_contains(self, p: Vec2) -> bool {
        self.min.x <= p.x <= self.max.x && self.min.y <= p.y <= self.max.y
    }

    /// The center, rounded down to the grid.
    pub open spec fn spec_center(self) -> Vec2 {
        Vec2 {
            x: ((self.min.x + self.max.x) / 2) as i64,
            y: ((self.min.y + self.max.y) / 2) as i64,
        }
    }

    /// Half the size, rounded down to the grid.
    pub open spec fn spec_half_extents(self) -> Vec2 {
        Vec2 { x: ((self.max.x - self.min.x) / 2) as i64, y: ((self.max.y - self.min.y) / 2) as i64 }
    }
}

/// The smaller of two integers.
pub open spec fn min_int(a: int, b: int) -> int {
    if a <= b {
        a
    } else {
        b
    }
}

/// The larger of two integers.
pub open spec fn max_int(a: int, b: int) -> int {
    if a >= b {
        a
    } else {
        b
    }
}

/// The box spanned by the corners `pos` and `pos + dims`.
pub open spec fn quad_box(pos: Vec2, dims: Vec2) -> Aabb {
    Aabb {
        min: Vec2 { x: min_int(pos.x as int, pos.x + dims.x) as i64, y: min_int(pos.y as int, pos.y + dims.y) as i64 },
        max: Vec2 { x: max_int(pos.x as int, pos.x + dims.x) as i64, y: max_int(pos.y as int, pos.y + dims.y) as i64 },
    }
}

/// Two boxes overlap on one axis when the distance between their centers is
/// at most the sum of their half sizes (written here with everything doubled,
/// so that it is exact on the grid). Touching counts as overlapping.
pub open spec fn axis_overlap(amin: int, amax: int, bmin: int, bmax: int) -> bool {
    abs((amin + amax) - (bmin + bmax)) <= (amax - amin) + (bmax - bmin)
}

pub open spec fn boxes_overlap(a: Aabb, b: Aabb) -> bool {
    axis_overlap(a.min.x as int, a.max.x as int, b.min.x as int, b.max.x as int)
        && axis_overlap(a.min.y as int, a.max.y as int, b.min.y as int, b.max.y as int)
}

/// Distance, in units of `1/|d|` of time, from `o` to the face of the slab
/// `[lo, hi]` that a point moving along `d` (nonzero) reaches first.
pub open spec fn slab_entry(lo: int, hi: int, o: int, d: int) -> int {
    if d > 0 {
        lo - o
    } else {
        o - hi
    }
}

/// Distance, in units of `1/|d|` of time, from `o` to the face of the slab
/// `[lo, hi]` that a point moving along `d` (nonzero) leaves by.
pub open spec fn slab_exit(lo: int, hi: int, o: int, d: int) -> int {
    if d > 0 {
        hi - o
    } else {
        o - lo
    }
}

/// The displacement `t * d` for `t = num / den`, rounded toward zero.
pub open spec fn scaled(num: int, d: int, den: int) -> int {
    if d >= 0 {
        (num * d) / den
    } else {
        -((num * -d) / den)
    }
}

/// The hit at time `num / den` along `o + t * d`, with the given normal.
pub open spec fn hit_at(o: Vec2, d: Vec2, num: int, den: int, normal: Vec2) -> HitInfo {
    HitInfo {
        t: Fraction { num: num as i64, den: den as i64 },
        pos: Vec2 {
            x: (o.x + scaled(num, d.x as int, den)) as i64,
            y: (o.y + scaled(num, d.y as int, den)) as i64,
        },
        normal,
    }
}

/// The first contact of the segment `o + t * d`, `0 <= t < 1`, with the box
/// `b` grown by `pad` on every side (the slab test).
///
/// A segment that starts in the box touches it at time 0, at its origin, with
/// normal `-d`. An axis along which the segment does not move blocks it
/// entirely when the origin lies outside that slab, and otherwise bounds
/// nothing. Otherwise the segment enters the box at the later of the moving
/// axes' entry times and leaves it at the earlier of their exit times; there
/// is a hit when it enters no later than it leaves, enters before time 1, and
/// leaves after time 0. The normal faces back along the axis entered last;
/// when both axes are entered at the same time it is the diagonal between them.
pub open spec fn line_hit(b: Aabb, o: Vec2, d: Vec2, pad: Vec2) -> Option<HitInfo> {
    let lo_x = b.min.x - pad.x;
    let hi_x = b.max.x + pad.x;
    let lo_y = b.min.y - pad.y;
    let hi_y = b.max.y + pad.y;
    let in_x = lo_x <= o.x <= hi_x;
    let in_y = lo_y <= o.y <= hi_y;
    let dx = abs(d.x as int);
    let dy = abs(d.y as int);
    // Entry and exit times of each axis: numerators over dx and dy.
    let en_x = slab_entry(lo_x, hi_x, o.x as int, d.x as int);
    let en_y = slab_entry(lo_y, hi_y, o.y as int, d.y as int);
    let ex_x = slab_exit(lo_x, hi_x, o.x as int, d.x as int);
    let ex_y = slab_exit(lo_y, hi_y, o.y as int, d.y as int);
    // en_x / dx against en_y / dy, when both axes move.
    let cmp_en = en_x * dy - en_y * dx;
    let x_enters_last = d.y == 0 || (d.x != 0 && cmp_en >= 0);
    let x_leaves_first = d.y == 0 || (d.x != 0 && ex_x * dy <= ex_y * dx);
    let (en, en_den) = if x_enters_last {
        (en_x, dx)
    } else {
        (en_y, dy)
    };
    let (ex, ex_den) = if x_leaves_first {
        (ex_x, dx)
    } else {
        (ex_y, dy)
    };
    let normal = if d.y == 0 || (d.x != 0 && cmp_en > 0) {
        Vec2 { x: (-sgn(d.x as int)) as i64, y: 0 }
    } else if d.x == 0 || cmp_en < 0 {
        Vec2 { x: 0, y: (-sgn(d.y as int)) as i64 }
    } else {
        Vec2 { x: (-sgn(d.x as int)) as i64, y: (-sgn(d.y as int)) as i64 }
    };
    if in_x && in_y {
        Some(HitInfo { t: Fraction { num: 0, den: 1 }, pos: o, normal: Vec2 { x: (-d.x) as i64, y: (-d.y) as i64 } })
    } else if (d.x == 0 && !in_x) || (d.y == 0 && !in_y) {
        None
    } else if en * ex_den <= ex * en_den && en < en_den && ex > 0 {
        Some(hit_at(o, d, en, en_den, normal))
    } else {
        None
    }
}

/// The padding that `intersects_with_line` applies for an optional argument.
pub open spec fn padding_of(padding: Option<Vec2>) -> Vec2 {
    match padding {
        Some(p) => p,
        None => Vec2 { x: 0, y: 0 },
    }
}

/// `v` halved, rounded toward zero.
pub open spec fn halved(v: int) -> int {
    if v >= 0 {
        v / 2
    } else {
        -((-v) / 2)
    }
}

/// The box with both corners doubled.
pub open spec fn doubled(b: Aabb) -> Aabb {
    Aabb {
        min: Vec2 { x: (2 * b.min.x) as i64, y: (2 * b.min.y) as i64 },
        max: Vec2 { x: (2 * b.max.x) as i64, y: (2 * b.max.y) as i64 },
    }
}

/// The swept-box test as an exact Minkowski sum, worked in doubled
/// coordinates so that no half step is lost: the doubled center of the
/// moving box (`min + max`), moving by twice the sweep, is tested against the
/// doubled still box grown by the moving box's full size (`max - min`). Times
/// are those of the boxes; the position is the moving box's center at the
/// contact, halved back toward zero. A sweep of length zero never hits.
pub open spec fn sweep_hit(still: Aabb, moving: Aabb, sweep: Vec2) -> Option<HitInfo> {
    if sweep.x == 0 && sweep.y == 0 {
        None
    } else {
        let o = Vec2 { x: (moving.min.x + moving.max.x) as i64, y: (moving.min.y + moving.max.y) as i64 };
        let d = Vec2 { x: (2 * sweep.x) as i64, y: (2 * sweep.y) as i64 };
        let g = Vec2 { x: (moving.max.x - moving.min.x) as i64, y: (moving.max.y - moving.min.y) as i64 };
        match line_hit(doubled(still), o, d, g) {
            Some(h) => Some(
                HitInfo {
                    t: h.t,
                    pos: Vec2 { x: halved(h.pos.x as int) as i64, y: halved(h.pos.y as int) as i64 },
                    normal: h.normal,
                },
            ),
            None => None,
        }
    }
}

/// The sign of `x`: -1 below zero, 1 above, 0 at zero.
pub fn sign(x: i64) -> (r: i64)
    ensures
        r == sgn(x as int),
{
    if x < 0 {
        return -1;
    }
    if x > 0 {
        return 1;
    }
    0
}

/// Bounds on two factors bound their product.
proof fn lemma_mul_bounded(a: int, b: int, ba: int, bb: int)
    requires
        0 <= ba,
        0 <= bb,
        -ba <= a <= ba,
        -bb <= b <= bb,
    ensures
        -(ba * bb) <= a * b <= ba * bb,
{
    assert(-(ba * bb) <= a * b <= ba * bb) by (nonlinear_arith)
        requires
            0 <= ba,
            0 <= bb,
            -ba <= a <= ba,
            -bb <= b <= bb,
    ;
}

/// `t * d`, rounded toward zero, for `t = num / den` in `[0, 1]`.
fn scale_by(num: i64, d: i64, den: i64) -> (r: i64)
    requires
        0 <= num <= den,
        0 < den <= 4 * COORD_LIMIT,
        in_limit(d as int),
    ensures
        r == scaled(num as int, d as int, den as int),
        abs(r as int) <= abs(d as int),
{
    proof {
        lemma_mul_bounded(num as int, d as int, 4 * COORD_LIMIT, COORD_LIMIT as int);
        lemma_mul_bounded(num as int, -d, 4 * COORD_LIMIT, COORD_LIMIT as int);
    }
    if d >= 0 {
        let p = (num as i128) * (d as i128);
        proof {
            assert((p as int) / (den as int) <= d) by (nonlinear_arith)
                requires
                    p == num * d,
                    0 <= num <= den,
                    0 < den,
                    d >= 0,
            ;
            assert((p as int) / (den as int) >= 0) by (nonlinear_arith)
                requires
                    p >= 0,
                    0 < den,
            ;
        }
        (p / (den as i128)) as i64
    } else {
        let p = (num as i128) * (-(d as i128));
        proof {
            assert((p as int) / (den as int) <= -d) by (nonlinear_arith)
                requires
                    p == num * -d,
                    0 <= num <= den,
                    0 < den,
                    d < 0,
            ;
            assert((p as int) / (den as int) >= 0) by (nonlinear_arith)
                requires
                    p >= 0,
                    0 < den,
            ;
        }
        -((p / (den as i128)) as i64)
    }
}


/// A segment that starts outside the box and leaves it after time 0 enters
/// it no earlier than time 0.
proof fn lemma_entry_nonneg(en_x: int, ex_x: int, dx: int, en_y: int, ex_y: int, dy: int, enter_x: bool, leave_x: bool, en: int, ex: int)
    requires
        dx > 0,
        dy > 0,
        !(en_x <= 0 <= ex_x && en_y <= 0 <= ex_y),
        enter_x ==> en == en_x && en_x * dy >= en_y * dx,
        !enter_x ==> en == en_y && en_y * dx >= en_x * dy,
        leave_x ==> ex == ex_x && ex_x * dy <= ex_y * dx,
        !leave_x ==> ex == ex_y && ex_y * dx <= ex_x * dy,
        ex > 0,
    ensures
        en >= 0,
{
    if leave_x {
        assert(ex_y >= 0) by (nonlinear_arith)
            requires ex_x * dy <= ex_y * dx, ex_x > 0, dx > 0, dy > 0;
    } else {
        assert(ex_x >= 0) by (nonlinear_arith)
            requires ex_y * dx <= ex_x * dy, ex_y > 0, dx > 0, dy > 0;
    }
    if enter_x {
        assert(en_x < 0 ==> en_y < 0) by (nonlinear_arith)
            requires en_x * dy >= en_y * dx, dx > 0, dy > 0;
    } else {
        assert(en_y < 0 ==> en_x < 0) by (nonlinear_arith)
            requires en_y * dx >= en_x * dy, dx > 0, dy > 0;
    }
}

fn abs_of(v: i64) -> (r: i64)
    requires
        in_limit(v as int),
    ensures
        r == abs(v as int),
{
    if v < 0 {
        -v
    } else {
        v
    }
}

fn entry_of(lo: i64, hi: i64, o: i64, d: i64) -> (r: i64)
    requires
        -2 * COORD_LIMIT <= lo <= 2 * COORD_LIMIT,
        -2 * COORD_LIMIT <= hi <= 2 * COORD_LIMIT,
        in_limit(o as int),
    ensures
        r == slab_entry(lo as int, hi as int, o as int, d as int),
{
    if d > 0 {
        lo - o
    } else {
        o - hi
    }
}

fn exit_of(lo: i64, hi: i64, o: i64, d: i64) -> (r: i64)
    requires
        -2 * COORD_LIMIT <= lo <= 2 * COORD_LIMIT,
        -2 * COORD_LIMIT <= hi <= 2 * COORD_LIMIT,
        in_limit(o as int),
    ensures
        r == slab_exit(lo as int, hi as int, o as int, d as int),
{
    if d > 0 {
        hi - o
    } else {
        o - lo
    }
}

/// `v` halved, rounded toward zero.
fn halve(v: i64) -> (r: i64)
    ensures
        r == halved(v as int),
{
    if v >= 0 {
        v / 2
    } else {
        -((-(v as i128)) / 2) as i64
    }
}

impl Aabb {
    /// The box spanned by the corner `pos` and the corner `pos + dims`; `dims`
    /// may have negative components.
    pub fn new_from_quad(pos: Vec2, dims: Vec2) -> (r: Aabb)
        requires
            i64::MIN <= pos.x + dims.x <= i64::MAX,
            i64::MIN <= pos.y + dims.y <= i64::MAX,
        ensures
            r == quad_box(pos, dims),
            r.wf(),
    {
        let far = Vec2 { x: pos.x + dims.x, y: pos.y + dims.y };
        let min = Vec2 {
            x: if pos.x <= far.x { pos.x } else { far.x },
            y: if pos.y <= far.y { pos.y } else { far.y },
        };
        let max = Vec2 {
            x: if pos.x >= far.x { pos.x } else { far.x },
            y: if pos.y >= far.y { pos.y } else { far.y },
        };
        Aabb { min, max }
    }

    /// The midpoint of the box, rounded down to the grid.
    pub fn center(&self) -> (r: Vec2)
        requires
            self.wf(),
        ensures
            r == self.spec_center(),
            self.spec_contains(r),
    {
        let x = (self.min.x as i128) + ((self.max.x as i128) - (self.min.x as i128)) / 2;
        let y = (self.min.y as i128) + ((self.max.y as i128) - (self.min.y as i128)) / 2;
        Vec2 { x: x as i64, y: y as i64 }
    }

    /// Half the size of the box, rounded down to the grid.
    pub fn half_extents(&self) -> (r: Vec2)
        requires
            self.wf(),
        ensures
            r == self.spec_half_extents(),
            r.x >= 0,
            r.y >= 0,
    {
        let x = ((self.max.x as i128) - (self.min.x as i128)) / 2;
        let y = ((self.max.y as i128) - (self.min.y as i128)) / 2;
        Vec2 { x: x as i64, y: y as i64 }
    }

    /// Whether `point` lies in the box, boundary included.
    pub fn contains_point(&self, point: Vec2) -> (r: bool)
        ensures
            r == self.spec_contains(point),
    {
        self.min.x <= point.x && point.x <= self.max.x && self.min.y <= point.y && point.y <= self.max.y
    }

    /// Whether the two boxes overlap on both axes; touching counts.
    pub fn intersects_with_aabb(&self, aabb: &Aabb) -> (r: bool)
        ensures
            r == boxes_overlap(*self, *aabb),
    {
        let dcx = ((self.min.x as i128) + (self.max.x as i128)) - ((aabb.min.x as i128) + (aabb.max.x as i128));
        let dcy = ((self.min.y as i128) + (self.max.y as i128)) - ((aabb.min.y as i128) + (aabb.max.y as i128));
        let ex = ((self.max.x as i128) - (self.min.x as i128)) + ((aabb.max.x as i128) - (aabb.min.x as i128));
        let ey = ((self.max.y as i128) - (self.min.y as i128)) + ((aabb.max.y as i128) - (aabb.min.y as i128));
        let adx = if dcx < 0 { -dcx } else { dcx };
        let ady = if dcy < 0 { -dcy } else { dcy };
        adx <= ex && ady <= ey
    }

    /// Swept test of `aabb`, moving by `sweep`, against this (still) box: the
    /// exact Minkowski-sum test of `sweep_hit`.
    pub fn intersects_with_aabb_sweep(&self, aabb: &Aabb, sweep: Vec2) -> (r: Option<HitInfo>)
        requires
            self.in_half_range(),
            aabb.in_half_range(),
            aabb.wf(),
            sweep.in_half_range(),
        ensures
            r == sweep_hit(*self, *aabb, sweep),
    {
        if sweep.x == 0 && sweep.y == 0 {
            return None;
        }
        let still = Aabb {
            min: Vec2 { x: 2 * self.min.x, y: 2 * self.min.y },
            max: Vec2 { x: 2 * self.max.x, y: 2 * self.max.y },
        };
        let o = Vec2 { x: aabb.min.x + aabb.max.x, y: aabb.min.y + aabb.max.y };
        let d = Vec2 { x: 2 * sweep.x, y: 2 * sweep.y };
        let g = Vec2 { x: aabb.max.x - aabb.min.x, y: aabb.max.y - aabb.min.y };
        match still.intersects_with_line(o, d, Some(g)) {
            Some(h) => Some(HitInfo { t: h.t, pos: Vec2 { x: halve(h.pos.x), y: halve(h.pos.y) }, normal: h.normal }),
            None => None,
        }
    }

    /// Slab test of the segment `origin + t * dir`, `0 <= t < 1`, against this
    /// box grown by `padding` (none: zero) on every side.
    #[verifier::rlimit(40)]
    pub fn intersects_with_line(&self, origin: Vec2, dir: Vec2, padding: Option<Vec2>) -> (r: Option<HitInfo>)
        requires
            self.in_range(),
            origin.in_range(),
            dir.in_range(),
            padding_of(padding).in_range(),
        ensures
            r == line_hit(*self, origin, dir, padding_of(padding)),
            r matches Some(h) ==> 0 <= h.t.num < h.t.den,
    {
        let pad = match padding {
            Some(p) => p,
            None => Vec2::zero(),
        };
        let lo_x = self.min.x - pad.x;
        let hi_x = self.max.x + pad.x;
        let lo_y = self.min.y - pad.y;
        let hi_y = self.max.y + pad.y;
        let in_x = lo_x <= origin.x && origin.x <= hi_x;
        let in_y = lo_y <= origin.y && origin.y <= hi_y;
        if in_x && in_y {
            return Some(HitInfo { t: Fraction { num: 0, den: 1 }, pos: origin, normal: dir.neg() });
        }
        if (dir.x == 0 && !in_x) || (dir.y == 0 && !in_y) {
            return None;
        }
        let dx = abs_of(dir.x);
        let dy = abs_of(dir.y);
        let en_x = entry_of(lo_x, hi_x, origin.x, dir.x);
        let en_y = entry_of(lo_y, hi_y, origin.y, dir.y);
        let ex_x = exit_of(lo_x, hi_x, origin.x, dir.x);
        let ex_y = exit_of(lo_y, hi_y, origin.y, dir.y);
        proof {
            lemma_mul_bounded(en_x as int, dy as int, 4 * COORD_LIMIT, COORD_LIMIT as int);
            lemma_mul_bounded(en_y as int, dx as int, 4 * COORD_LIMIT, COORD_LIMIT as int);
            lemma_mul_bounded(ex_x as int, dy as int, 4 * COORD_LIMIT, COORD_LIMIT as int);
            lemma_mul_bounded(ex_y as int, dx as int, 4 * COORD_LIMIT, COORD_LIMIT as int);
        }
        let cmp_en = (en_x as i128) * (dy as i128) - (en_y as i128) * (dx as i128);
        let x_enters_last = dir.y == 0 || (dir.x != 0 && cmp_en >= 0);
        let x_leaves_first = dir.y == 0 || (dir.x != 0 && (ex_x as i128) * (dy as i128) <= (ex_y as i128) * (
        dx as i128));
        let (en, en_den) = if x_enters_last {
            (en_x, dx)
        } else {
            (en_y, dy)
        };
        let (ex, ex_den) = if x_leaves_first {
            (ex_x, dx)
        } else {
            (ex_y, dy)
        };
        let normal = if dir.y == 0 || (dir.x != 0 && cmp_en > 0) {
            Vec2 { x: -sign(dir.x), y: 0 }
        } else if dir.x == 0 || cmp_en < 0 {
            Vec2 { x: 0, y: -sign(dir.y) }
        } else {
            Vec2 { x: -sign(dir.x), y: -sign(dir.y) }
        };
        proof {
            lemma_mul_bounded(en as int, ex_den as int, 4 * COORD_LIMIT, COORD_LIMIT as int);
            lemma_mul_bounded(ex as int, en_den as int, 4 * COORD_LIMIT, COORD_LIMIT as int);
        }
        if (en as i128) * (ex_den as i128) <= (ex as i128) * (en_den as i128) && en < en_den && ex > 0 {
            proof {
                if dir.x != 0 && dir.y != 0 {
                    lemma_entry_nonneg(
                        en_x as int, ex_x as int, dx as int, en_y as int, ex_y as int, dy as int,
                        x_enters_last, x_leaves_first, en as int, ex as int,
                    );
                }
            }
            let pos = Vec2 { x: origin.x + scale_by(en, dir.x, en_den), y: origin.y + scale_by(en, dir.y, en_den) };
            return Some(HitInfo { t: Fraction { num: en, den: en_den }, pos, normal });
        }
        None
    }
}

/// Overlap of two boxes does not depend on which one asks.
pub proof fn lemma_overlap_symmetric(a: Aabb, b: Aabb)
    ensures
        boxes_overlap(a, b) == boxes_overlap(b, a),
{
}

/// `r` is the integer square root of `n`: the largest integer whose square is at most `n`.
pub open spec fn is_isqrt(n: int, r: int) -> bool {
    0 <= r && r * r <= n < (r + 1) * (r + 1)
}

/// The integer square root of `n`, found by bisection.
pub fn isqrt(n: u128) -> (r: u64)
    requires
        n <= COORD_LIMIT * COORD_LIMIT,
    ensures
        is_isqrt(n as int, r as int),
        r <= COORD_LIMIT,
{
    let mut lo: u128 = 0;
    let mut hi: u128 = (COORD_LIMIT as u128) + 1;
    assert(n < hi * hi) by (nonlinear_arith)
        requires
            n <= COORD_LIMIT * COORD_LIMIT,
            hi == COORD_LIMIT + 1,
    ;
    while hi - lo > 1
        invariant
            lo < hi <= COORD_LIMIT + 1,
            lo * lo <= n < hi * hi,
        decreases hi - lo,
    {
        let mid = lo + (hi - lo) / 2;
        assert(mid * mid <= 0x1000000000000000000000) by (nonlinear_arith)
            requires
                0 <= mid <= 0x20000000000,
        ;
        if mid * mid <= n {
            lo = mid;
        } else {
            hi = mid;
        }
    }
    lo as u64
}

/// Largest horizontal launch component, in thousandths of the speed: just
/// under `cos(pi / 4)`, so that every launch leans at most 45 degrees off
/// vertical.
pub const LAUNCH_SPREAD: i64 = 707;

/// The horizontal reach of a launch at `speed`.
pub open spec fn spread_of(speed: int) -> int {
    (speed * LAUNCH_SPREAD) / 1000
}

/// The launch velocity of magnitude `speed` (rounded down) whose horizontal
/// component is `x`: the vertical component points up and is the integer
/// square root of `speed^2 - x^2`.
pub open spec fn launch_ok(v: Vec2, x: int, speed: int) -> bool {
    v.x == x && is_isqrt(speed * speed - x * x, v.y as int)
}

/// The velocity of magnitude `speed` (rounded down) with horizontal component `x`.
pub fn launch_velocity(x: i64, speed: i64) -> (r: Vec2)
    requires
        0 < speed <= COORD_LIMIT,
        -speed <= x <= speed,
    ensures
        launch_ok(r, x as int, speed as int),
        r.in_range(),
        r.y >= 0,
{
    proof {
        lemma_mul_bounded(x as int, x as int, speed as int, speed as int);
        assert(0 <= x * x) by (nonlinear_arith);
        assert(x * x <= speed * speed) by (nonlinear_arith)
            requires
                -speed <= x <= speed,
        ;
        assert(speed * speed <= COORD_LIMIT * COORD_LIMIT) by (nonlinear_arith)
            requires
                0 < speed <= COORD_LIMIT,
        ;
    }
    let n = (speed as i128) * (speed as i128) - (x as i128) * (x as i128);
    let y = isqrt(n as u128);
    Vec2 { x, y: y as i64 }
}

/// Relies on rand's `thread_rng().gen_range(lo..=hi)`: a value in
/// `lo..=hi` (it panics only on an empty range).
#[verifier::external_body]
fn random_in(lo: i64, hi: i64) -> (r: i64)
    requires
        lo <= hi,
    ensures
        lo <= r <= hi,
{
    rand::thread_rng().gen_range(lo..=hi)
}

/// A random launch velocity of magnitude `speed` (rounded down) that points up
/// and leans at most 45 degrees off vertical. The horizontal component is drawn
/// uniformly from `[-spread, spread]`, where the spread is `speed * 0.707`.
pub fn random_direction(speed: i64) -> (r: Vec2)
    requires
        0 < speed <= COORD_LIMIT,
    ensures
        -spread_of(speed as int) <= r.x <= spread_of(speed as int),
        launch_ok(r, r.x as int, speed as int),
        r.y > 0,
        abs(r.x as int) <= r.y,
        r.in_range(),
{
    let spread = speed / 1000 * LAUNCH_SPREAD + (speed % 1000) * LAUNCH_SPREAD / 1000;
    assert(spread == spread_of(speed as int)) by (nonlinear_arith)
        requires
            spread == speed / 1000 * 707 + (speed % 1000) * 707 / 1000,
            speed > 0,
    ;
    let x = random_in(-spread, spread);
    let r = launch_velocity(x, speed);
    proof {
        lemma_launch_leans_up(x as int, speed as int, r.y as int);
    }
    r
}

/// A launch inside the spread points up, at least as steeply as 45 degrees.
proof fn lemma_launch_leans_up(x: int, speed: int, y: int)
    requires
        0 < speed,
        -spread_of(speed) <= x <= spread_of(speed),
        is_isqrt(speed * speed - x * x, y),
    ensures
        y > 0,
        abs(x) <= y,
{
    let s = spread_of(speed);
    assert(1000 * s <= 707 * speed) by (nonlinear_arith)
        requires
            s == (speed * 707) / 1000,
            speed > 0,
    ;
    assert(x * x <= s * s) by (nonlinear_arith)
        requires
            -s <= x <= s,
    ;
    assert(2 * (s * s) < speed * speed) by (nonlinear_arith)
        requires
            1000 * s <= 707 * speed,
            s >= 0,
            speed > 0,
    ;
    assert(y > 0) by (nonlinear_arith)
        requires
            y * y <= speed * speed - x * x < (y + 1) * (y + 1),
            x * x <= s * s,
            2 * (s * s) < speed * speed,
            y >= 0,
    ;
    assert(abs(x) <= y) by (nonlinear_arith)
        requires
            speed * speed - x * x < (y + 1) * (y + 1),
            x * x <= s * s,
            2 * (s * s) < speed * speed,
            y >= 0,
            abs(x) == if x < 0 { -x } else { x },
    ;
}

} // verus!
