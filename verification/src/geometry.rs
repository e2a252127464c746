//! 2D integer geometry: points, rounded Euclidean distance,
//! radius-containment, linear interpolation, and arc-point generation.

use vstd::arithmetic::div_mod::{
    lemma_div_is_ordered, lemma_div_nonincreasing, lemma_div_pos_is_pos,
    lemma_fundamental_div_mod_converse,
};
use vstd::prelude::*;

use crate::CAMPING_MARGIN_TENTHS;
use crate::THROW_MARGIN_TENTHS;

verus! {

/// Bound on every coordinate the engine ever stores or compares.  Arena
/// coordinates are far smaller; the slack admits reflected points and
/// formation points that leave the arena.
pub const COORD_BOUND: i32 = 100000;

/// A point of the arena.  Equality is exact coordinate match.
#[derive(Clone, Copy, Debug, PartialEq, Eq, Structural)]
pub struct Coord {
    pub x: i32,
    pub y: i32,
}

/// Whether the point lies within the generous coordinate bound that the
/// engine keeps every stored coordinate inside.
pub open spec fn in_bounds(c: Coord) -> bool {
    -COORD_BOUND <= c.x <= COORD_BOUND && -COORD_BOUND <= c.y <= COORD_BOUND
}

/// The wider bound that distance computations accept: twice the storage
/// bound, so that a difference of two stored coordinates is itself a valid
/// coordinate.
pub open spec fn in_wide_bounds(c: Coord) -> bool {
    -2 * COORD_BOUND <= c.x <= 2 * COORD_BOUND && -2 * COORD_BOUND <= c.y <= 2 * COORD_BOUND
}

/// The square of an integer.
pub open spec fn sq(v: int) -> int {
    v * v
}

/// Squared Euclidean distance between two points.
pub open spec fn dist_sq(a: Coord, b: Coord) -> int {
    sq(a.x - b.x) + sq(a.y - b.y)
}

/// `r` is the square root of `n`, rounded to the nearest integer.  For
/// `n >= 1` this says `(r - 1/2)^2 < n <= (r + 1/2)^2` shifted to integer
/// arithmetic; halves round up, which can never arise since `n` is an
/// integer and `(r + 1/2)^2` is not.
pub open spec fn is_rounded_sqrt(n: int, r: int) -> bool {
    if n == 0 {
        r == 0
    } else {
        0 < r && r * r - r < n <= r * r + r
    }
}

/// The square root of `n`, rounded to the nearest integer.
pub open spec fn rsqrt(n: int) -> int {
    choose|r: int| is_rounded_sqrt(n, r)
}

/// Rounded Euclidean distance between two points: the metric used for every
/// range comparison of the engine.
pub open spec fn spec_dist(a: Coord, b: Coord) -> int {
    rsqrt(dist_sq(a, b))
}

/// Whether `a` lies within rounded distance `radius` of `b` (boundary
/// inclusive).
pub open spec fn spec_in_radius(a: Coord, b: Coord, radius: int) -> bool {
    spec_dist(a, b) <= radius
}

/// A rounded square root exists for every non-negative argument.
pub proof fn lemma_rsqrt_exists(n: int)
    requires
        n >= 0,
    ensures
        is_rounded_sqrt(n, rsqrt(n)),
    decreases n,
{
    if n == 0 {
        assert(is_rounded_sqrt(0, 0));
    } else {
        lemma_rsqrt_exists(n - 1);
        let r = rsqrt(n - 1);
        if n - 1 == 0 {
            assert(r == 0);
            assert(is_rounded_sqrt(n, 1));
        } else if n <= r * r + r {
            assert(is_rounded_sqrt(n, r));
        } else {
            assert((r + 1) * (r + 1) - (r + 1) == r * r + r) by (nonlinear_arith);
            assert(n <= (r + 1) * (r + 1) + (r + 1)) by (nonlinear_arith)
                requires
                    0 < r && n - 1 <= r * r + r,
            ;
            assert(is_rounded_sqrt(n, r + 1));
        }
        let w = choose|w: int| is_rounded_sqrt(n, w);
        assert(is_rounded_sqrt(n, w));
    }
}

/// The rounded square root is unique.
pub proof fn lemma_rsqrt_unique(n: int, r1: int, r2: int)
    requires
        is_rounded_sqrt(n, r1),
        is_rounded_sqrt(n, r2),
    ensures
        r1 == r2,
{
    if n == 0 {
    } else {
        assert(r1 == r2) by (nonlinear_arith)
            requires
                0 < r1 && r1 * r1 - r1 < n <= r1 * r1 + r1,
                0 < r2 && r2 * r2 - r2 < n <= r2 * r2 + r2,
        ;
    }
}

/// `p/10` rounded to the nearest integer, halves away from zero: the
/// rounding applied to each interpolated coordinate.
pub open spec fn round_div10(p: int) -> int {
    if p >= 0 {
        (p + 5) / 10
    } else {
        -((-p + 5) / 10)
    }
}

/// The value at fraction `tenths/10` along the segment from `a` to `b`,
/// rounded to the nearest integer.
pub open spec fn interp_val(a: int, b: int, tenths: int) -> int {
    round_div10(10 * a + tenths * (b - a))
}

/// Point at fraction `tenths/10` along the segment `a -> b`, each
/// coordinate rounded independently.
pub open spec fn spec_interpolate(a: Coord, b: Coord, tenths: int) -> Coord {
    Coord {
        x: interp_val(a.x as int, b.x as int, tenths) as i32,
        y: interp_val(a.y as int, b.y as int, tenths) as i32,
    }
}

/// `p/q` rounded to the nearest integer, for `p >= 0` and `q > 0`.
pub open spec fn round_div_nn(p: int, q: int) -> int {
    (2 * p + q) / (2 * q)
}

/// Rounding `p/10` respects integer bounds on `p/10`.
pub proof fn lemma_round_div10_between(lo: int, hi: int, p: int)
    requires
        10 * lo <= p <= 10 * hi,
    ensures
        lo <= round_div10(p) <= hi,
{
    if p >= 0 {
        lemma_div_is_ordered(p + 5, 10 * hi + 5, 10);
        lemma_fundamental_div_mod_converse(10 * hi + 5, 10, hi, 5);
        if lo >= 0 {
            lemma_div_is_ordered(10 * lo + 5, p + 5, 10);
            lemma_fundamental_div_mod_converse(10 * lo + 5, 10, lo, 5);
        } else {
            lemma_div_pos_is_pos(p + 5, 10);
        }
    } else {
        if hi < 0 {
            lemma_div_is_ordered(10 * (-hi), -p + 5, 10);
            lemma_fundamental_div_mod_converse(10 * (-hi), 10, -hi, 0);
        } else {
            lemma_div_pos_is_pos(-p + 5, 10);
        }
        lemma_div_is_ordered(-p + 5, 10 * (-lo) + 5, 10);
        lemma_fundamental_div_mod_converse(10 * (-lo) + 5, 10, -lo, 5);
    }
}

/// An interpolated value lies between its two endpoints.
pub proof fn lemma_interp_val_between(a: int, b: int, tenths: int)
    requires
        0 <= tenths <= 10,
    ensures
        a <= b ==> a <= interp_val(a, b, tenths) <= b,
        b <= a ==> b <= interp_val(a, b, tenths) <= a,
{
    let p = 10 * a + tenths * (b - a);
    if a <= b {
        assert(10 * a <= p <= 10 * b) by (nonlinear_arith)
            requires
                0 <= tenths <= 10 && a <= b && p == 10 * a + tenths * (b - a),
        ;
        lemma_round_div10_between(a, b, p);
    } else {
        assert(10 * b <= p <= 10 * a) by (nonlinear_arith)
            requires
                0 <= tenths <= 10 && b <= a && p == 10 * a + tenths * (b - a),
        ;
        lemma_round_div10_between(b, a, p);
    }
}

/// `round_div_nn(p, q)` lies in `[0, b]` whenever `p <= q * b`.
pub proof fn lemma_round_div_nn_bounds(p: int, q: int, b: int)
    requires
        0 <= p,
        0 < q,
        p <= q * b,
    ensures
        0 <= round_div_nn(p, q) <= b,
{
    lemma_div_pos_is_pos(2 * p + q, 2 * q);
    let top = 2 * q * b + q;
    assert(2 * p + q <= top && top == b * (2 * q) + q) by (nonlinear_arith)
        requires
            p <= q * b && top == 2 * q * b + q,
    ;
    lemma_div_is_ordered(2 * p + q, top, 2 * q);
    lemma_fundamental_div_mod_converse(top, 2 * q, b, q);
}

/// Horizontal arc offset for step `i` of `m` on a quarter circle of the
/// given radius: `radius * 4(m^2-i^2)/(4m^2+i^2)` rounded to the nearest
/// integer, a rational approximation of `radius * cos` that is exact at both
/// ends of the arc.  A single-point arc (`m == 0`) degenerates to the
/// anchor itself.
pub open spec fn arc_dx(m: int, i: int, radius: int) -> int {
    if m == 0 {
        0
    } else {
        round_div_nn(4 * (m * m - i * i) * radius, 4 * (m * m) + i * i)
    }
}

/// Vertical arc offset for step `i` of `m`:
/// `radius * 4i(2m-i)/(4m^2+(m-i)^2)` rounded to the nearest integer, the
/// matching rational approximation of `radius * sin`.
pub open spec fn arc_dy(m: int, i: int, radius: int) -> int {
    if m == 0 {
        0
    } else {
        round_div_nn(4 * (i * (2 * m - i)) * radius, 4 * (m * m) + (m - i) * (m - i))
    }
}

/// Both arc offsets stay within `[0, radius]`.
pub proof fn lemma_arc_offsets_range(m: int, i: int, radius: int)
    requires
        0 <= i <= m,
        0 <= radius,
    ensures
        0 <= arc_dx(m, i, radius) <= radius,
        0 <= arc_dy(m, i, radius) <= radius,
{
    if m != 0 {
        assert(0 <= 4 * (m * m - i * i) * radius && 0 < 4 * (m * m) + i * i && 4 * (m * m - i * i)
            * radius <= (4 * (m * m) + i * i) * radius) by (nonlinear_arith)
            requires
                0 <= i <= m && 0 < m && 0 <= radius,
        ;
        lemma_round_div_nn_bounds(4 * (m * m - i * i) * radius, 4 * (m * m) + i * i, radius);
        assert(0 <= 4 * (i * (2 * m - i)) * radius && 0 < 4 * (m * m) + (m - i) * (m - i) && 4 * (i
            * (2 * m - i)) * radius <= (4 * (m * m) + (m - i) * (m - i)) * radius)
            by (nonlinear_arith)
            requires
                0 <= i <= m && 0 < m && 0 <= radius,
        ;
        lemma_round_div_nn_bounds(
            4 * (i * (2 * m - i)) * radius,
            4 * (m * m) + (m - i) * (m - i),
            radius,
        );
    }
}

/// The interpolation pull used by formation generation: deep toward the
/// corner when camping, shallow (near the circle) for the capture fan-out.
pub open spec fn throw_tenths(is_camping: bool) -> int {
    if is_camping {
        CAMPING_MARGIN_TENTHS as int
    } else {
        THROW_MARGIN_TENTHS as int
    }
}

/// The inner corner of the quadrant the arc points are pulled toward.
pub open spec fn spec_quadrant_center(anchor: Coord, down_right: bool, radius: int) -> Coord {
    if down_right {
        Coord { x: (anchor.x - radius) as i32, y: (anchor.y - radius) as i32 }
    } else {
        Coord { x: (anchor.x + radius) as i32, y: (anchor.y + radius) as i32 }
    }
}

/// The `i`-th point on the quarter-circle circumference, before the pull
/// toward the quadrant center.
pub open spec fn spec_circumference_point(
    anchor: Coord,
    count: int,
    i: int,
    down_right: bool,
    radius: int,
) -> Coord {
    let m = count - 1;
    let dx = arc_dx(m, i, radius);
    let dy = arc_dy(m, i, radius);
    if down_right {
        Coord { x: (anchor.x - dx) as i32, y: (anchor.y - dy) as i32 }
    } else {
        Coord { x: (anchor.x + dx) as i32, y: (anchor.y + dy) as i32 }
    }
}

/// The `i`-th generated formation point: the circumference point pulled
/// toward the quadrant center.
pub open spec fn spec_throw_point(
    anchor: Coord,
    count: int,
    i: int,
    down_right: bool,
    radius: int,
    is_camping: bool,
) -> Coord {
    spec_interpolate(
        spec_circumference_point(anchor, count, i, down_right, radius),
        spec_quadrant_center(anchor, down_right, radius),
        throw_tenths(is_camping),
    )
}

/// `p/10` rounded to the nearest integer, halves away from zero.
fn round_div10_exec(p: i64) -> (r: i64)
    requires
        -4_000_000 <= p <= 4_000_000,
    ensures
        r as int == round_div10(p as int),
{
    if p >= 0 {
        proof {
            lemma_div_nonincreasing(p as int + 5, 10);
            lemma_div_pos_is_pos(p as int + 5, 10);
        }
        ((p as u64 + 5) / 10) as i64
    } else {
        proof {
            lemma_div_nonincreasing(-(p as int) + 5, 10);
            lemma_div_pos_is_pos(-(p as int) + 5, 10);
        }
        -((((-p) as u64 + 5) / 10) as i64)
    }
}

/// `p/q` rounded to the nearest integer, for non-negative `p` and positive
/// `q`.
fn round_div_nn_exec(p: i64, q: i64) -> (r: i64)
    requires
        0 <= p <= 100_000_000_000,
        0 < q <= 100_000_000_000,
    ensures
        r as int == round_div_nn(p as int, q as int),
        0 <= r,
{
    let num: u64 = (2 * p + q) as u64;
    let den: u64 = (2 * q) as u64;
    proof {
        lemma_div_pos_is_pos(num as int, den as int);
        lemma_div_nonincreasing(num as int, den as int);
    }
    (num / den) as i64
}

impl Coord {
    /// A point from its two coordinates.
    pub fn new(x: i32, y: i32) -> (r: Coord)
        ensures
            r.x == x && r.y == y,
    {
        Coord { x, y }
    }

    /// The placeholder destination a unit starts with, outside the arena so
    /// that no unit begins at its own destination.
    pub fn fake_new() -> (r: Coord)
        ensures
            r.x == -1 && r.y == -1,
    {
        Coord::new(-1, -1)
    }

    /// The point as the text `x y`, as commands carry it.
    pub fn to_string(&self) -> (r: String)
        ensures
            r@ == crate::text::spec_dec(self.x as int) + seq![' '] + crate::text::spec_dec(
                self.y as int,
            ),
    {
        let mut s = crate::text::i32_dec(self.x);
        s.append(" ");
        let tail = crate::text::i32_dec(self.y);
        s.append(tail.as_str());
        proof {
            reveal_strlit(" ");
            assert(s@ =~= crate::text::spec_dec(self.x as int) + seq![' ']
                + crate::text::spec_dec(self.y as int));
        }
        s
    }

    /// Overwrites this point with another.
    pub fn set(&mut self, other: &Coord)
        ensures
            *final(self) == *other,
    {
        self.x = other.x;
        self.y = other.y;
    }

    /// Euclidean distance to `other`, rounded to the nearest integer.
    pub fn distance_to(&self, other: &Coord) -> (r: i32)
        requires
            in_wide_bounds(*self),
            in_wide_bounds(*other),
        ensures
            r == spec_dist(*self, *other),
            0 <= r <= 600000,
    {
        let dx: i64 = self.x as i64 - other.x as i64;
        let dy: i64 = self.y as i64 - other.y as i64;
        assert(0 <= dx * dx <= 160_000_000_000 && 0 <= dy * dy <= 160_000_000_000)
            by (nonlinear_arith)
            requires
                -400000 <= dx <= 400000 && -400000 <= dy <= 400000,
        ;
        let n: i64 = dx * dx + dy * dy;
        assert(n == dist_sq(*self, *other));
        proof {
            lemma_rsqrt_exists(n as int);
        }
        let mut lo: i64 = 0;
        let mut hi: i64 = 600000;
        while lo + 1 < hi
            invariant
                0 <= lo < hi <= 600000,
                lo * lo <= n < hi * hi,
            decreases hi - lo,
        {
            let mid: i64 = lo + (hi - lo) / 2;
            assert(lo < mid < hi);
            assert(0 <= mid * mid <= 360_000_000_000) by (nonlinear_arith)
                requires
                    0 <= mid <= 600000,
            ;
            if mid * mid <= n {
                lo = mid;
            } else {
                hi = mid;
            }
        }
        let r: i64 = if n > lo * lo + lo {
            lo + 1
        } else {
            lo
        };
        proof {
            assert(hi == lo + 1);
            assert(is_rounded_sqrt(n as int, r as int)) by (nonlinear_arith)
                requires
                    0 <= lo as int,
                    lo as int * lo as int <= n as int,
                    (lo as int + 1) * (lo as int + 1) > n as int,
                    r as int == (if n as int > lo as int * lo as int + lo as int {
                        lo as int + 1
                    } else {
                        lo as int
                    }),
            ;
            lemma_rsqrt_unique(n as int, r as int, rsqrt(n as int));
        }
        r as i32
    }

    /// Whether `other` lies within rounded distance `radius` of this point
    /// (boundary inclusive).
    pub fn is_in_radius(&self, other: &Coord, radius: i32) -> (r: bool)
        requires
            in_wide_bounds(*self),
            in_wide_bounds(*other),
        ensures
            r == spec_in_radius(*self, *other, radius as int),
    {
        self.distance_to(other) <= radius
    }

    /// Point at fraction `tenths/10` along the segment from this point to
    /// `other`, each coordinate rounded independently.
    pub fn interpolate(&self, other: &Coord, tenths: i32) -> (r: Coord)
        requires
            0 <= tenths <= 10,
            in_bounds(*self),
            in_bounds(*other),
        ensures
            r == spec_interpolate(*self, *other, tenths as int),
            in_bounds(r),
    {
        proof {
            lemma_interp_val_between(self.x as int, other.x as int, tenths as int);
            lemma_interp_val_between(self.y as int, other.y as int, tenths as int);
        }
        let px = round_div10_exec(
            10 * (self.x as i64) + (tenths as i64) * (other.x as i64 - self.x as i64),
        );
        let py = round_div10_exec(
            10 * (self.y as i64) + (tenths as i64) * (other.y as i64 - self.y as i64),
        );
        Coord { x: px as i32, y: py as i32 }
    }

    /// Generates `count` points spread by angle across a quarter circle of
    /// the given radius anchored at this point, in the quadrant selected by
    /// `down_right`, each pulled toward the quadrant's inner corner: deeply
    /// when camping, shallowly for the capture fan-out.
    pub fn throw_coords(&self, count: usize, down_right: bool, radius: i32, is_camping: bool) -> (r:
        Vec<Coord>)
        requires
            -50000 <= self.x <= 50000,
            -50000 <= self.y <= 50000,
            0 <= radius <= 20000,
            count <= 1000,
        ensures
            r@.len() == count,
            forall|i: int|
                0 <= i < count ==> r@[i] == spec_throw_point(
                    *self,
                    count as int,
                    i,
                    down_right,
                    radius as int,
                    is_camping,
                ),
            forall|i: int| 0 <= i < count ==> in_bounds(#[trigger] r@[i]),
    {
        let mut results: Vec<Coord> = Vec::new();
        if count == 0 {
            return results;
        }
        let m: usize = count - 1;
        let tenths: i32 = if is_camping {
            CAMPING_MARGIN_TENTHS
        } else {
            THROW_MARGIN_TENTHS
        };
        let center: Coord = if down_right {
            Coord { x: self.x - radius, y: self.y - radius }
        } else {
            Coord { x: self.x + radius, y: self.y + radius }
        };
        let mut i: usize = 0;
        while i < count
            invariant
                -50000 <= self.x <= 50000,
                -50000 <= self.y <= 50000,
                0 <= radius <= 20000,
                1 <= count <= 1000,
                m == count - 1,
                i <= count,
                tenths as int == throw_tenths(is_camping),
                center == spec_quadrant_center(*self, down_right, radius as int),
                in_bounds(center),
                results@.len() == i,
                forall|j: int|
                    0 <= j < i ==> results@[j] == spec_throw_point(
                        *self,
                        count as int,
                        j,
                        down_right,
                        radius as int,
                        is_camping,
                    ),
                forall|j: int| 0 <= j < i ==> in_bounds(#[trigger] results@[j]),
            decreases count - i,
        {
            let (dx, dy): (i32, i32) = if m == 0 {
                (0i32, 0i32)
            } else {
                let mm = m as i64;
                let ii = i as i64;
                let r64 = radius as i64;
                assert(1 <= mm * mm <= 1_000_000 && 0 <= ii * ii && ii * ii <= mm * mm && 0 <= ii
                    * (2 * mm - ii) && ii * (2 * mm - ii) <= mm * mm && 0 <= (mm - ii) * (mm - ii)
                    && (mm - ii) * (mm - ii) <= mm * mm && 0 <= 4 * (mm * mm - ii * ii) * r64 && 4
                    * (mm * mm - ii * ii) * r64 <= 80_000_000_000 && 0 <= 4 * (ii * (2 * mm - ii))
                    * r64 && 4 * (ii * (2 * mm - ii)) * r64 <= 80_000_000_000)
                    by (nonlinear_arith)
                    requires
                        1 <= mm <= 999 && 0 <= ii <= mm && 0 <= r64 <= 20000,
                ;
                let mm2: i64 = mm * mm;
                let ii2: i64 = ii * ii;
                let dd: i64 = mm - ii;
                let dd2: i64 = dd * dd;
                let sy: i64 = ii * (2 * mm - ii);
                let numx: i64 = 4 * (mm2 - ii2) * r64;
                let denx: i64 = 4 * mm2 + ii2;
                let numy: i64 = 4 * sy * r64;
                let deny: i64 = 4 * mm2 + dd2;
                let dxv = round_div_nn_exec(numx, denx);
                let dyv = round_div_nn_exec(numy, deny);
                proof {
                    lemma_arc_offsets_range(m as int, i as int, radius as int);
                    assert(mm2 as int == (m as int) * (m as int));
                    assert(ii2 as int == (i as int) * (i as int));
                    assert(dd2 as int == ((m as int) - (i as int)) * ((m as int) - (i as int)));
                    assert(sy as int == (i as int) * (2 * (m as int) - (i as int)));
                    assert(numx as int == 4 * ((m as int) * (m as int) - (i as int) * (i as int))
                        * (radius as int)) by (nonlinear_arith)
                        requires
                            mm2 as int == (m as int) * (m as int),
                            ii2 as int == (i as int) * (i as int),
                            r64 as int == radius as int,
                            numx as int == 4 * (mm2 as int - ii2 as int) * (r64 as int),
                    ;
                    assert(numy as int == 4 * ((i as int) * (2 * (m as int) - (i as int))) * (
                    radius as int)) by (nonlinear_arith)
                        requires
                            sy as int == (i as int) * (2 * (m as int) - (i as int)),
                            r64 as int == radius as int,
                            numy as int == 4 * (sy as int) * (r64 as int),
                    ;
                    assert(dxv as int == arc_dx(m as int, i as int, radius as int));
                    assert(dyv as int == arc_dy(m as int, i as int, radius as int));
                }
                (dxv as i32, dyv as i32)
            };
            proof {
                assert(dx as int == arc_dx(m as int, i as int, radius as int));
                assert(dy as int == arc_dy(m as int, i as int, radius as int));
                if m != 0 {
                    lemma_arc_offsets_range(m as int, i as int, radius as int);
                }
            }
            let p = if down_right {
                Coord { x: self.x - dx, y: self.y - dy }
            } else {
                Coord { x: self.x + dx, y: self.y + dy }
            };
            assert(p == spec_circumference_point(
                *self,
                count as int,
                i as int,
                down_right,
                radius as int,
            ));
            let adjusted = p.interpolate(&center, tenths);
            results.push(adjusted);
            i = i + 1;
        }
        results
    }
}

} // verus!
