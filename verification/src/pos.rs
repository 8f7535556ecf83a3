//! 2-D fixed-point geometry: positions, Euclidean distances (rounded down to
//! whole milli-units), directions, and the distance from a point to a line
//! segment used by the visibility pass.

use vstd::prelude::*;
use vstd::math::abs;
use crate::{GEOM_LIMIT, SCALE};

verus! {

/// A point of the plane, in milli-units.
#[derive(Clone, Copy, Debug, PartialEq, Eq, Structural)]
pub struct Pos {
    pub x: i64,
    pub y: i64,
}

/// The integer square root, rounded down: the unique `r` with
/// `r * r <= n < (r + 1) * (r + 1)`.
pub open spec fn sqrt_floor(n: nat) -> nat
    decreases n,
{
    if n == 0 {
        0
    } else {
        let p = sqrt_floor((n - 1) as nat);
        if (p + 1) * (p + 1) <= n {
            p + 1
        } else {
            p
        }
    }
}

pub proof fn lemma_sqrt_floor_bounds(n: nat)
    ensures
        sqrt_floor(n) * sqrt_floor(n) <= n,
        n < (sqrt_floor(n) + 1) * (sqrt_floor(n) + 1),
    decreases n,
{
    if n == 0 {
        assert(sqrt_floor(0) == 0);
        assert(sqrt_floor(n) * sqrt_floor(n) <= n);
        assert(n < (sqrt_floor(n) + 1) * (sqrt_floor(n) + 1)) by (nonlinear_arith)
            requires n == 0, sqrt_floor(n) == 0nat;
    } else {
        let m = (n - 1) as nat;
        lemma_sqrt_floor_bounds(m);
        let p = sqrt_floor(m);
        assert(p * p <= m);
        assert(m < (p + 1) * (p + 1));
        if (p + 1) * (p + 1) <= n {
            assert(sqrt_floor(n) == p + 1);
            assert(n <= (p + 1) * (p + 1));
            assert((p + 1) * (p + 1) < (p + 2) * (p + 2)) by (nonlinear_arith);
            assert(n < (sqrt_floor(n) + 1) * (sqrt_floor(n) + 1));
        } else {
            assert(sqrt_floor(n) == p);
            assert(p * p <= m <= n);
            assert(n < (sqrt_floor(n) + 1) * (sqrt_floor(n) + 1));
        }
    }
}

pub proof fn lemma_sqrt_floor_is(n: nat, r: nat)
    requires
        r * r <= n,
        n < (r + 1) * (r + 1),
    ensures
        sqrt_floor(n) == r,
{
    lemma_sqrt_floor_bounds(n);
    let s = sqrt_floor(n);
    if s < r {
        assert((s + 1) * (s + 1) <= r * r) by (nonlinear_arith)
            requires s + 1 <= r;
    }
    if r < s {
        assert((r + 1) * (r + 1) <= s * s) by (nonlinear_arith)
            requires r + 1 <= s;
    }
}

pub proof fn lemma_sqrt_floor_mono(m: nat, n: nat)
    requires
        m <= n,
    ensures
        sqrt_floor(m) <= sqrt_floor(n),
{
    lemma_sqrt_floor_bounds(m);
    lemma_sqrt_floor_bounds(n);
    let a = sqrt_floor(m);
    let b = sqrt_floor(n);
    if b < a {
        assert((b + 1) * (b + 1) <= a * a) by (nonlinear_arith)
            requires b + 1 <= a;
    }
}

pub proof fn lemma_sqrt_floor_square(r: nat)
    ensures
        sqrt_floor(r * r) == r,
{
    assert(r * r < (r + 1) * (r + 1)) by (nonlinear_arith);
    lemma_sqrt_floor_is(r * r, r);
}

/// The integer square root of `n`, rounded down.
pub fn isqrt(n: u64) -> (r: u64)
    ensures
        r as nat == sqrt_floor(n as nat),
{
    let mut lo: u64 = 0;
    let mut hi: u64 = 4_294_967_296;
    assert((hi as nat) * (hi as nat) > n as nat) by (nonlinear_arith)
        requires hi == 4_294_967_296u64, n <= u64::MAX;
    while lo + 1 < hi
        invariant
            lo < hi <= 4_294_967_296,
            (lo as nat) * (lo as nat) <= n as nat,
            (n as nat) < (hi as nat) * (hi as nat),
        decreases hi - lo,
    {
        let mid = lo + (hi - lo) / 2;
        assert(mid * mid <= u64::MAX) by (nonlinear_arith)
            requires mid <= 4_294_967_295u64;
        if mid * mid <= n {
            lo = mid;
        } else {
            hi = mid;
        }
    }
    proof {
        lemma_sqrt_floor_is(n as nat, lo as nat);
    }
    lo
}

/// The magnitude of the difference of two bounded coordinates.
fn abs_diff(a: i64, b: i64) -> (r: u64)
    requires
        -GEOM_LIMIT <= a <= GEOM_LIMIT,
        -GEOM_LIMIT <= b <= GEOM_LIMIT,
    ensures
        r as nat == abs(a - b),
        r <= 2 * GEOM_LIMIT,
{
    if a >= b {
        (a - b) as u64
    } else {
        (b - a) as u64
    }
}

/// Truncated signed division: the quotient of `a / b` rounded toward zero,
/// matching what the machine computes on magnitudes with the sign put back.
pub open spec fn sdiv(a: int, b: int) -> int {
    if a >= 0 {
        a / b
    } else {
        -((-a) / b)
    }
}

/// `delta * num / den`, truncated toward zero.
pub(crate) fn mul_div_signed(delta: i64, num: u64, den: u64) -> (r: i64)
    requires
        1 <= den,
        abs(delta as int) <= 2 * GEOM_LIMIT,
        num <= 1_000_000,
    ensures
        r as int == sdiv(delta * num, den as int),
{
    if delta >= 0 {
        let mag = delta as u64;
        proof {
            assert(mag * num <= 2_000_000_000_000_000) by (nonlinear_arith)
                requires mag <= 2_000_000_000u64, num <= 1_000_000u64;
        }
        let prod = mag * num;
        let q = prod / den;
        assert(q <= prod);
        proof {
            assert(mag as int * num as int == delta as int * num as int);
        }
        q as i64
    } else {
        let mag = (-delta) as u64;
        proof {
            assert(mag * num <= 2_000_000_000_000_000) by (nonlinear_arith)
                requires mag <= 2_000_000_000u64, num <= 1_000_000u64;
        }
        let prod = mag * num;
        let q = prod / den;
        assert(q <= prod);
        proof {
            assert(mag as int * num as int == -(delta as int * num as int)) by (nonlinear_arith)
                requires mag as int == -(delta as int);
            assert(delta as int * num as int <= 0) by (nonlinear_arith)
                requires delta as int <= 0, num as int >= 0;
            if delta as int * num as int == 0 {
                assert(prod == 0);
            }
        }
        -(q as i64)
    }
}

impl Pos {
    pub fn new(x: i64, y: i64) -> (p: Pos)
        ensures
            p == (Pos { x, y }),
    {
        Pos { x, y }
    }

    /// Both coordinates are within `limit` of the origin.
    pub open spec fn bounded(self, limit: int) -> bool {
        &&& -limit <= self.x <= limit
        &&& -limit <= self.y <= limit
    }

    /// The squared Euclidean distance between two points.
    pub open spec fn sq_dist(self, other: Pos) -> int {
        (other.x - self.x) * (other.x - self.x) + (other.y - self.y) * (other.y - self.y)
    }

    /// The Euclidean distance, rounded down to whole milli-units.
    pub open spec fn dist(self, other: Pos) -> int {
        sqrt_floor(self.sq_dist(other) as nat) as int
    }

    /// The squared distance as the machine computes it.
    fn sq_dist_exec(&self, other: Pos) -> (r: u64)
        requires
            self.bounded(GEOM_LIMIT as int),
            other.bounded(GEOM_LIMIT as int),
        ensures
            r as int == self.sq_dist(other),
            r <= 8_000_000_000_000_000_000,
    {
        let dx = abs_diff(other.x, self.x);
        let dy = abs_diff(other.y, self.y);
        proof {
            assert(dx * dx == (other.x - self.x) * (other.x - self.x)
                && dx * dx <= 4_000_000_000_000_000_000) by (nonlinear_arith)
                requires dx as nat == abs(other.x - self.x), dx <= 2_000_000_000u64;
            assert(dy * dy == (other.y - self.y) * (other.y - self.y)
                && dy * dy <= 4_000_000_000_000_000_000) by (nonlinear_arith)
                requires dy as nat == abs(other.y - self.y), dy <= 2_000_000_000u64;
        }
        dx * dx + dy * dy
    }

    /// The distance between two points, in milli-units.
    pub fn distance_to(&self, other: Pos) -> (r: u64)
        requires
            self.bounded(GEOM_LIMIT as int),
            other.bounded(GEOM_LIMIT as int),
        ensures
            r as int == self.dist(other),
            r <= 3_000_000_000,
    {
        let sq = self.sq_dist_exec(other);
        let r = isqrt(sq);
        proof {
            lemma_sqrt_floor_bounds(sq as nat);
            assert(r <= 3_000_000_000) by (nonlinear_arith)
                requires
                    (r as nat) * (r as nat) <= sq as nat,
                    sq <= 8_000_000_000_000_000_000u64;
        }
        r
    }

    /// The displacement vector from `self` to `other`.
    pub fn direction_to(&self, other: Pos) -> (r: Pos)
        requires
            self.bounded(GEOM_LIMIT as int),
            other.bounded(GEOM_LIMIT as int),
        ensures
            r == (Pos { x: (other.x - self.x) as i64, y: (other.y - self.y) as i64 }),
    {
        Pos { x: other.x - self.x, y: other.y - self.y }
    }

    /// The unit vector from `self` toward `other`, scaled to milli-units:
    /// a vector of length (almost exactly) `SCALE`. The two points must
    /// differ: the direction between coincident points is undefined.
    pub fn unit_direction_to(&self, other: Pos) -> (r: Pos)
        requires
            self.bounded(GEOM_LIMIT as int),
            other.bounded(GEOM_LIMIT as int),
            *self != other,
        ensures
            r.x == sdiv((other.x - self.x) * SCALE, self.dist(other)),
            r.y == sdiv((other.y - self.y) * SCALE, self.dist(other)),
    {
        let d = self.distance_to(other);
        proof {
            lemma_dist_zero(*self, other);
        }
        let ux = mul_div_signed(other.x - self.x, SCALE, d);
        let uy = mul_div_signed(other.y - self.y, SCALE, d);
        Pos { x: ux, y: uy }
    }

    /// The distance from `self` to the segment from `a` to `b`: the distance
    /// to the nearest endpoint when the projection of `self` falls outside
    /// the segment, and the perpendicular distance otherwise. Coincident
    /// endpoints are handled explicitly (the segment is a point).
    pub open spec fn seg_dist(self, a: Pos, b: Pos) -> int {
        let abx = b.x - a.x;
        let aby = b.y - a.y;
        let pax = a.x - self.x;
        let pay = a.y - self.y;
        let bpx = self.x - b.x;
        let bpy = self.y - b.y;
        if abx * pax + aby * pay > 0 {
            self.dist(a)
        } else if abx * bpx + aby * bpy > 0 {
            self.dist(b)
        } else if a.dist(b) == 0 {
            self.dist(a)
        } else {
            abs(abx * pay - aby * pax) as int / a.dist(b)
        }
    }

    /// The distance from a point to a line segment, in milli-units.
    pub fn distance_to_line_segment(&self, a: Pos, b: Pos) -> (r: u64)
        requires
            self.bounded(GEOM_LIMIT as int),
            a.bounded(GEOM_LIMIT as int),
            b.bounded(GEOM_LIMIT as int),
        ensures
            r as int == self.seg_dist(a, b),
    {
        let abx = b.x - a.x;
        let aby = b.y - a.y;
        let pax = a.x - self.x;
        let pay = a.y - self.y;
        proof {
            lemma_dot_bounded(abx as int, aby as int, pax as int, pay as int);
        }
        if abx * pax + aby * pay > 0 {
            // The projection falls before the start: the closest point is a.
            return self.distance_to(a);
        }
        let bpx = self.x - b.x;
        let bpy = self.y - b.y;
        proof {
            lemma_dot_bounded(abx as int, aby as int, bpx as int, bpy as int);
        }
        if abx * bpx + aby * bpy > 0 {
            // The projection falls past the end: the closest point is b.
            return self.distance_to(b);
        }
        let d = a.distance_to(b);
        if d == 0 {
            return self.distance_to(a);
        }
        // Perpendicular distance: |cross(ab, pa)| / |ab|.
        proof {
            lemma_dot_bounded(abx as int, aby as int, pay as int, pax as int);
        }
        let cross = abx * pay - aby * pax;
        let mag = if cross >= 0 {
            cross as u64
        } else {
            (-cross) as u64
        };
        mag / d
    }
}

/// The dot product of two vectors with bounded components stays within
/// machine range.
proof fn lemma_dot_bounded(ax: int, ay: int, bx: int, by: int)
    requires
        abs(ax) <= 2 * GEOM_LIMIT,
        abs(ay) <= 2 * GEOM_LIMIT,
        abs(bx) <= 2 * GEOM_LIMIT,
        abs(by) <= 2 * GEOM_LIMIT,
    ensures
        abs(ax * bx) <= 4_000_000_000_000_000_000,
        abs(ay * by) <= 4_000_000_000_000_000_000,
        abs(ax * bx + ay * by) <= 8_000_000_000_000_000_000,
        abs(ax * by - ay * bx) <= 8_000_000_000_000_000_000,
{
    assert(abs(ax * bx) <= 4_000_000_000_000_000_000) by (nonlinear_arith)
        requires abs(ax) <= 2_000_000_000int, abs(bx) <= 2_000_000_000int;
    assert(abs(ay * by) <= 4_000_000_000_000_000_000) by (nonlinear_arith)
        requires abs(ay) <= 2_000_000_000int, abs(by) <= 2_000_000_000int;
    assert(abs(ax * by) <= 4_000_000_000_000_000_000) by (nonlinear_arith)
        requires abs(ax) <= 2_000_000_000int, abs(by) <= 2_000_000_000int;
    assert(abs(ay * bx) <= 4_000_000_000_000_000_000) by (nonlinear_arith)
        requires abs(ay) <= 2_000_000_000int, abs(bx) <= 2_000_000_000int;
}

/// Distance does not depend on the order of its arguments.
pub proof fn lemma_dist_symmetric(a: Pos, b: Pos)
    ensures
        a.sq_dist(b) == b.sq_dist(a),
        a.dist(b) == b.dist(a),
{
    assert((b.x - a.x) * (b.x - a.x) == (a.x - b.x) * (a.x - b.x)) by (nonlinear_arith);
    assert((b.y - a.y) * (b.y - a.y) == (a.y - b.y) * (a.y - b.y)) by (nonlinear_arith);
}

/// Point reflection about a common center is an isometry: the distance from
/// a point's mirror to another point equals the distance from the point to
/// the other's mirror.
pub proof fn lemma_dist_reflected(size: Pos, c: Pos, m: Pos, x: Pos, xm: Pos)
    requires
        m.x == size.x - c.x,
        m.y == size.y - c.y,
        xm.x == size.x - x.x,
        xm.y == size.y - x.y,
    ensures
        m.sq_dist(x) == c.sq_dist(xm),
        m.dist(x) == c.dist(xm),
{
    assert((x.x - m.x) * (x.x - m.x) == (xm.x - c.x) * (xm.x - c.x)) by (nonlinear_arith)
        requires x.x - m.x == -(xm.x - c.x);
    assert((x.y - m.y) * (x.y - m.y) == (xm.y - c.y) * (xm.y - c.y)) by (nonlinear_arith)
        requires x.y - m.y == -(xm.y - c.y);
}

/// The distance to a segment does not depend on the order of its endpoints.
pub proof fn lemma_seg_dist_swap(p: Pos, a: Pos, b: Pos)
    ensures
        p.seg_dist(a, b) == p.seg_dist(b, a),
{
    let abx = b.x - a.x;
    let aby = b.y - a.y;
    let pax = a.x - p.x;
    let pay = a.y - p.y;
    let bpx = p.x - b.x;
    let bpy = p.y - b.y;
    let c1 = abx * pax + aby * pay;
    let c2 = abx * bpx + aby * bpy;
    // the swapped call's vectors are the negations
    assert((-abx) * (-bpx) + (-aby) * (-bpy) == c2) by (nonlinear_arith)
        requires c2 == abx * bpx + aby * bpy;
    assert((-abx) * (-pax) + (-aby) * (-pay) == c1) by (nonlinear_arith)
        requires c1 == abx * pax + aby * pay;
    // the two projections cannot both be strictly positive
    assert(c1 + c2 == -(abx * abx + aby * aby) && abx * abx + aby * aby >= 0) by (nonlinear_arith)
        requires
            c1 == abx * pax + aby * pay,
            c2 == abx * bpx + aby * bpy,
            bpx == -pax - abx,
            bpy == -pay - aby;
    lemma_dist_symmetric(a, b);
    lemma_dist_zero(a, b);
    if c1 <= 0 && c2 <= 0 && a.dist(b) != 0 {
        // perpendicular case on both sides: the cross products are negatives
        assert((-abx) * (-bpy) - (-aby) * (-bpx) == -(abx * pay - aby * pax)) by (nonlinear_arith)
            requires bpx == -pax - abx, bpy == -pay - aby;
    }
}

/// Point reflection about a common center maps a point-to-segment query to
/// the mirrored query exactly, branch by branch.
pub proof fn lemma_seg_dist_reflected(size: Pos, p: Pos, pm: Pos, a: Pos, am: Pos, b: Pos, bm: Pos)
    requires
        pm.x == size.x - p.x,
        pm.y == size.y - p.y,
        am.x == size.x - a.x,
        am.y == size.y - a.y,
        bm.x == size.x - b.x,
        bm.y == size.y - b.y,
    ensures
        p.seg_dist(am, bm) == pm.seg_dist(a, b),
{
    let abx = b.x - a.x;
    let aby = b.y - a.y;
    let pax = a.x - pm.x;
    let pay = a.y - pm.y;
    let bpx = pm.x - b.x;
    let bpy = pm.y - b.y;
    // the mirrored query's vectors are the negations of the original's
    assert(bm.x - am.x == -abx && bm.y - am.y == -aby);
    assert(am.x - p.x == -pax && am.y - p.y == -pay);
    assert(p.x - bm.x == -bpx && p.y - bm.y == -bpy);
    assert((-abx) * (-pax) + (-aby) * (-pay) == abx * pax + aby * pay) by (nonlinear_arith);
    assert((-abx) * (-bpx) + (-aby) * (-bpy) == abx * bpx + aby * bpy) by (nonlinear_arith);
    assert((-abx) * (-pay) - (-aby) * (-pax) == abx * pay - aby * pax) by (nonlinear_arith);
    lemma_dist_reflected(size, pm, p, am, a);
    lemma_dist_reflected(size, pm, p, bm, b);
    lemma_dist_reflected(size, a, am, bm, b);
}

/// Two points are at distance zero exactly when they are equal.
pub proof fn lemma_dist_zero(a: Pos, b: Pos)
    ensures
        a.dist(b) == 0 <==> a == b,
        a.sq_dist(b) >= 0,
{
    let dx = b.x - a.x;
    let dy = b.y - a.y;
    assert(dx * dx >= 0 && dy * dy >= 0) by (nonlinear_arith);
    assert(dx != 0 ==> dx * dx >= 1) by (nonlinear_arith);
    assert(dy != 0 ==> dy * dy >= 1) by (nonlinear_arith);
    lemma_sqrt_floor_bounds(a.sq_dist(b) as nat);
    if a.dist(b) == 0 {
        let n = a.sq_dist(b) as nat;
        assert(n < (sqrt_floor(n) + 1) * (sqrt_floor(n) + 1));
        assert(n < 1) by (nonlinear_arith)
            requires sqrt_floor(n) == 0nat, n < (sqrt_floor(n) + 1) * (sqrt_floor(n) + 1);
        assert(a.sq_dist(b) < 1);
        assert(dx == 0 && dy == 0);
        assert(a == b);
    }
    if a == b {
        assert(a.sq_dist(b) == 0);
        assert(a.dist(b) == 0);
    }
}

} // verus!
