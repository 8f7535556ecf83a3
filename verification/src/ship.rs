//! Ships: power payloads in transit. A ship flies in a straight line from
//! its spawn position toward its target planet at a fixed speed per tick and
//! resolves combat the tick it comes within one step of the target.

use vstd::prelude::*;
use vstd::math::abs;
use crate::pos::{mul_div_signed, sdiv, sqrt_floor, Pos};
use crate::pos::{lemma_sqrt_floor_mono, lemma_sqrt_floor_square};
use crate::{COORD_LIMIT, GEOM_LIMIT, SCALE, SHIP_COORD_LIMIT, SHIP_SPEED};

verus! {

#[derive(Clone, Debug)]
pub struct Ship {
    /// The player who sent the ship.
    pub owner: usize,
    /// The power it carries, in milli-units; always positive.
    pub power: u64,
    pub pos: Pos,
    /// The target planet's position, recorded at launch.
    pub target: Pos,
    /// The target planet's id.
    pub target_id: usize,
}

impl Ship {
    /// The ship one tick later: one `SHIP_SPEED` step along the straight
    /// line toward the target, each coordinate rounded toward zero. A ship
    /// already exactly on its target stays put.
    pub open spec fn moved(self) -> Ship {
        let d = self.pos.dist(self.target);
        if d == 0 {
            self
        } else {
            Ship {
                pos: Pos {
                    x: (self.pos.x + sdiv((self.target.x - self.pos.x) * SHIP_SPEED, d)) as i64,
                    y: (self.pos.y + sdiv((self.target.y - self.pos.y) * SHIP_SPEED, d)) as i64,
                },
                ..self
            }
        }
    }

    /// A ship has arrived once the remaining distance is smaller than one
    /// tick's travel: it may overshoot the target center rather than land on it.
    pub open spec fn spec_reached(self) -> bool {
        self.pos.dist(self.target) < SHIP_SPEED
    }

    /// Positions a ship can occupy: planet centers, plus one tick of overshoot.
    pub open spec fn pos_wf(self) -> bool {
        &&& self.pos.bounded(SHIP_COORD_LIMIT as int)
        &&& self.target.bounded(COORD_LIMIT as int)
    }

    /// Remaining distance to the target, in milli-units.
    pub fn distance_to_target(&self) -> (r: u64)
        requires
            self.pos_wf(),
        ensures
            r as int == self.pos.dist(self.target),
    {
        self.pos.distance_to(self.target)
    }

    /// Whether the ship lands this tick.
    pub fn reached_target(&self) -> (r: bool)
        requires
            self.pos_wf(),
        ensures
            r == self.spec_reached(),
    {
        self.distance_to_target() < SHIP_SPEED
    }

    /// Advance the ship by exactly one tick.
    pub fn do_move(&mut self)
        requires
            old(self).pos_wf(),
        ensures
            *final(self) == old(self).moved(),
            final(self).pos_wf(),
    {
        proof {
            lemma_moved_bounded(*self);
        }
        let d = self.pos.distance_to(self.target);
        if d > 0 {
            proof {
                lemma_step_bound(self.pos, self.target);
            }
            let sx = mul_div_signed(self.target.x - self.pos.x, SHIP_SPEED, d);
            let sy = mul_div_signed(self.target.y - self.pos.y, SHIP_SPEED, d);
            self.pos = Pos { x: self.pos.x + sx, y: self.pos.y + sy };
        }
    }

    /// Where the ship stands after a given fraction of travel, measured in
    /// milli-turns: presentation only, never used by the per-tick update.
    pub open spec fn projected(self, turns: u64) -> Pos {
        let d = self.pos.dist(self.target);
        if d == 0 {
            self.pos
        } else {
            Pos {
                x: (self.pos.x + sdiv(
                    (self.target.x - self.pos.x) * SHIP_SPEED * turns,
                    d * SCALE,
                )) as i64,
                y: (self.pos.y + sdiv(
                    (self.target.y - self.pos.y) * SHIP_SPEED * turns,
                    d * SCALE,
                )) as i64,
            }
        }
    }

    /// The position after `turns` milli-turns of flight.
    pub fn position_after_turns(&self, turns: u64) -> (r: Pos)
        requires
            self.pos_wf(),
            turns <= 100_000_000,
        ensures
            r == self.projected(turns),
    {
        let d = self.pos.distance_to(self.target);
        if d == 0 {
            return self.pos;
        }
        let x = self.pos.x + project_step(self.target.x - self.pos.x, turns, d);
        let y = self.pos.y + project_step(self.target.y - self.pos.y, turns, d);
        Pos { x, y }
    }
}

/// `delta * SHIP_SPEED * turns / (d * SCALE)`, truncated toward zero.
fn project_step(delta: i64, turns: u64, d: u64) -> (r: i64)
    requires
        1 <= d <= 3_000_000_000,
        abs(delta as int) <= 2 * GEOM_LIMIT,
        turns <= 100_000_000,
    ensures
        r as int == sdiv(delta * SHIP_SPEED * turns, d * SCALE),
        abs(r as int) <= 3_000_000_000_000_000_000,
{
    let mag: u128 = if delta >= 0 {
        delta as u128
    } else {
        (-delta) as u128
    };
    proof {
        assert(mag * (SHIP_SPEED as u128) <= 30_000_000_000_000u128) by (nonlinear_arith)
            requires mag <= 2_000_000_000u128;
        assert(mag * (SHIP_SPEED as u128) * (turns as u128)
            <= 3_000_000_000_000_000_000_000u128) by (nonlinear_arith)
            requires
                mag * (SHIP_SPEED as u128) <= 30_000_000_000_000u128,
                turns <= 100_000_000u64;
    }
    let num = mag * (SHIP_SPEED as u128) * (turns as u128);
    proof {
        assert(1000 <= (d as u128) * (SCALE as u128) <= 3_000_000_000_000u128)
            by (nonlinear_arith)
            requires 1 <= d <= 3_000_000_000u64;
    }
    let den = (d as u128) * (SCALE as u128);
    let q = num / den;
    proof {
        assert(num == mag * SHIP_SPEED * turns && num <= mag * SHIP_SPEED * 100_000_000)
            by (nonlinear_arith)
            requires
                num == mag * (SHIP_SPEED as u128) * (turns as u128),
                mag <= 2_000_000_000u128,
                turns <= 100_000_000u64;
        assert(mag * SHIP_SPEED * 100_000_000 == mag * 1_500_000_000_000u128) by (nonlinear_arith);
        assert(mag * 1_500_000_000_000u128 <= 3_000_000_000_000_000_000_000u128)
            by (nonlinear_arith)
            requires mag <= 2_000_000_000u128;
        assert(den >= 1000);
        assert(q * den <= num && q <= num / 1000) by {
            vstd::arithmetic::div_mod::lemma_fundamental_div_mod(num as int, den as int);
            vstd::arithmetic::div_mod::lemma_div_is_ordered_by_denominator(
                num as int, 1000, den as int);
        };
        assert(q <= 3_000_000_000_000_000_000u128) by (nonlinear_arith)
            requires
                q <= num / 1000,
                num <= 3_000_000_000_000_000_000_000u128;
        if delta >= 0 {
            assert(mag * SHIP_SPEED * turns == delta * SHIP_SPEED * turns) by (nonlinear_arith)
                requires mag == delta as int;
        } else {
            assert(mag * SHIP_SPEED * turns == -(delta * SHIP_SPEED * turns)) by (nonlinear_arith)
                requires mag == -(delta as int);
            assert(delta * SHIP_SPEED * turns <= 0) by (nonlinear_arith)
                requires delta < 0;
        }
    }
    if delta >= 0 {
        q as i64
    } else {
        proof {
            if delta as int * SHIP_SPEED * turns == 0 {
                assert(num == 0);
            }
        }
        -(q as i64)
    }
}

/// Truncated division is invariant under scaling numerator and denominator
/// by the same positive factor.
proof fn lemma_sdiv_scale(a: int, b: int, c: int)
    requires
        b > 0,
        c > 0,
    ensures
        sdiv(a * c, b * c) == sdiv(a, b),
{
    if a >= 0 {
        assert(a * c >= 0) by (nonlinear_arith)
            requires a >= 0, c > 0;
        vstd::arithmetic::div_mod::lemma_div_denominator(a * c, c, b);
        vstd::arithmetic::div_mod::lemma_div_multiples_vanish(a, c);
        assert(a * c == c * a) by (nonlinear_arith);
        assert(b * c == c * b) by (nonlinear_arith);
    } else {
        let m = -a;
        assert(m * c >= 0 && m * c == -(a * c) && a * c <= 0) by (nonlinear_arith)
            requires m == -a, a < 0, c > 0;
        vstd::arithmetic::div_mod::lemma_div_denominator(m * c, c, b);
        vstd::arithmetic::div_mod::lemma_div_multiples_vanish(m, c);
        assert(m * c == c * m) by (nonlinear_arith);
        assert(b * c == c * b) by (nonlinear_arith);
        if a * c == 0 {
            assert(m * c == 0);
        }
    }
}

/// The authoritative per-tick update agrees with the fractional projection
/// at exactly one full turn: advancing a ship one tick puts it where the
/// projection says a thousand milli-turns of flight would.
pub proof fn lemma_move_matches_projection(s: Ship)
    ensures
        s.moved().pos == s.projected(SCALE),
{
    let d = s.pos.dist(s.target);
    if d != 0 {
        lemma_sdiv_scale((s.target.x - s.pos.x) * SHIP_SPEED, d, SCALE as int);
        lemma_sdiv_scale((s.target.y - s.pos.y) * SHIP_SPEED, d, SCALE as int);
    }
}

/// One tick's step never exceeds `SHIP_SPEED` per axis and points toward the
/// target: each coordinate's displacement has the sign of the remaining
/// offset on that axis.
pub proof fn lemma_step_bound(p: Pos, t: Pos)
    requires
        p.bounded(GEOM_LIMIT as int),
        t.bounded(GEOM_LIMIT as int),
        p.dist(t) > 0,
    ensures
        abs(sdiv((t.x - p.x) * SHIP_SPEED, p.dist(t))) <= SHIP_SPEED,
        abs(sdiv((t.y - p.y) * SHIP_SPEED, p.dist(t))) <= SHIP_SPEED,
        t.x >= p.x ==> sdiv((t.x - p.x) * SHIP_SPEED, p.dist(t)) >= 0,
        t.x <= p.x ==> sdiv((t.x - p.x) * SHIP_SPEED, p.dist(t)) <= 0,
        t.y >= p.y ==> sdiv((t.y - p.y) * SHIP_SPEED, p.dist(t)) >= 0,
        t.y <= p.y ==> sdiv((t.y - p.y) * SHIP_SPEED, p.dist(t)) <= 0,
{
    let d = p.dist(t);
    lemma_axis_within_dist(p, t);
    lemma_scaled_step(t.x - p.x, d);
    lemma_scaled_step(t.y - p.y, d);
}

/// Each axis offset is at most the Euclidean distance.
proof fn lemma_axis_within_dist(p: Pos, t: Pos)
    requires
        p.bounded(GEOM_LIMIT as int),
        t.bounded(GEOM_LIMIT as int),
    ensures
        abs(t.x - p.x) <= p.dist(t),
        abs(t.y - p.y) <= p.dist(t),
{
    let dx = t.x - p.x;
    let dy = t.y - p.y;
    let sq = p.sq_dist(t);
    assert(dx * dx == abs(dx) * abs(dx) && dy * dy == abs(dy) * abs(dy) && dx * dx >= 0 && dy * dy
        >= 0) by (nonlinear_arith);
    lemma_sqrt_floor_square(abs(dx));
    lemma_sqrt_floor_square(abs(dy));
    lemma_sqrt_floor_mono((dx * dx) as nat, sq as nat);
    lemma_sqrt_floor_mono((dy * dy) as nat, sq as nat);
}

/// `delta * SHIP_SPEED / d` keeps `delta`'s sign and has magnitude at most
/// `SHIP_SPEED` whenever `|delta| <= d`.
proof fn lemma_scaled_step(delta: int, d: int)
    requires
        d >= 1,
        abs(delta) <= d,
    ensures
        abs(sdiv(delta * SHIP_SPEED, d)) <= SHIP_SPEED,
        delta >= 0 ==> sdiv(delta * SHIP_SPEED, d) >= 0,
        delta <= 0 ==> sdiv(delta * SHIP_SPEED, d) <= 0,
{
    let s = SHIP_SPEED as int;
    if delta >= 0 {
        assert(delta * s >= 0) by (nonlinear_arith)
            requires delta >= 0, s > 0;
        assert(delta * s <= d * s) by (nonlinear_arith)
            requires delta <= d, s > 0;
        vstd::arithmetic::div_mod::lemma_div_pos_is_pos(delta * s, d);
        vstd::arithmetic::div_mod::lemma_div_is_ordered(delta * s, d * s, d);
        vstd::arithmetic::div_mod::lemma_div_multiples_vanish(s, d);
    } else {
        let m = -delta;
        assert(m * s >= 0) by (nonlinear_arith)
            requires m >= 0, s > 0;
        assert(m * s <= d * s) by (nonlinear_arith)
            requires m <= d, s > 0;
        vstd::arithmetic::div_mod::lemma_div_pos_is_pos(m * s, d);
        vstd::arithmetic::div_mod::lemma_div_is_ordered(m * s, d * s, d);
        vstd::arithmetic::div_mod::lemma_div_multiples_vanish(s, d);
        assert(-(delta * s) == m * s) by (nonlinear_arith)
            requires m == -delta;
    }
}

/// Ship movement preserves the ship coordinate bound: a ship flies between
/// bounded planet centers and overshoots by at most one step.
pub proof fn lemma_moved_bounded(s: Ship)
    requires
        s.pos_wf(),
    ensures
        s.moved().pos_wf(),
        s.moved().owner == s.owner && s.moved().power == s.power && s.moved().target == s.target
            && s.moved().target_id == s.target_id,
{
    let d = s.pos.dist(s.target);
    if d != 0 {
        lemma_step_bound(s.pos, s.target);
        let sx = sdiv((s.target.x - s.pos.x) * SHIP_SPEED, d);
        let sy = sdiv((s.target.y - s.pos.y) * SHIP_SPEED, d);
        assert(-(SHIP_SPEED as int) <= sx <= SHIP_SPEED);
        assert(-(SHIP_SPEED as int) <= sy <= SHIP_SPEED);
    }
}

} // verus!
