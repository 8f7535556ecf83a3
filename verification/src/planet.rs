//! Planets: the territorial entities of the map. A planet has a fixed
//! position, radius and neighbor list; its owner and health change every
//! turn through growth and combat.

use vstd::prelude::*;
use crate::pos::Pos;
use crate::ship::Ship;
use crate::rng::gen_range_i64;
use crate::{
    COORD_LIMIT, GROWTH_DIVISOR, HEALTH_CAP_FACTOR, MASS_LIMIT, PLANET_MAX_RADIUS,
    PLANET_MIN_RADIUS, SCALE, STARTING_HEALTH_DEN, STARTING_HEALTH_NUM,
};

verus! {

/// How a landing resolved: exactly one case applies to every landing.
#[derive(Clone, Copy, Debug, PartialEq, Eq, Structural)]
pub enum Combat {
    /// The ship's owner already held the planet: its power reinforces it.
    Reinforced,
    /// Power exactly equal to health: the planet becomes neutral at zero health.
    Neutralized,
    /// Power above health: the attacker takes the planet.
    Captured,
    /// Power below health: the defense holds and absorbs the power.
    Defended,
}

#[derive(Clone, Debug)]
pub struct Planet {
    /// The planet's identity: its index in the universe's planet sequence.
    pub id: usize,
    pub pos: Pos,
    /// Radius in milli-units.
    pub radius: u64,
    /// The player holding the planet, if any.
    pub owner: Option<usize>,
    /// Health in milli-units; never negative.
    pub health: u64,
    /// Ids of the planets reachable from this one.
    pub neighbors: Vec<usize>,
}

impl Planet {
    /// A new planet starts at thirty-three percent of its health cap.
    pub open spec fn starting_health(radius: u64) -> int {
        radius * STARTING_HEALTH_NUM as int / STARTING_HEALTH_DEN as int
    }

    /// Health is capped at five times the radius.
    pub open spec fn max_health(self) -> int {
        HEALTH_CAP_FACTOR * self.radius
    }

    /// An owned planet gains five percent of its radius per tick.
    pub open spec fn growth(self) -> int {
        self.radius as int / GROWTH_DIVISOR as int
    }

    /// The planet after one tick of growth: unowned planets are untouched,
    /// owned ones gain `growth()` health, capped at `max_health()`.
    pub open spec fn grown(self) -> Planet {
        if self.owner is None {
            self
        } else {
            let h = self.health + self.growth();
            let capped = if h > self.max_health() {
                self.max_health()
            } else {
                h
            };
            Planet { health: capped as u64, ..self }
        }
    }

    /// Which combat case a landing falls under.
    pub open spec fn combat_case(self, ship: Ship) -> Combat {
        if self.owner == Some(ship.owner) {
            Combat::Reinforced
        } else if ship.power == self.health {
            Combat::Neutralized
        } else if ship.power > self.health {
            Combat::Captured
        } else {
            Combat::Defended
        }
    }

    /// The planet after a ship lands on it.
    pub open spec fn landed(self, ship: Ship) -> Planet {
        match self.combat_case(ship) {
            Combat::Reinforced => Planet { health: (self.health + ship.power) as u64, ..self },
            Combat::Neutralized => Planet { health: 0, owner: None, ..self },
            Combat::Captured => Planet {
                health: (ship.power - self.health) as u64,
                owner: Some(ship.owner),
                ..self
            },
            Combat::Defended => Planet { health: (self.health - ship.power) as u64, ..self },
        }
    }

    pub fn new(id: usize, pos: Pos, radius: u64, neighbors: Vec<usize>) -> (p: Planet)
        requires
            radius <= PLANET_MAX_RADIUS + SCALE,
        ensures
            p == (Planet {
                id,
                pos,
                radius,
                owner: None,
                health: Planet::starting_health(radius) as u64,
                neighbors,
            }),
    {
        let health = radius * STARTING_HEALTH_NUM / STARTING_HEALTH_DEN;
        Planet { id, pos, radius, owner: None, health, neighbors }
    }

    /// A planet at a position sampled uniformly from the box
    /// `[min, max + one unit)` (the half-open unit of slack keeps the range
    /// non-empty even for a degenerate box), with a radius sampled from the
    /// legal 20 to 40 unit range and no neighbors yet.
    pub fn random(
        rng: &mut rand::rngs::StdRng,
        id: usize,
        min: Pos,
        max: Pos,
    ) -> (p: Planet)
        requires
            min.bounded(COORD_LIMIT as int),
            max.bounded(COORD_LIMIT as int),
            min.x <= max.x,
            min.y <= max.y,
        ensures
            p.id == id,
            min.x <= p.pos.x < max.x + SCALE,
            min.y <= p.pos.y < max.y + SCALE,
            PLANET_MIN_RADIUS <= p.radius <= PLANET_MAX_RADIUS,
            p.owner is None,
            p.health == Planet::starting_health(p.radius),
            p.neighbors@ =~= Seq::<usize>::empty(),
    {
        let x = gen_range_i64(rng, min.x, max.x + SCALE as i64);
        let y = gen_range_i64(rng, min.y, max.y + SCALE as i64);
        let radius = gen_range_i64(
            rng,
            PLANET_MIN_RADIUS as i64,
            PLANET_MAX_RADIUS as i64 + 1,
        ) as u64;
        Planet::new(id, Pos { x, y }, radius, Vec::new())
    }

    /// One tick of growth, exactly `grown()`.
    pub fn grow(&mut self)
        requires
            old(self).health <= MASS_LIMIT,
            old(self).radius <= PLANET_MAX_RADIUS + SCALE,
        ensures
            *final(self) == old(self).grown(),
    {
        if self.owner.is_some() {
            let g = self.radius / GROWTH_DIVISOR;
            let cap = HEALTH_CAP_FACTOR * self.radius;
            let h = self.health + g;
            self.health = if h > cap {
                cap
            } else {
                h
            };
        }
    }

    /// Combat resolution for a landing ship: exactly `landed()`, reporting
    /// which of the four cases applied.
    pub fn land_ship(&mut self, ship: &Ship) -> (outcome: Combat)
        requires
            old(self).health + ship.power <= u64::MAX,
        ensures
            *final(self) == old(self).landed(*ship),
            outcome == old(self).combat_case(*ship),
    {
        let same_owner = match self.owner {
            Some(o) => o == ship.owner,
            None => false,
        };
        if same_owner {
            self.health = self.health + ship.power;
            Combat::Reinforced
        } else if ship.power == self.health {
            self.health = 0;
            self.owner = None;
            Combat::Neutralized
        } else if ship.power > self.health {
            self.health = ship.power - self.health;
            self.owner = Some(ship.owner);
            Combat::Captured
        } else {
            self.health = self.health - ship.power;
            Combat::Defended
        }
    }
}

impl PartialEq for Planet {
    /// Planets compare by identity alone: two snapshots of the same planet
    /// are the same planet whatever their current owner or health.
    fn eq(&self, other: &Planet) -> bool {
        self.id == other.id
    }
}

impl vstd::std_specs::cmp::PartialEqSpecImpl for Planet {
    open spec fn obeys_eq_spec() -> bool {
        true
    }

    open spec fn eq_spec(&self, other: &Planet) -> bool {
        self.id == other.id
    }
}

/// The four combat cases are exhaustive and mutually exclusive: every landing
/// falls under exactly the case that its owner, power and health select.
pub proof fn lemma_combat_exhaustive(p: Planet, s: Ship)
    ensures
        p.combat_case(s) == Combat::Reinforced <==> p.owner == Some(s.owner),
        p.combat_case(s) == Combat::Neutralized <==> p.owner != Some(s.owner) && s.power
            == p.health,
        p.combat_case(s) == Combat::Captured <==> p.owner != Some(s.owner) && s.power > p.health,
        p.combat_case(s) == Combat::Defended <==> p.owner != Some(s.owner) && s.power < p.health,
{
}

/// What each combat case does, spelled out: reinforcement adds the ship's
/// power, an exact tie neutralizes the planet at zero health, a stronger
/// attacker captures it keeping the surplus, and a weaker one only wears
/// the defense down. Position, radius and neighbors never change.
pub proof fn lemma_land_cases(p: Planet, s: Ship)
    ensures
        p.combat_case(s) == Combat::Reinforced ==> p.landed(s) == (Planet {
            health: (p.health + s.power) as u64,
            ..p
        }),
        p.combat_case(s) == Combat::Neutralized ==> p.landed(s) == (Planet {
            health: 0,
            owner: None,
            ..p
        }),
        p.combat_case(s) == Combat::Captured ==> p.landed(s) == (Planet {
            health: (s.power - p.health) as u64,
            owner: Some(s.owner),
            ..p
        }),
        p.combat_case(s) == Combat::Defended ==> p.landed(s) == (Planet {
            health: (p.health - s.power) as u64,
            ..p
        }),
        p.landed(s).id == p.id && p.landed(s).pos == p.pos && p.landed(s).radius == p.radius
            && p.landed(s).neighbors == p.neighbors,
{
}

/// Growth in one statement over the four inputs that decide it: a no-op on
/// unowned planets, otherwise five percent of the radius, capped at five
/// radii, whatever the prior health.
pub proof fn lemma_grow_effect(p: Planet)
    ensures
        p.owner is None ==> p.grown() == p,
        p.owner is Some && p.health + p.growth() <= p.max_health() ==> p.grown() == (Planet {
            health: (p.health + p.growth()) as u64,
            ..p
        }),
        p.owner is Some && p.health + p.growth() > p.max_health() ==> p.grown() == (Planet {
            health: p.max_health() as u64,
            ..p
        }),
        p.grown().owner == p.owner && p.grown().id == p.id && p.grown().pos == p.pos && p.grown().radius
            == p.radius && p.grown().neighbors == p.neighbors,
{
}

} // verus!

