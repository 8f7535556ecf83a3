//! The universe owns every planet and ship, advances the simulation one turn
//! at a time, validates and applies travel commands, and detects the winner.
//! It is the sole mutator of planet and ship state.

use vstd::prelude::*;
use vstd::pervasive::VecAdditionalExecFns;
use crate::planet::{Combat, Planet};
use crate::pos::Pos;
use crate::ship::{lemma_moved_bounded, Ship};
use crate::{
    COORD_LIMIT, GEOM_LIMIT, MASS_LIMIT, PLANET_MAX_RADIUS, PLANET_MIN_RADIUS, SCALE,
    SHIP_COORD_LIMIT,
};

verus! {

/// Why a travel command was rejected. Commands are validated in this order;
/// the first failing check names the error.
#[derive(Clone, Copy, Debug, PartialEq, Eq, Structural)]
pub enum TravelError {
    /// The source and target planet are the same.
    SelfTarget,
    /// The source planet id is out of range.
    FromOutOfRange,
    /// The target planet id is out of range.
    ToOutOfRange,
    /// The player id is out of range.
    UnknownPlayer,
    /// The source planet is not owned by the commanding player.
    NotOwned,
    /// The target planet is not a neighbor of the source planet.
    NotNeighbor,
    /// The ship's power must be positive.
    NonPositivePower,
    /// Sending the ship would leave the source planet under one unit of health.
    InsufficientHealth,
}

impl TravelError {
    /// A short description of the rejection.
    pub fn message(&self) -> &'static str {
        match *self {
            TravelError::SelfTarget => "Attempt to send a ship to its planet of origin",
            TravelError::FromOutOfRange => "Attempt to send a ship from non-existent planet",
            TravelError::ToOutOfRange => "Attempt to send a ship to non-existent planet",
            TravelError::UnknownPlayer => "Command issued by non-existent player",
            TravelError::NotOwned => "Attempt to send a ship from a planet not owned by the player",
            TravelError::NotNeighbor => "Attempt to send a ship to a planet that is not a neighbor",
            TravelError::NonPositivePower => "Attempt to send a ship with non-positive power",
            TravelError::InsufficientHealth => "Attempt to send a ship leaving the planet with less than 1.0 health",
        }
    }
}

/// The sum of the healths of a sequence of planets.
pub open spec fn planets_mass(s: Seq<Planet>) -> int
    decreases s.len(),
{
    if s.len() == 0 {
        0
    } else {
        s.first().health + planets_mass(s.drop_first())
    }
}

/// The sum of the powers of a sequence of ships.
pub open spec fn ships_mass(s: Seq<Ship>) -> int
    decreases s.len(),
{
    if s.len() == 0 {
        0
    } else {
        s.first().power + ships_mass(s.drop_first())
    }
}

pub proof fn lemma_planets_mass_bounds(s: Seq<Planet>, i: int)
    requires
        0 <= i < s.len(),
    ensures
        planets_mass(s) >= 0,
        s[i].health <= planets_mass(s),
    decreases s.len(),
{
    lemma_planets_mass_nonneg(s.drop_first());
    if i > 0 {
        lemma_planets_mass_bounds(s.drop_first(), i - 1);
    }
}

pub proof fn lemma_planets_mass_nonneg(s: Seq<Planet>)
    ensures
        planets_mass(s) >= 0,
    decreases s.len(),
{
    if s.len() > 0 {
        lemma_planets_mass_nonneg(s.drop_first());
    }
}

pub proof fn lemma_ships_mass_bounds(s: Seq<Ship>, i: int)
    requires
        0 <= i < s.len(),
    ensures
        ships_mass(s) >= 0,
        s[i].power <= ships_mass(s),
    decreases s.len(),
{
    lemma_ships_mass_nonneg(s.drop_first());
    if i > 0 {
        lemma_ships_mass_bounds(s.drop_first(), i - 1);
    }
}

pub proof fn lemma_ships_mass_nonneg(s: Seq<Ship>)
    ensures
        ships_mass(s) >= 0,
    decreases s.len(),
{
    if s.len() > 0 {
        lemma_ships_mass_nonneg(s.drop_first());
    }
}

/// A pointwise health bound gives a mass bound.
pub proof fn lemma_planets_mass_bounded(s: Seq<Planet>, b: int)
    requires
        b >= 0,
        forall|i: int| 0 <= i < s.len() ==> (#[trigger] s[i]).health <= b,
    ensures
        planets_mass(s) <= s.len() * b,
    decreases s.len(),
{
    if s.len() == 0 {
        assert(s.len() * b == 0) by (nonlinear_arith)
            requires s.len() == 0;
    } else {
        assert forall|i: int| 0 <= i < s.drop_first().len() implies (
        #[trigger] s.drop_first()[i]).health <= b by {
            assert(s.drop_first()[i] == s[i + 1]);
        }
        lemma_planets_mass_bounded(s.drop_first(), b);
        assert(s.first().health <= b);
        assert(b + (s.len() - 1) * b == s.len() * b) by (nonlinear_arith);
    }
}

/// Sequences of planets with the same healths weigh the same.
pub proof fn lemma_planets_mass_congruent(s1: Seq<Planet>, s2: Seq<Planet>)
    requires
        s1.len() == s2.len(),
        forall|i: int| 0 <= i < s1.len() ==> (#[trigger] s1[i]).health == s2[i].health,
    ensures
        planets_mass(s1) == planets_mass(s2),
    decreases s1.len(),
{
    if s1.len() > 0 {
        assert forall|i: int| 0 <= i < s1.drop_first().len() implies (
        #[trigger] s1.drop_first()[i]).health == s2.drop_first()[i].health by {
            assert(s1.drop_first()[i] == s1[i + 1]);
            assert(s2.drop_first()[i] == s2[i + 1]);
        }
        lemma_planets_mass_congruent(s1.drop_first(), s2.drop_first());
    }
}

/// Replacing one planet changes the sum by the difference of healths.
pub proof fn lemma_planets_mass_update(s: Seq<Planet>, i: int, p: Planet)
    requires
        0 <= i < s.len(),
    ensures
        planets_mass(s.update(i, p)) == planets_mass(s) - s[i].health + p.health,
    decreases s.len(),
{
    if i == 0 {
        assert(s.update(0, p).drop_first() =~= s.drop_first());
    } else {
        assert(s.update(i, p).drop_first() =~= s.drop_first().update(i - 1, p));
        lemma_planets_mass_update(s.drop_first(), i - 1, p);
    }
}

pub proof fn lemma_planets_mass_push(s: Seq<Planet>, p: Planet)
    ensures
        planets_mass(s.push(p)) == planets_mass(s) + p.health,
    decreases s.len(),
{
    if s.len() == 0 {
        assert(s.push(p).drop_first() =~= Seq::<Planet>::empty());
        assert(s.push(p).first() == p);
        assert(planets_mass(s.push(p)) == p.health + planets_mass(Seq::<Planet>::empty()));
    } else {
        assert(s.push(p).drop_first() =~= s.drop_first().push(p));
        lemma_planets_mass_push(s.drop_first(), p);
        assert(s.push(p).first() == s.first());
        assert(planets_mass(s.push(p)) == s.first().health + planets_mass(
            s.drop_first().push(p),
        ));
    }
}

pub proof fn lemma_ships_mass_push(s: Seq<Ship>, x: Ship)
    ensures
        ships_mass(s.push(x)) == ships_mass(s) + x.power,
    decreases s.len(),
{
    if s.len() == 0 {
        assert(s.push(x).drop_first() =~= Seq::<Ship>::empty());
        assert(s.push(x).first() == x);
        assert(ships_mass(s.push(x)) == x.power + ships_mass(Seq::<Ship>::empty()));
    } else {
        assert(s.push(x).drop_first() =~= s.drop_first().push(x));
        lemma_ships_mass_push(s.drop_first(), x);
        assert(s.push(x).first() == s.first());
        assert(ships_mass(s.push(x)) == s.first().power + ships_mass(s.drop_first().push(x)));
    }
}

/// Well-formedness of a planet standing at index `i` of a sequence of `n`
/// planets in a match of `num_players` players: its id is its index, its
/// geometry is bounded, its owner is a real player and its neighbors are
/// real planets.
pub open spec fn planet_ok(num_players: usize, n: int, i: int, p: Planet) -> bool {
    &&& p.id == i
    &&& p.pos.bounded(COORD_LIMIT as int)
    &&& PLANET_MIN_RADIUS <= p.radius < PLANET_MAX_RADIUS + SCALE
    &&& (p.owner matches Some(o) ==> o < num_players)
    &&& p.health <= MASS_LIMIT
    &&& forall|k: int| 0 <= k < p.neighbors@.len() ==> (#[trigger] p.neighbors@[k]) < n
}

/// Well-formedness of a ship flying over `planets`: a real owner, positive
/// bounded power, a real target planet whose recorded position matches, and
/// a position a ship can reach.
pub open spec fn ship_ok(num_players: usize, planets: Seq<Planet>, s: Ship) -> bool {
    &&& s.owner < num_players
    &&& 1 <= s.power <= MASS_LIMIT
    &&& s.target_id < planets.len()
    &&& s.target == planets[s.target_id as int].pos
    &&& s.pos.bounded(SHIP_COORD_LIMIT as int)
}

#[derive(Debug)]
pub struct Universe {
    /// How many players are in the match; player ids are `0..num_players`.
    pub num_players: usize,
    /// The bounding rectangle of the map: positions range over `[0, size]`.
    pub size: Pos,
    /// All planets, indexed by id. Created at map generation, never destroyed.
    pub planets: Vec<Planet>,
    /// All ships currently in flight.
    pub ships: Vec<Ship>,
}

impl Universe {
    /// Well-formedness of one planet: its id is its index, its geometry is
    /// bounded, its owner is a real player and its neighbors are real planets.
    pub open spec fn planet_wf(self, i: int) -> bool {
        planet_ok(self.num_players, self.planets@.len() as int, i, self.planets@[i])
    }

    pub open spec fn ship_wf(self, i: int) -> bool {
        ship_ok(self.num_players, self.planets@, self.ships@[i])
    }

    pub open spec fn wf(self) -> bool {
        &&& self.size.bounded(COORD_LIMIT as int)
        &&& forall|i: int| 0 <= i < self.planets@.len() ==> #[trigger] self.planet_wf(i)
        &&& forall|i: int| 0 <= i < self.ships@.len() ==> #[trigger] self.ship_wf(i)
    }

    /// All health and ship power in the universe, in milli-units. Travel
    /// conserves it; combat can only lose it; growth adds a little per tick.
    pub open spec fn total_mass(self) -> int {
        planets_mass(self.planets@) + ships_mass(self.ships@)
    }

    /// Whether some planet is owned by player `p`.
    pub open spec fn has_owner(self, p: int) -> bool {
        &&& 0 <= p < self.num_players
        &&& exists|i: int|
            0 <= i < self.planets@.len() && (#[trigger] self.planets@[i].owner) == Some(p as usize)
    }

    /// The validation a travel command must pass, in order; the first failing
    /// check decides the error.
    pub open spec fn travel_check(self, player_id: usize, power: i64, from: usize, to: usize)
        -> Result<(), TravelError> {
        if from == to {
            Err(TravelError::SelfTarget)
        } else if from >= self.planets@.len() {
            Err(TravelError::FromOutOfRange)
        } else if to >= self.planets@.len() {
            Err(TravelError::ToOutOfRange)
        } else if player_id >= self.num_players {
            Err(TravelError::UnknownPlayer)
        } else if self.planets@[from as int].owner != Some(player_id) {
            Err(TravelError::NotOwned)
        } else if !self.planets@[from as int].neighbors@.contains(to) {
            Err(TravelError::NotNeighbor)
        } else if power <= 0 {
            Err(TravelError::NonPositivePower)
        } else if self.planets@[from as int].health - power < SCALE {
            Err(TravelError::InsufficientHealth)
        } else {
            Ok(())
        }
    }

    /// The source planet after the ship's power is deducted.
    pub open spec fn drained_planet(self, power: u64, from: usize) -> Planet {
        let p = self.planets@[from as int];
        Planet { health: (p.health - power) as u64, ..p }
    }

    /// The ship a travel command launches.
    pub open spec fn launched_ship(self, owner: usize, power: u64, from: usize, to: usize)
        -> Ship {
        Ship {
            owner,
            power,
            pos: self.planets@[from as int].pos,
            target: self.planets@[to as int].pos,
            target_id: to,
        }
    }

    /// Deduct `power` from the source planet's health and launch a ship
    /// carrying it toward the target. The unvalidated step shared by every
    /// accepted travel command; total mass is conserved exactly.
    pub fn travel(&mut self, owner: usize, power: u64, from: usize, to: usize)
        requires
            old(self).wf(),
            from < old(self).planets@.len(),
            to < old(self).planets@.len(),
            owner < old(self).num_players,
            1 <= power,
            power <= old(self).planets@[from as int].health,
        ensures
            final(self).num_players == old(self).num_players,
            final(self).size == old(self).size,
            final(self).planets@ == old(self).planets@.update(
                from as int,
                old(self).drained_planet(power, from),
            ),
            final(self).ships@ == old(self).ships@.push(
                old(self).launched_ship(owner, power, from, to),
            ),
            final(self).wf(),
            final(self).total_mass() == old(self).total_mass(),
    {
        proof {
            assert(old(self).planet_wf(from as int));
            assert(old(self).planet_wf(to as int));
        }
        let pos = self.planets[from].pos;
        let target = self.planets[to].pos;
        let mut p = self.planets.remove(from);
        p.health = p.health - power;
        self.planets.insert(from, p);
        self.ships.push(Ship { owner, power, pos, target, target_id: to });
        proof {
            assert(self.planets@ =~= old(self).planets@.update(
                from as int,
                old(self).drained_planet(power, from),
            ));
            lemma_planets_mass_update(
                old(self).planets@,
                from as int,
                old(self).drained_planet(power, from),
            );
            lemma_ships_mass_push(
                old(self).ships@,
                old(self).launched_ship(owner, power, from, to),
            );
            assert forall|i: int| 0 <= i < self.planets@.len() implies #[trigger] self.planet_wf(i)
            by {
                assert(old(self).planet_wf(i));
            }
            assert forall|i: int| 0 <= i < self.ships@.len() implies #[trigger] self.ship_wf(i) by {
                if i < old(self).ships@.len() {
                    assert(old(self).ship_wf(i));
                    assert(old(self).planet_wf(old(self).ships@[i].target_id as int));
                }
            }
        }
    }

    /// Validate a travel command and, when every check passes, apply it.
    /// A rejected command changes nothing at all.
    pub fn try_travel(&mut self, player_id: usize, power: i64, from: usize, to: usize) -> (r:
        Result<(), TravelError>)
        requires
            old(self).wf(),
        ensures
            r == old(self).travel_check(player_id, power, from, to),
            r is Err ==> *final(self) == *old(self),
            r is Ok ==> {
                &&& final(self).num_players == old(self).num_players
                &&& final(self).size == old(self).size
                &&& final(self).planets@ == old(self).planets@.update(
                    from as int,
                    old(self).drained_planet(power as u64, from),
                )
                &&& final(self).ships@ == old(self).ships@.push(
                    old(self).launched_ship(player_id, power as u64, from, to),
                )
            },
            final(self).wf(),
            final(self).total_mass() == old(self).total_mass(),
    {
        if from == to {
            return Err(TravelError::SelfTarget);
        }
        if from >= self.planets.len() {
            return Err(TravelError::FromOutOfRange);
        }
        if to >= self.planets.len() {
            return Err(TravelError::ToOutOfRange);
        }
        if player_id >= self.num_players {
            return Err(TravelError::UnknownPlayer);
        }
        proof {
            assert(self.planet_wf(from as int));
        }
        let owned = match self.planets[from].owner {
            Some(o) => o == player_id,
            None => false,
        };
        if !owned {
            return Err(TravelError::NotOwned);
        }
        if !contains_id(&self.planets[from].neighbors, to) {
            return Err(TravelError::NotNeighbor);
        }
        if power <= 0 {
            return Err(TravelError::NonPositivePower);
        }
        let power_milli = power as u64;
        let health = self.planets[from].health;
        if health < SCALE || health - SCALE < power_milli {
            return Err(TravelError::InsufficientHealth);
        }
        self.travel(player_id, power_milli, from, to);
        Ok(())
    }

    /// The winner, if the match is decided: the one player who owns a planet
    /// while no other player owns any. With zero or several distinct owners
    /// the game continues.
    pub fn try_get_winner(&self) -> (r: Option<usize>)
        requires
            self.wf(),
        ensures
            match r {
                Some(p) => p < self.num_players && self.has_owner(p as int) && (forall|q: int|
                    self.has_owner(q) ==> q == p),
                None => forall|p: int|
                    self.has_owner(p) ==> exists|q: int| q != p && self.has_owner(q),
            },
    {
        let n = self.num_players;
        let mut has_planets: Vec<bool> = vec![false; n];
        let num_planets = self.planets.len();
        let mut i: usize = 0;
        while i < num_planets
            invariant
                self.wf(),
                num_planets == self.planets@.len(),
                i <= num_planets,
                n == self.num_players,
                has_planets@.len() == n,
                forall|k: int|
                    0 <= k < n ==> (#[trigger] has_planets@[k] == exists|j: int|
                        0 <= j < i && (#[trigger] self.planets@[j].owner) == Some(k as usize)),
            decreases num_planets - i,
        {
            proof {
                assert(self.planet_wf(i as int));
            }
            match self.planets[i].owner {
                Some(o) => {
                    has_planets.set(o, true);
                    proof {
                        assert(self.planets@[i as int].owner == Some(o));
                    }
                },
                None => {},
            }
            i = i + 1;
        }
        proof {
            assert forall|k: int| 0 <= k < n implies (#[trigger] has_planets@[k]
                == self.has_owner(k)) by {
                if self.has_owner(k) {
                    let j = choose|j: int|
                        0 <= j < self.planets@.len() && (#[trigger] self.planets@[j].owner)
                            == Some(k as usize);
                    assert(0 <= j < i);
                }
            }
        }
        // Count the distinct owners; the match is won only when there is
        // exactly one.
        let mut count: usize = 0;
        let mut winner: usize = 0;
        let ghost mut other: int = 0;
        let mut k: usize = 0;
        while k < n
            invariant
                n == self.num_players,
                has_planets@.len() == n,
                k <= n,
                forall|q: int| 0 <= q < n ==> (#[trigger] has_planets@[q] == self.has_owner(q)),
                count <= k,
                count == 0 ==> forall|q: int| 0 <= q < k ==> !(#[trigger] has_planets@[q]),
                count >= 1 ==> winner < k && has_planets@[winner as int],
                count == 1 ==> forall|q: int|
                    0 <= q < k && q != winner ==> !(#[trigger] has_planets@[q]),
                count >= 2 ==> 0 <= other < k && other != winner && has_planets@[other],
            decreases n - k,
        {
            if has_planets[k] {
                if count >= 1 {
                    proof {
                        other = winner as int;
                    }
                    winner = k;
                } else {
                    winner = k;
                }
                count = count + 1;
            }
            k = k + 1;
        }
        if count == 1 {
            proof {
                assert(winner < n);
                assert(has_planets@[winner as int]);
                assert(self.has_owner(winner as int));
                assert forall|q: int| self.has_owner(q) implies q == winner as int by {
                    assert(0 <= q < n);
                    assert(has_planets@[q]);
                }
            }
            Some(winner)
        } else {
            proof {
                if count == 0 {
                    assert forall|p: int| !self.has_owner(p) by {
                        if 0 <= p < n {
                            assert(!has_planets@[p]);
                        }
                    }
                }
                if count >= 2 {
                    assert forall|p: int| self.has_owner(p) implies exists|q: int|
                        q != p && self.has_owner(q) by {
                        if p == winner as int {
                            assert(other != p && self.has_owner(other));
                        } else {
                            assert(winner as int != p && self.has_owner(winner as int));
                        }
                    }
                }
            }
            None
        }
    }

    /// Advance every ship one step, resolving landings in original order and
    /// recording which planets were captured: exactly `move_phase`. Total
    /// mass never rises — combat can only conserve or destroy it.
    fn move_ships(&mut self, captured: &mut Vec<bool>)
        requires
            old(self).wf(),
            old(self).total_mass() <= MASS_LIMIT,
            old(captured)@.len() == old(self).planets@.len(),
        ensures
            ({
                let r = move_phase(old(self).planets@, old(captured)@, old(self).ships@);
                &&& final(self).planets@ == r.0
                &&& final(captured)@ == r.1
                &&& final(self).ships@ == r.2
            }),
            final(self).num_players == old(self).num_players,
            final(self).size == old(self).size,
            final(self).planets@.len() == old(self).planets@.len(),
            final(captured)@.len() == old(captured)@.len(),
            final(self).wf(),
            final(self).total_mass() <= old(self).total_mass(),
            forall|i: int|
                0 <= i < old(self).planets@.len() ==> (#[trigger] final(self).planets@[i]).pos
                    == old(self).planets@[i].pos,
    {
        let ghost planets0 = self.planets@;
        let ghost cap0 = captured@;
        let ghost ships0 = self.ships@;
        let ghost num0 = self.num_players;
        let ghost size0 = self.size;
        let ghost mass0 = self.total_mass();
        proof {
            assert forall|i: int| 0 <= i < self.planets@.len() implies planet_ok(
                num0,
                planets0.len() as int,
                i,
                #[trigger] self.planets@[i],
            ) by {
                assert(self.planet_wf(i));
            }
            assert forall|i: int| 0 <= i < self.ships@.len() implies ship_ok(
                num0,
                self.planets@,
                #[trigger] self.ships@[i],
            ) by {
                assert(self.ship_wf(i));
            }
        }
        let mut survivors: Vec<Ship> = Vec::new();
        while self.ships.len() > 0
            invariant
                self.num_players == num0,
                self.size == size0,
                self.planets@.len() == planets0.len(),
                captured@.len() == planets0.len(),
                self.size.bounded(COORD_LIMIT as int),
                forall|i: int|
                    0 <= i < self.planets@.len() ==> planet_ok(
                        num0,
                        planets0.len() as int,
                        i,
                        #[trigger] self.planets@[i],
                    ),
                forall|i: int|
                    0 <= i < self.ships@.len() ==> ship_ok(
                        num0,
                        self.planets@,
                        #[trigger] self.ships@[i],
                    ),
                forall|i: int|
                    0 <= i < survivors@.len() ==> ship_ok(
                        num0,
                        self.planets@,
                        #[trigger] survivors@[i],
                    ),
                forall|i: int|
                    0 <= i < planets0.len() ==> (#[trigger] self.planets@[i]).pos
                        == planets0[i].pos,
                planets_mass(self.planets@) + ships_mass(self.ships@) + ships_mass(survivors@)
                    <= mass0,
                mass0 <= MASS_LIMIT,
                ({
                    let r = move_phase(self.planets@, captured@, self.ships@);
                    let r0 = move_phase(planets0, cap0, ships0);
                    &&& r0.0 == r.0
                    &&& r0.1 == r.1
                    &&& r0.2 == survivors@ + r.2
                }),
            decreases self.ships@.len(),
        {
            let ghost planets_pre = self.planets@;
            let ghost cap_pre = captured@;
            let ghost ships_pre = self.ships@;
            let ghost surv_pre = survivors@;
            proof {
                assert(ship_ok(num0, planets_pre, ships_pre[0]));
                assert(planet_ok(
                    num0,
                    planets0.len() as int,
                    ships_pre[0].target_id as int,
                    planets_pre[ships_pre[0].target_id as int],
                ));
                lemma_planets_mass_nonneg(planets_pre);
                lemma_ships_mass_nonneg(ships_pre.drop_first());
                lemma_ships_mass_nonneg(surv_pre);
            }
            let mut s = self.ships.remove(0);
            proof {
                assert(self.ships@ =~= ships_pre.drop_first());
                lemma_moved_bounded(s);
            }
            s.do_move();
            proof {
                assert(s == ships_pre.first().moved());
                assert forall|i: int| 0 <= i < self.ships@.len() implies ship_ok(
                    num0,
                    self.planets@,
                    #[trigger] self.ships@[i],
                ) by {
                    assert(self.ships@[i] == ships_pre[i + 1]);
                }
            }
            if s.reached_target() {
                let tid = s.target_id;
                proof {
                    lemma_planets_mass_bounds(planets_pre, tid as int);
                    lemma_ships_mass_bounds(ships_pre, 0);
                }
                let mut p = self.planets.remove(tid);
                let ghost p_pre = p;
                let outcome = p.land_ship(&s);
                proof {
                    // Combat only conserves or destroys mass.
                    assert(p.health <= p_pre.health + s.power);
                }
                self.planets.insert(tid, p);
                if outcome == Combat::Captured {
                    captured.set(tid, true);
                }
                proof {
                    assert(self.planets@ =~= planets_pre.update(tid as int, p_pre.landed(s)));
                    assert(self.planets@ == land_seq(planets_pre, s));
                    assert(captured@ == capture_seq(planets_pre, cap_pre, s));
                    lemma_planets_mass_update(planets_pre, tid as int, p_pre.landed(s));
                    assert forall|i: int| 0 <= i < self.planets@.len() implies planet_ok(
                        num0,
                        planets0.len() as int,
                        i,
                        #[trigger] self.planets@[i],
                    ) by {
                        assert(planet_ok(num0, planets0.len() as int, i, planets_pre[i]));
                    }
                    assert forall|i: int| 0 <= i < self.ships@.len() implies ship_ok(
                        num0,
                        self.planets@,
                        #[trigger] self.ships@[i],
                    ) by {
                        assert(ship_ok(num0, planets_pre, self.ships@[i]));
                        assert(self.planets@[self.ships@[i].target_id as int].pos
                            == planets_pre[self.ships@[i].target_id as int].pos);
                    }
                    assert forall|i: int| 0 <= i < survivors@.len() implies ship_ok(
                        num0,
                        self.planets@,
                        #[trigger] survivors@[i],
                    ) by {
                        assert(ship_ok(num0, planets_pre, survivors@[i]));
                        assert(self.planets@[survivors@[i].target_id as int].pos
                            == planets_pre[survivors@[i].target_id as int].pos);
                    }
                }
            } else {
                survivors.push(s);
                proof {
                    lemma_ships_mass_push(surv_pre, s);
                    let r = move_phase(self.planets@, captured@, self.ships@);
                    assert(surv_pre + (seq![s] + r.2) =~= survivors@ + r.2);
                }
            }
        }
        proof {
            let r = move_phase(self.planets@, captured@, self.ships@);
            assert(r.2 =~= Seq::<Ship>::empty());
            assert(survivors@ + r.2 =~= survivors@);
            lemma_ships_mass_nonneg(self.ships@);
        }
        self.ships = survivors;
        proof {
            assert forall|i: int| 0 <= i < self.planets@.len() implies #[trigger] self.planet_wf(
                i,
            ) by {
                assert(planet_ok(num0, planets0.len() as int, i, self.planets@[i]));
            }
            assert forall|i: int| 0 <= i < self.ships@.len() implies #[trigger] self.ship_wf(
                i,
            ) by {
                assert(ship_ok(num0, self.planets@, self.ships@[i]));
            }
        }
    }

    /// Advance the simulation by one turn: every ship moves one step and
    /// lands if it arrives, in order; only then does every planet grow —
    /// except planets captured this very tick, which grow only from the
    /// next turn on.
    pub fn tick(&mut self)
        requires
            old(self).wf(),
            old(self).total_mass() <= MASS_LIMIT,
        ensures
            ({
                let r = move_phase(
                    old(self).planets@,
                    Seq::new(old(self).planets@.len(), |i: int| false),
                    old(self).ships@,
                );
                &&& final(self).planets@ == grow_phase(r.0, r.1)
                &&& final(self).ships@ == r.2
            }),
            final(self).num_players == old(self).num_players,
            final(self).size == old(self).size,
            final(self).planets@.len() == old(self).planets@.len(),
            final(self).wf(),
            final(self).total_mass() <= old(self).total_mass() + 3000 * old(
                self,
            ).planets@.len(),
    {
        let n = self.planets.len();
        let mut captured: Vec<bool> = vec![false; n];
        proof {
            assert(captured@ =~= Seq::new(old(self).planets@.len(), |i: int| false));
        }
        self.move_ships(&mut captured);
        let ghost mid = self.planets@;
        let ghost capmid = captured@;
        let ghost ships_mid = self.ships@;
        let ghost num0 = self.num_players;
        let ghost size0 = self.size;
        proof {
            assert forall|k: int| 0 <= k < self.planets@.len() implies planet_ok(
                num0,
                n as int,
                k,
                #[trigger] self.planets@[k],
            ) by {
                assert(self.planet_wf(k));
            }
            assert forall|k: int| 0 <= k < self.ships@.len() implies ship_ok(
                num0,
                self.planets@,
                #[trigger] self.ships@[k],
            ) by {
                assert(self.ship_wf(k));
            }
        }
        let mut i: usize = 0;
        while i < n
            invariant
                i <= n,
                n == self.planets@.len(),
                mid.len() == n,
                capmid.len() == n,
                self.num_players == num0,
                self.size == size0,
                self.ships@ == ships_mid,
                self.size.bounded(COORD_LIMIT as int),
                captured@ == capmid,
                forall|k: int| i <= k < n ==> self.planets@[k] == mid[k],
                forall|k: int|
                    0 <= k < i ==> self.planets@[k] == (if capmid[k] {
                        mid[k]
                    } else {
                        (#[trigger] mid[k]).grown()
                    }),
                planets_mass(self.planets@) <= planets_mass(mid) + 3000 * i,
                forall|k: int|
                    0 <= k < self.planets@.len() ==> planet_ok(
                        num0,
                        n as int,
                        k,
                        #[trigger] self.planets@[k],
                    ),
                forall|k: int|
                    0 <= k < self.ships@.len() ==> ship_ok(
                        num0,
                        self.planets@,
                        #[trigger] self.ships@[k],
                    ),
            decreases n - i,
        {
            let ghost planets_pre = self.planets@;
            if !captured[i] {
                proof {
                    assert(planet_ok(num0, n as int, i as int, planets_pre[i as int]));
                }
                let mut p = self.planets.remove(i);
                let ghost p_pre = p;
                p.grow();
                self.planets.insert(i, p);
                proof {
                    assert(self.planets@ =~= planets_pre.update(i as int, p_pre.grown()));
                    lemma_planets_mass_update(planets_pre, i as int, p_pre.grown());
                    assert(p.health <= p_pre.health + 3000);
                    assert forall|k: int| 0 <= k < self.planets@.len() implies planet_ok(
                        num0,
                        n as int,
                        k,
                        #[trigger] self.planets@[k],
                    ) by {
                        assert(planet_ok(num0, n as int, k, planets_pre[k]));
                    }
                    assert forall|k: int| 0 <= k < self.ships@.len() implies ship_ok(
                        num0,
                        self.planets@,
                        #[trigger] self.ships@[k],
                    ) by {
                        assert(ship_ok(num0, planets_pre, self.ships@[k]));
                        assert(self.planets@[self.ships@[k].target_id as int].pos
                            == planets_pre[self.ships@[k].target_id as int].pos);
                    }
                }
            }
            i = i + 1;
        }
        proof {
            assert(self.planets@ =~= grow_phase(mid, capmid));
            assert forall|k: int| 0 <= k < self.planets@.len() implies #[trigger] self.planet_wf(
                k,
            ) by {
                assert(planet_ok(num0, n as int, k, self.planets@[k]));
            }
            assert forall|k: int| 0 <= k < self.ships@.len() implies #[trigger] self.ship_wf(
                k,
            ) by {
                assert(ship_ok(num0, self.planets@, self.ships@[k]));
            }
        }
    }

    /// Whether the universe's total mass is within the engine's working
    /// range: hosts check this before each turn.
    pub fn mass_within_limit(&self) -> (r: bool)
        requires
            self.wf(),
        ensures
            r == (self.total_mass() <= MASS_LIMIT),
    {
        let mut acc: u64 = 0;
        let np = self.planets.len();
        let mut i: usize = 0;
        while i < np
            invariant
                self.wf(),
                i <= np,
                np == self.planets@.len(),
                acc == planets_mass(self.planets@.take(i as int)),
                acc <= MASS_LIMIT,
            decreases np - i,
        {
            proof {
                lemma_planets_mass_take_step(self.planets@, i as int);
                assert(self.planet_wf(i as int));
            }
            let h = self.planets[i].health;
            if h > MASS_LIMIT - acc {
                proof {
                    lemma_planets_mass_take_le(self.planets@, i as int + 1);
                    lemma_ships_mass_nonneg(self.ships@);
                }
                return false;
            }
            acc = acc + h;
            i = i + 1;
        }
        proof {
            assert(self.planets@.take(np as int) =~= self.planets@);
        }
        let ns = self.ships.len();
        let mut j: usize = 0;
        while j < ns
            invariant
                self.wf(),
                j <= ns,
                ns == self.ships@.len(),
                acc == planets_mass(self.planets@) + ships_mass(self.ships@.take(j as int)),
                acc <= MASS_LIMIT,
            decreases ns - j,
        {
            proof {
                lemma_ships_mass_take_step(self.ships@, j as int);
                assert(self.ship_wf(j as int));
            }
            let w = self.ships[j].power;
            if w > MASS_LIMIT - acc {
                proof {
                    lemma_ships_mass_take_le(self.ships@, j as int + 1);
                }
                return false;
            }
            acc = acc + w;
            j = j + 1;
        }
        proof {
            assert(self.ships@.take(ns as int) =~= self.ships@);
        }
        true
    }

    /// Everything player `p` holds: owned planets' health plus in-flight
    /// ships' power, in milli-units.
    pub open spec fn player_points(self, p: int) -> int {
        owned_mass(self.planets@, p) + fleet_mass(self.ships@, p)
    }

    /// A player's points truncated to whole units; the tie-break currency
    /// when a match runs out of turns.
    pub open spec fn player_score(self, p: int) -> int {
        self.player_points(p) / (SCALE as int)
    }

    /// Some other player scores at least as much as `p`: `p` holds no
    /// strict maximum.
    pub open spec fn score_matched(self, p: int) -> bool {
        exists|q: int|
            0 <= q < self.num_players && q != p && #[trigger] self.player_score(q)
                >= self.player_score(p)
    }

    /// The player holding strictly the most points, counting whole units
    /// only: owned planets' health plus in-flight ships' power, truncated.
    /// A tie at the top is a draw and names no one.
    pub fn player_with_most_points(&self) -> (r: Option<usize>)
        requires
            self.wf(),
            self.total_mass() <= MASS_LIMIT,
        ensures
            match r {
                Some(p) => p < self.num_players && forall|q: int|
                    0 <= q < self.num_players && q != p ==> #[trigger] self.player_score(q)
                        < self.player_score(p as int),
                None => forall|p: int|
                    0 <= p < self.num_players ==> #[trigger] self.score_matched(p),
            },
    {
        let n = self.num_players;
        if n == 0 {
            return None;
        }
        let mut points: Vec<u64> = vec![0; n];
        let np = self.planets.len();
        let mut i: usize = 0;
        while i < np
            invariant
                self.wf(),
                self.total_mass() <= MASS_LIMIT,
                n == self.num_players,
                i <= np,
                np == self.planets@.len(),
                points@.len() == n,
                forall|k: int|
                    0 <= k < n ==> (#[trigger] points@[k]) as int == owned_mass(
                        self.planets@.take(i as int),
                        k,
                    ),
            decreases np - i,
        {
            proof {
                assert(self.planet_wf(i as int));
                lemma_planets_mass_take_le(self.planets@, i as int + 1);
                lemma_ships_mass_nonneg(self.ships@);
            }
            match self.planets[i].owner {
                Some(o) => {
                    proof {
                        lemma_owned_mass_take_step(self.planets@, o as int, i as int);
                        lemma_owned_mass_le(self.planets@.take(i as int + 1), o as int);
                        assert forall|k: int| 0 <= k < n && k != o implies owned_mass(
                            self.planets@.take(i as int + 1),
                            k,
                        ) == owned_mass(self.planets@.take(i as int), k) by {
                            lemma_owned_mass_take_step(self.planets@, k, i as int);
                        }
                    }
                    let cur = points[o];
                    points.set(o, cur + self.planets[i].health);
                },
                None => {
                    proof {
                        assert forall|k: int| 0 <= k < n implies owned_mass(
                            self.planets@.take(i as int + 1),
                            k,
                        ) == owned_mass(self.planets@.take(i as int), k) by {
                            lemma_owned_mass_take_step(self.planets@, k, i as int);
                        }
                    }
                },
            }
            i = i + 1;
        }
        proof {
            assert(self.planets@.take(np as int) =~= self.planets@);
        }
        let ns = self.ships.len();
        let mut j: usize = 0;
        while j < ns
            invariant
                self.wf(),
                self.total_mass() <= MASS_LIMIT,
                n == self.num_players,
                j <= ns,
                ns == self.ships@.len(),
                points@.len() == n,
                forall|k: int|
                    0 <= k < n ==> (#[trigger] points@[k]) as int == owned_mass(self.planets@, k)
                        + fleet_mass(self.ships@.take(j as int), k),
            decreases ns - j,
        {
            proof {
                assert(self.ship_wf(j as int));
                lemma_planets_mass_nonneg(self.planets@);
                lemma_ships_mass_take_le(self.ships@, j as int + 1);
                lemma_owned_mass_le(self.planets@, self.ships@[j as int].owner as int);
                lemma_fleet_mass_le(
                    self.ships@.take(j as int + 1),
                    self.ships@[j as int].owner as int,
                );
                lemma_fleet_mass_take_step(
                    self.ships@,
                    self.ships@[j as int].owner as int,
                    j as int,
                );
                assert forall|k: int| 0 <= k < n && k != self.ships@[j as int].owner implies
                    fleet_mass(self.ships@.take(j as int + 1), k) == fleet_mass(
                    self.ships@.take(j as int),
                    k,
                ) by {
                    lemma_fleet_mass_take_step(self.ships@, k, j as int);
                }
            }
            let o = self.ships[j].owner;
            let cur = points[o];
            points.set(o, cur + self.ships[j].power);
            j = j + 1;
        }
        proof {
            assert(self.ships@.take(ns as int) =~= self.ships@);
            assert(forall|k: int|
                0 <= k < n ==> (#[trigger] points@[k]) as int == self.player_points(k));
        }
        // Truncate to whole units and pick the unique maximum.
        let mut best: usize = 0;
        let mut dup = false;
        let ghost mut other: int = 0;
        let mut k: usize = 1;
        while k < n
            invariant
                n == self.num_players,
                points@.len() == n,
                n >= 1,
                1 <= k <= n,
                best < k,
                forall|k2: int| 0 <= k2 < n ==> (#[trigger] points@[k2]) as int
                    == self.player_points(k2),
                forall|q: int|
                    0 <= q < k ==> (#[trigger] points@[q]) / SCALE <= points@[best as int] / SCALE,
                !dup ==> forall|q: int|
                    0 <= q < k && q != best ==> (#[trigger] points@[q]) / SCALE < points@[
                        best as int
                    ] / SCALE,
                dup ==> 0 <= other < k && other != best && points@[other] / SCALE == points@[
                    best as int
                ] / SCALE,
            decreases n - k,
        {
            if points[k] / SCALE > points[best] / SCALE {
                best = k;
                dup = false;
            } else if points[k] / SCALE == points[best] / SCALE {
                dup = true;
                proof {
                    other = k as int;
                }
            }
            k = k + 1;
        }
        proof {
            assert forall|q: int| 0 <= q < n implies #[trigger] self.player_score(q)
                == points@[q] / SCALE by {
                assert(points@[q] as int == self.player_points(q));
            }
        }
        if dup {
            proof {
                assert forall|p: int| 0 <= p < n implies #[trigger] self.score_matched(p) by {
                    assert(self.player_score(p) == points@[p] / SCALE);
                    assert(points@[p] / SCALE <= points@[best as int] / SCALE);
                    if p == best as int {
                        assert(self.player_score(other) == points@[other] / SCALE);
                        assert(0 <= other < n && other != p && self.player_score(other)
                            >= self.player_score(p));
                    } else {
                        assert(self.player_score(best as int) == points@[best as int] / SCALE);
                        assert(best < n);
                        assert(best as int != p && self.player_score(best as int)
                            >= self.player_score(p));
                    }
                }
            }
            None
        } else {
            proof {
                assert forall|q: int| 0 <= q < n && q != best as int implies
                    #[trigger] self.player_score(q) < self.player_score(best as int) by {
                    assert((points@[q]) / SCALE < points@[best as int] / SCALE);
                }
            }
            Some(best)
        }
    }

    /// The first planet whose disc contains the given point, if any:
    /// the point is inside when its distance to the center is at most the
    /// radius.
    pub fn planet_at_pos(&mut self, pos: Pos) -> (r: Option<usize>)
        requires
            old(self).wf(),
            pos.bounded(COORD_LIMIT as int),
        ensures
            *final(self) == *old(self),
            match r {
                Some(id) => id < old(self).planets@.len() && old(self).planets@[
                    id as int
                ].pos.dist(pos) <= old(self).planets@[id as int].radius && forall|j: int|
                    0 <= j < id ==> (#[trigger] old(self).planets@[j]).pos.dist(pos) > old(
                        self,
                    ).planets@[j].radius,
                None => forall|j: int|
                    0 <= j < old(self).planets@.len() ==> (#[trigger] old(self).planets@[
                        j
                    ]).pos.dist(pos) > old(self).planets@[j].radius,
            },
    {
        let n = self.planets.len();
        let mut i: usize = 0;
        while i < n
            invariant
                self.wf(),
                *self == *old(self),
                pos.bounded(COORD_LIMIT as int),
                i <= n,
                n == self.planets@.len(),
                forall|j: int|
                    0 <= j < i ==> (#[trigger] self.planets@[j]).pos.dist(pos)
                        > self.planets@[j].radius,
            decreases n - i,
        {
            proof {
                assert(self.planet_wf(i as int));
            }
            if self.planets[i].pos.distance_to(pos) <= self.planets[i].radius {
                return Some(self.planets[i].id);
            }
            i = i + 1;
        }
        None
    }
}

/// The health held by player `p` across a sequence of planets.
pub open spec fn owned_mass(s: Seq<Planet>, p: int) -> int
    decreases s.len(),
{
    if s.len() == 0 {
        0
    } else {
        (if s.first().owner == Some(p as usize) {
            s.first().health as int
        } else {
            0
        }) + owned_mass(s.drop_first(), p)
    }
}

/// The power in flight for player `p` across a sequence of ships.
pub open spec fn fleet_mass(s: Seq<Ship>, p: int) -> int
    decreases s.len(),
{
    if s.len() == 0 {
        0
    } else {
        (if s.first().owner == p {
            s.first().power as int
        } else {
            0
        }) + fleet_mass(s.drop_first(), p)
    }
}

/// One player's share never exceeds the whole, and is never negative.
pub proof fn lemma_owned_mass_le(s: Seq<Planet>, p: int)
    ensures
        0 <= owned_mass(s, p) <= planets_mass(s),
    decreases s.len(),
{
    if s.len() > 0 {
        lemma_owned_mass_le(s.drop_first(), p)
    }
}

pub proof fn lemma_fleet_mass_le(s: Seq<Ship>, p: int)
    ensures
        0 <= fleet_mass(s, p) <= ships_mass(s),
    decreases s.len(),
{
    if s.len() > 0 {
        lemma_fleet_mass_le(s.drop_first(), p)
    }
}

pub proof fn lemma_owned_mass_take_step(s: Seq<Planet>, p: int, i: int)
    requires
        0 <= i < s.len(),
    ensures
        owned_mass(s.take(i + 1), p) == owned_mass(s.take(i), p) + (if s[i].owner == Some(
            p as usize,
        ) {
            s[i].health as int
        } else {
            0
        }),
    decreases i,
{
    if i == 0 {
        assert(s.take(1).drop_first() =~= Seq::<Planet>::empty());
        assert(s.take(0) =~= Seq::<Planet>::empty());
    } else {
        assert(s.take(i + 1).drop_first() =~= s.drop_first().take(i));
        assert(s.take(i).drop_first() =~= s.drop_first().take(i - 1));
        lemma_owned_mass_take_step(s.drop_first(), p, i - 1);
    }
}

pub proof fn lemma_fleet_mass_take_step(s: Seq<Ship>, p: int, i: int)
    requires
        0 <= i < s.len(),
    ensures
        fleet_mass(s.take(i + 1), p) == fleet_mass(s.take(i), p) + (if s[i].owner == p {
            s[i].power as int
        } else {
            0
        }),
    decreases i,
{
    if i == 0 {
        assert(s.take(1).drop_first() =~= Seq::<Ship>::empty());
        assert(s.take(0) =~= Seq::<Ship>::empty());
    } else {
        assert(s.take(i + 1).drop_first() =~= s.drop_first().take(i));
        assert(s.take(i).drop_first() =~= s.drop_first().take(i - 1));
        lemma_fleet_mass_take_step(s.drop_first(), p, i - 1);
    }
}

/// One landing applied to a planet sequence: the ship's target planet
/// resolves combat, every other planet is untouched.
pub open spec fn land_seq(planets: Seq<Planet>, s: Ship) -> Seq<Planet> {
    planets.update(s.target_id as int, planets[s.target_id as int].landed(s))
}

/// Mark the ship's target captured when this landing captures it.
pub open spec fn capture_seq(planets: Seq<Planet>, captured: Seq<bool>, s: Ship) -> Seq<bool> {
    if planets[s.target_id as int].combat_case(s) == Combat::Captured {
        captured.update(s.target_id as int, true)
    } else {
        captured
    }
}

/// The movement phase of one tick: every ship advances one step, in order;
/// a ship that comes within one step of its target lands on it at once and
/// is gone, the rest survive in their original order. Landings are resolved
/// planet state as left by the previous landing; `captured` records which
/// planets changed hands.
pub open spec fn move_phase(planets: Seq<Planet>, captured: Seq<bool>, ships: Seq<Ship>) -> (
    Seq<Planet>,
    Seq<bool>,
    Seq<Ship>,
)
    decreases ships.len(),
{
    if ships.len() == 0 {
        (planets, captured, ships)
    } else {
        let s = ships.first().moved();
        let rest = ships.drop_first();
        if s.spec_reached() {
            move_phase(land_seq(planets, s), capture_seq(planets, captured, s), rest)
        } else {
            let r = move_phase(planets, captured, rest);
            (r.0, r.1, seq![s] + r.2)
        }
    }
}

/// The growth phase of one tick: every planet grows, except those captured
/// by a landing this tick — a planet taken this turn starts growing for its
/// new owner only on the following turn.
pub open spec fn grow_phase(planets: Seq<Planet>, captured: Seq<bool>) -> Seq<Planet> {
    Seq::new(
        planets.len(),
        |i: int|
            if captured[i] {
                planets[i]
            } else {
                planets[i].grown()
            },
    )
}

/// Growth never touches a planet captured this tick, and applies exactly
/// one `grown()` step to every other planet.
pub proof fn lemma_captured_skips_growth(planets: Seq<Planet>, captured: Seq<bool>, i: int)
    requires
        0 <= i < planets.len(),
    ensures
        captured[i] ==> grow_phase(planets, captured)[i] == planets[i],
        !captured[i] ==> grow_phase(planets, captured)[i] == planets[i].grown(),
{
}

/// An accepted travel command drains exactly the ship's power from the
/// source planet — touching nothing else about it or any other planet — and
/// appends exactly one ship owned by the commanding player, carrying that
/// power, aimed at the target planet.
pub proof fn lemma_travel_effect(u: Universe, v: Universe, player: usize, power: i64, from: usize, to: usize)
    requires
        u.wf(),
        u.travel_check(player, power, from, to) is Ok,
        v.planets@ == u.planets@.update(from as int, u.drained_planet(power as u64, from)),
        v.ships@ == u.ships@.push(u.launched_ship(player, power as u64, from, to)),
    ensures
        0 < power,
        v.planets@[from as int].health == u.planets@[from as int].health - power,
        v.planets@[from as int].owner == u.planets@[from as int].owner,
        v.planets@[from as int].id == u.planets@[from as int].id,
        v.planets@[from as int].pos == u.planets@[from as int].pos,
        v.planets@[from as int].radius == u.planets@[from as int].radius,
        v.planets@[from as int].neighbors == u.planets@[from as int].neighbors,
        forall|j: int| 0 <= j < u.planets@.len() && j != from ==> v.planets@[j] == u.planets@[j],
        v.ships@.len() == u.ships@.len() + 1,
        v.ships@.last() == (Ship {
            owner: player,
            power: power as u64,
            pos: u.planets@[from as int].pos,
            target: u.planets@[to as int].pos,
            target_id: to,
        }),
        forall|j: int| 0 <= j < u.ships@.len() ==> v.ships@[j] == u.ships@[j],
{
}

/// The first `i` planets account for part of the total.
pub proof fn lemma_planets_mass_take_step(s: Seq<Planet>, i: int)
    requires
        0 <= i < s.len(),
    ensures
        planets_mass(s.take(i + 1)) == planets_mass(s.take(i)) + s[i].health,
    decreases i,
{
    if i == 0 {
        assert(s.take(1).drop_first() =~= Seq::<Planet>::empty());
        assert(s.take(0) =~= Seq::<Planet>::empty());
    } else {
        assert(s.take(i + 1).drop_first() =~= s.drop_first().take(i));
        assert(s.take(i).drop_first() =~= s.drop_first().take(i - 1));
        lemma_planets_mass_take_step(s.drop_first(), i - 1);
    }
}

/// A prefix never outweighs the whole sequence.
pub proof fn lemma_planets_mass_take_le(s: Seq<Planet>, i: int)
    requires
        0 <= i <= s.len(),
    ensures
        planets_mass(s.take(i)) <= planets_mass(s),
    decreases s.len(),
{
    if i == 0 {
        assert(s.take(0) =~= Seq::<Planet>::empty());
        lemma_planets_mass_nonneg(s);
    } else {
        assert(s.take(i).drop_first() =~= s.drop_first().take(i - 1));
        lemma_planets_mass_take_le(s.drop_first(), i - 1);
    }
}

pub proof fn lemma_ships_mass_take_step(s: Seq<Ship>, i: int)
    requires
        0 <= i < s.len(),
    ensures
        ships_mass(s.take(i + 1)) == ships_mass(s.take(i)) + s[i].power,
    decreases i,
{
    if i == 0 {
        assert(s.take(1).drop_first() =~= Seq::<Ship>::empty());
        assert(s.take(0) =~= Seq::<Ship>::empty());
    } else {
        assert(s.take(i + 1).drop_first() =~= s.drop_first().take(i));
        assert(s.take(i).drop_first() =~= s.drop_first().take(i - 1));
        lemma_ships_mass_take_step(s.drop_first(), i - 1);
    }
}

pub proof fn lemma_ships_mass_take_le(s: Seq<Ship>, i: int)
    requires
        0 <= i <= s.len(),
    ensures
        ships_mass(s.take(i)) <= ships_mass(s),
    decreases s.len(),
{
    if i == 0 {
        assert(s.take(0) =~= Seq::<Ship>::empty());
        lemma_ships_mass_nonneg(s);
    } else {
        assert(s.take(i).drop_first() =~= s.drop_first().take(i - 1));
        lemma_ships_mass_take_le(s.drop_first(), i - 1);
    }
}

/// Whether a neighbor list contains an id.
pub fn contains_id(v: &Vec<usize>, x: usize) -> (r: bool)
    ensures
        r == v@.contains(x),
{
    let n = v.len();
    let mut i: usize = 0;
    while i < n
        invariant
            i <= n,
            n == v@.len(),
            forall|k: int| 0 <= k < i ==> v@[k] != x,
        decreases n - i,
    {
        if v[i] == x {
            return true;
        }
        i = i + 1;
    }
    false
}

} // verus!
