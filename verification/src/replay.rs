//! Replay data: everything needed to reconstruct a match deterministically —
//! seed, map layout, per-turn events, and final statistics. Scores are kept
//! as exact milli-unit masses with their common total; persisting the record
//! is a host concern.

use vstd::prelude::*;
use crate::pos::Pos;
use crate::universe::{fleet_mass, owned_mass, planets_mass, ships_mass, Universe};
use crate::universe::{
    lemma_fleet_mass_take_step, lemma_owned_mass_le, lemma_owned_mass_take_step,
    lemma_planets_mass_take_le, lemma_planets_mass_take_step, lemma_ships_mass_nonneg,
    lemma_ships_mass_take_le, lemma_ships_mass_take_step,
};
use crate::MASS_LIMIT;

verus! {

/// A planet as the replay records it: static layout plus the owner it had
/// when the record was written.
pub struct Planet {
    pub pos: Pos,
    pub radius: u64,
    pub neighbors: Vec<usize>,
    pub owner: Option<usize>,
}

/// One recorded bot event in a turn.
pub enum Event {
    /// A travel command: power in milli-units, source and target planet ids.
    SendShip(i64, usize, usize),
    /// A comment line the bot logged.
    Log(String),
    /// A malformed line, kept for diagnosis.
    Error(String),
}

/// Match identity: the seed and map dimensions the engine was started with,
/// and the bots that played.
pub struct Info {
    pub seed: i32,
    pub map_width: i64,
    pub map_height: i64,
    pub bot_names: Vec<String>,
}

/// Final statistics. The two bot scores and their common total are exact
/// milli-unit masses; a normalized score is the quotient of the two.
pub struct Stats {
    pub winner: Option<usize>,
    pub game_result: String,
    pub turns: usize,
    pub score_bot1: u64,
    pub score_bot2: u64,
    pub score_total: u64,
}

/// A full match record: for each turn, for each player, a list of events,
/// over the static map they were played on.
pub struct Replay {
    pub info: Info,
    pub stats: Stats,
    pub planets: Vec<Planet>,
    pub events: Vec<Vec<Vec<Event>>>,
}

/// A copy of a neighbor list.
pub(crate) fn copy_ids(v: &Vec<usize>) -> (r: Vec<usize>)
    ensures
        r@ == v@,
{
    let mut r: Vec<usize> = Vec::new();
    let n = v.len();
    let mut i: usize = 0;
    while i < n
        invariant
            i <= n,
            n == v@.len(),
            r@ == v@.take(i as int),
        decreases n - i,
    {
        r.push(v[i]);
        proof {
            assert(r@ =~= v@.take(i as int + 1));
        }
        i = i + 1;
    }
    proof {
        assert(v@.take(n as int) =~= v@);
    }
    r
}

impl Replay {
    /// Record a finished match: the map as it stands, the per-turn events,
    /// and exact final scores — each bot's held mass over the total mass on
    /// the board.
    pub fn new(
        universe: &Universe,
        info: Info,
        events: Vec<Vec<Vec<Event>>>,
        game_result: String,
        winner: Option<usize>,
    ) -> (r: Replay)
        requires
            universe.wf(),
            universe.total_mass() <= MASS_LIMIT,
        ensures
            r.info == info,
            r.stats.winner == winner,
            r.stats.game_result == game_result,
            r.stats.turns == events@.len(),
            r.stats.score_bot1 as int == universe.player_points(0),
            r.stats.score_bot2 as int == universe.player_points(1),
            r.stats.score_total as int == universe.total_mass(),
            r.events == events,
            r.planets@.len() == universe.planets@.len(),
            forall|i: int|
                0 <= i < universe.planets@.len() ==> {
                    &&& (#[trigger] r.planets@[i]).pos == universe.planets@[i].pos
                    &&& r.planets@[i].radius == universe.planets@[i].radius
                    &&& r.planets@[i].owner == universe.planets@[i].owner
                    &&& r.planets@[i].neighbors@ == universe.planets@[i].neighbors@
                },
    {
        let np = universe.planets.len();
        let mut s0: u64 = 0;
        let mut s1: u64 = 0;
        let mut total: u64 = 0;
        let mut planets: Vec<Planet> = Vec::new();
        let mut i: usize = 0;
        while i < np
            invariant
                universe.wf(),
                universe.total_mass() <= MASS_LIMIT,
                i <= np,
                np == universe.planets@.len(),
                s0 as int == owned_mass(universe.planets@.take(i as int), 0),
                s1 as int == owned_mass(universe.planets@.take(i as int), 1),
                total as int == planets_mass(universe.planets@.take(i as int)),
                total <= MASS_LIMIT,
                s0 <= total,
                s1 <= total,
                planets@.len() == i,
                forall|k: int|
                    0 <= k < i ==> {
                        &&& (#[trigger] planets@[k]).pos == universe.planets@[k].pos
                        &&& planets@[k].radius == universe.planets@[k].radius
                        &&& planets@[k].owner == universe.planets@[k].owner
                        &&& planets@[k].neighbors@ == universe.planets@[k].neighbors@
                    },
            decreases np - i,
        {
            proof {
                assert(universe.planet_wf(i as int));
                lemma_planets_mass_take_step(universe.planets@, i as int);
                lemma_planets_mass_take_le(universe.planets@, i as int + 1);
                lemma_ships_mass_nonneg(universe.ships@);
                lemma_owned_mass_take_step(universe.planets@, 0, i as int);
                lemma_owned_mass_take_step(universe.planets@, 1, i as int);
                lemma_owned_mass_le(universe.planets@.take(i as int + 1), 0);
                lemma_owned_mass_le(universe.planets@.take(i as int + 1), 1);
            }
            let p = &universe.planets[i];
            match p.owner {
                Some(o) => {
                    if o == 0 {
                        s0 = s0 + p.health;
                    } else if o == 1 {
                        s1 = s1 + p.health;
                    }
                },
                None => {},
            }
            total = total + p.health;
            planets.push(Planet {
                pos: p.pos,
                radius: p.radius,
                neighbors: copy_ids(&p.neighbors),
                owner: p.owner,
            });
            i = i + 1;
        }
        proof {
            assert(universe.planets@.take(np as int) =~= universe.planets@);
        }
        let ns = universe.ships.len();
        let mut j: usize = 0;
        while j < ns
            invariant
                universe.wf(),
                universe.total_mass() <= MASS_LIMIT,
                j <= ns,
                ns == universe.ships@.len(),
                s0 as int == owned_mass(universe.planets@, 0) + fleet_mass(
                    universe.ships@.take(j as int),
                    0,
                ),
                s1 as int == owned_mass(universe.planets@, 1) + fleet_mass(
                    universe.ships@.take(j as int),
                    1,
                ),
                total as int == planets_mass(universe.planets@) + ships_mass(
                    universe.ships@.take(j as int),
                ),
                total <= MASS_LIMIT,
                s0 <= total,
                s1 <= total,
            decreases ns - j,
        {
            proof {
                assert(universe.ship_wf(j as int));
                lemma_ships_mass_take_step(universe.ships@, j as int);
                lemma_ships_mass_take_le(universe.ships@, j as int + 1);
                lemma_fleet_mass_take_step(universe.ships@, 0, j as int);
                lemma_fleet_mass_take_step(universe.ships@, 1, j as int);
            }
            let s = &universe.ships[j];
            if s.owner == 0 {
                s0 = s0 + s.power;
            } else if s.owner == 1 {
                s1 = s1 + s.power;
            }
            total = total + s.power;
            j = j + 1;
        }
        proof {
            assert(universe.ships@.take(ns as int) =~= universe.ships@);
        }
        let turns = events.len();
        Replay {
            info,
            stats: Stats {
                winner,
                game_result,
                turns,
                score_bot1: s0,
                score_bot2: s1,
                score_total: total,
            },
            planets,
            events,
        }
    }
}

} // verus!
