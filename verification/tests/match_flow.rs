//! Whole-match behavior: travel validation, tick ordering, win detection,
//! scoring, map generation and replay reconstruction.

use planetwars::adjacency::AdjacencyMatrix;
use planetwars::planet::Planet;
use planetwars::pos::Pos;
use planetwars::replay::{Event, Info, Replay};
use planetwars::universe::{TravelError, Universe};
use rand::SeedableRng;

fn planet(
    id: usize,
    x: i64,
    y: i64,
    radius: u64,
    owner: Option<usize>,
    health: u64,
    neighbors: Vec<usize>,
) -> Planet {
    Planet { id, pos: Pos { x, y }, radius, owner, health, neighbors }
}

/// Two planets a hundred units apart, mutually connected: planet 0 owned by
/// player 0 with 50 health, planet 1 neutral with 10 health.
fn two_planet_universe() -> Universe {
    Universe {
        num_players: 2,
        size: Pos { x: 800_000, y: 600_000 },
        planets: vec![
            planet(0, 0, 0, 20_000, Some(0), 50_000, vec![1]),
            planet(1, 100_000, 0, 20_000, None, 10_000, vec![0]),
        ],
        ships: Vec::new(),
    }
}

#[test]
fn travel_deducts_power_and_launches_the_ship() {
    let mut u = two_planet_universe();
    let r = u.try_travel(0, 30_000, 0, 1);
    assert_eq!(r, Ok(()));
    assert_eq!(u.planets[0].health, 20_000);
    assert_eq!(u.planets[0].owner, Some(0));
    assert_eq!(u.ships.len(), 1);
    let s = &u.ships[0];
    assert_eq!(s.owner, 0);
    assert_eq!(s.power, 30_000);
    assert_eq!(s.pos, Pos { x: 0, y: 0 });
    assert_eq!(s.target, Pos { x: 100_000, y: 0 });
    assert_eq!(s.target_id, 1);
}

#[test]
fn travel_rejections_leave_the_universe_untouched() {
    let mut u = two_planet_universe();
    // self target
    assert_eq!(u.try_travel(0, 5_000, 0, 0), Err(TravelError::SelfTarget));
    // out-of-range ids
    assert_eq!(u.try_travel(0, 5_000, 7, 1), Err(TravelError::FromOutOfRange));
    assert_eq!(u.try_travel(0, 5_000, 0, 7), Err(TravelError::ToOutOfRange));
    // unknown player
    assert_eq!(u.try_travel(5, 5_000, 0, 1), Err(TravelError::UnknownPlayer));
    // source not owned by the commanding player
    assert_eq!(u.try_travel(1, 5_000, 0, 1), Err(TravelError::NotOwned));
    // not a neighbor: sending from the neutral planet is caught by ownership,
    // so cut the link instead
    let mut v = two_planet_universe();
    v.planets[0].neighbors.clear();
    assert_eq!(v.try_travel(0, 5_000, 0, 1), Err(TravelError::NotNeighbor));
    // power must be positive
    assert_eq!(u.try_travel(0, 0, 0, 1), Err(TravelError::NonPositivePower));
    assert_eq!(u.try_travel(0, -3, 0, 1), Err(TravelError::NonPositivePower));
    // the source must keep at least one unit of health
    assert_eq!(u.try_travel(0, 49_001, 0, 1), Err(TravelError::InsufficientHealth));
    // nothing changed
    assert_eq!(u.planets[0].health, 50_000);
    assert_eq!(u.planets[1].health, 10_000);
    assert_eq!(u.ships.len(), 0);
}

#[test]
fn boundary_travel_leaves_exactly_one_unit() {
    let mut u = two_planet_universe();
    // 50 - 49 = 1.0 health exactly: allowed
    assert_eq!(u.try_travel(0, 49_000, 0, 1), Ok(()));
    assert_eq!(u.planets[0].health, 1_000);
}

#[test]
fn capture_scenario_across_a_full_flight() {
    let mut u = two_planet_universe();
    assert_eq!(u.try_travel(0, 30_000, 0, 1), Ok(()));
    // distance 100 units at 15 per tick: after the sixth move the remaining
    // 10 units are within one step, so the ship lands on tick 6
    let mut ticks = 0;
    while !u.ships.is_empty() {
        u.tick();
        ticks += 1;
        assert!(ticks <= 7);
    }
    assert_eq!(ticks, 6);
    // captured: 30 - 10 = 20 health for player 0, and no growth on the
    // capture tick itself
    assert_eq!(u.planets[1].owner, Some(0));
    assert_eq!(u.planets[1].health, 20_000);
    // the source planet grew one unit (5% of radius 20) on each tick
    assert_eq!(u.planets[0].health, 20_000 + 6_000);
    // from the next tick on, the captured planet grows for its new owner
    u.tick();
    assert_eq!(u.planets[1].health, 21_000);
}

#[test]
fn captured_planet_does_not_grow_that_tick() {
    // the ship lands on the very first tick
    let mut u = Universe {
        num_players: 2,
        size: Pos { x: 800_000, y: 600_000 },
        planets: vec![
            planet(0, 0, 0, 20_000, Some(0), 50_000, vec![1]),
            planet(1, 20_000, 0, 20_000, None, 4_000, vec![0]),
        ],
        ships: Vec::new(),
    };
    assert_eq!(u.try_travel(0, 10_000, 0, 1), Ok(()));
    u.tick();
    assert_eq!(u.ships.len(), 0);
    assert_eq!(u.planets[1].owner, Some(0));
    // 10 - 4 = 6 exactly: growth skipped on the capture tick
    assert_eq!(u.planets[1].health, 6_000);
}

#[test]
fn winner_needs_exactly_one_distinct_owner() {
    let mut u = two_planet_universe();
    assert_eq!(u.try_get_winner(), Some(0));
    u.planets[1].owner = Some(1);
    assert_eq!(u.try_get_winner(), None);
    u.planets[0].owner = None;
    u.planets[1].owner = None;
    assert_eq!(u.try_get_winner(), None);
}

#[test]
fn most_points_counts_planets_and_ships_truncated() {
    let mut u = two_planet_universe();
    u.planets[1].owner = Some(1);
    // player 0: 50 units of planet health; player 1: 10
    assert_eq!(u.player_with_most_points(), Some(0));
    // give player 1 a ship worth 40.5 units: 10 + 40.5 truncates to 50, a tie
    u.ships.push(planetwars::ship::Ship {
        owner: 1,
        power: 40_500,
        pos: Pos { x: 0, y: 0 },
        target: Pos { x: 100_000, y: 0 },
        target_id: 1,
    });
    assert_eq!(u.player_with_most_points(), None);
    // a fraction of a unit more still truncates to the same tie
    u.ships[0].power = 40_999;
    assert_eq!(u.player_with_most_points(), None);
    // one more whole unit breaks the tie the other way
    u.ships[0].power = 41_000;
    assert_eq!(u.player_with_most_points(), Some(1));
}

#[test]
fn planet_at_pos_finds_the_containing_disc() {
    let mut u = two_planet_universe();
    assert_eq!(u.planet_at_pos(Pos { x: 5_000, y: 5_000 }), Some(0));
    assert_eq!(u.planet_at_pos(Pos { x: 110_000, y: 10_000 }), Some(1));
    assert_eq!(u.planet_at_pos(Pos { x: 50_000, y: 50_000 }), None);
}

#[test]
fn mass_stays_within_the_working_limit() {
    let u = two_planet_universe();
    assert!(u.mass_within_limit());
}

#[test]
fn visibility_is_blocked_by_a_planet_on_the_segment() {
    let clear = vec![
        planet(0, 0, 0, 20_000, None, 10_000, Vec::new()),
        planet(1, 200_000, 0, 20_000, None, 10_000, Vec::new()),
    ];
    let m = AdjacencyMatrix::new(&clear);
    assert_eq!(m.distance(0, 1), Some(200_000));
    assert_eq!(m.distance(1, 0), Some(200_000));

    let blocked = vec![
        planet(0, 0, 0, 20_000, None, 10_000, Vec::new()),
        planet(1, 200_000, 0, 20_000, None, 10_000, Vec::new()),
        planet(2, 100_000, 0, 20_000, None, 10_000, Vec::new()),
    ];
    let m2 = AdjacencyMatrix::new(&blocked);
    assert_eq!(m2.distance(0, 1), None);
    // the blocker still sees both endpoints
    assert_eq!(m2.distance(0, 2), Some(100_000));
    assert_eq!(m2.distance(2, 1), Some(100_000));
}

#[test]
fn universe_new_assigns_home_planets() {
    let planets = vec![
        planet(0, 0, 0, 20_000, None, 33_000, vec![1]),
        planet(1, 700_000, 500_000, 20_000, None, 33_000, vec![0]),
        planet(2, 300_000, 300_000, 25_000, None, 41_250, Vec::new()),
    ];
    let u = Universe::new(2, Pos { x: 800_000, y: 600_000 }, planets);
    assert_eq!(u.num_players, 2);
    assert_eq!(u.planets[0].owner, Some(0));
    assert_eq!(u.planets[1].owner, Some(1));
    assert_eq!(u.planets[2].owner, None);
    assert!(u.ships.is_empty());
}

#[test]
fn generated_maps_are_symmetric_and_reach_the_enemy() {
    let mut rng = rand::rngs::StdRng::seed_from_u64(42);
    let size = Pos { x: 800_000, y: 600_000 };
    let u = Universe::random(&mut rng, size, 10).expect("map generation failed");
    assert_eq!(u.num_players, 2);
    assert_eq!(u.planets.len(), 20);
    assert!(u.ships.is_empty());
    for (i, p) in u.planets.iter().enumerate() {
        assert_eq!(p.id, i);
        assert!(p.radius >= 20_000 && p.radius <= 40_000);
        // mirrored pairs share a radius and sum to the map size
        if i % 2 == 0 {
            let q = &u.planets[i + 1];
            assert_eq!(p.radius, q.radius);
            assert_eq!(p.pos.x + q.pos.x, size.x);
            assert_eq!(p.pos.y + q.pos.y, size.y);
        }
        // every neighbor points back, as often as it is listed
        for &nb in &p.neighbors {
            assert!(nb < u.planets.len());
            let here = p.neighbors.iter().filter(|&&t| t == nb).count();
            let back = u.planets[nb].neighbors.iter().filter(|&&t| t == i).count();
            assert_eq!(here, back);
            // and the edge passes the visibility test: no third planet's
            // inflated disc blocks the segment between the centers
            for (k, blocker) in u.planets.iter().enumerate() {
                if k != i && k != nb {
                    let d = blocker.pos.distance_to_line_segment(p.pos, u.planets[nb].pos);
                    assert!((d as u128) * 10 >= 11 * (blocker.radius as u128));
                }
            }
        }
        // non-mirror planets keep the minimum placement distance
        for (j, q) in u.planets.iter().enumerate() {
            if j > i && !(j == i + 1 && i % 2 == 0) {
                assert!(p.pos.distance_to(q.pos) >= 85_000);
            }
        }
    }
    // some home-lineage planet reaches the opposing lineage
    let mut cross = false;
    for p in u.planets.iter().step_by(2) {
        if p.neighbors.iter().any(|&nb| nb % 2 != 0) {
            cross = true;
        }
    }
    assert!(cross);
    // the same seed reproduces the same map
    let mut rng2 = rand::rngs::StdRng::seed_from_u64(42);
    let v = Universe::random(&mut rng2, size, 10).expect("map generation failed");
    for (p, q) in u.planets.iter().zip(v.planets.iter()) {
        assert_eq!(p.pos, q.pos);
        assert_eq!(p.radius, q.radius);
        assert_eq!(p.neighbors, q.neighbors);
    }
}

#[test]
fn replay_records_exact_scores_and_reloads() {
    let mut u = two_planet_universe();
    u.planets[1].owner = Some(1);
    u.ships.push(planetwars::ship::Ship {
        owner: 1,
        power: 2_500,
        pos: Pos { x: 0, y: 0 },
        target: Pos { x: 100_000, y: 0 },
        target_id: 1,
    });
    let info = Info {
        seed: 7,
        map_width: 800_000,
        map_height: 600_000,
        bot_names: vec![String::from("alpha"), String::from("beta")],
    };
    let events: Vec<Vec<Vec<Event>>> = vec![vec![vec![Event::SendShip(2_500, 1, 0)], vec![]]];
    let replay = Replay::new(&u, info, events, String::from("Winner"), Some(0));
    assert_eq!(replay.stats.turns, 1);
    assert_eq!(replay.stats.winner, Some(0));
    assert_eq!(replay.stats.score_bot1, 50_000);
    assert_eq!(replay.stats.score_bot2, 12_500);
    assert_eq!(replay.stats.score_total, 62_500);
    assert_eq!(replay.planets.len(), 2);
    assert_eq!(replay.planets[1].owner, Some(1));

    let reloaded = Universe::load_replay(&replay).expect("replay should load");
    assert_eq!(reloaded.num_players, 2);
    assert_eq!(reloaded.planets.len(), 2);
    // the reloaded universe starts fresh: recorded geometry, starting
    // health, home owners reassigned, no ships
    assert_eq!(reloaded.planets[0].pos, u.planets[0].pos);
    assert_eq!(reloaded.planets[1].pos, u.planets[1].pos);
    assert_eq!(reloaded.planets[0].neighbors, vec![1]);
    assert_eq!(reloaded.planets[0].owner, Some(0));
    assert_eq!(reloaded.planets[1].owner, Some(1));
    assert_eq!(reloaded.planets[0].health, 33_000);
    assert!(reloaded.ships.is_empty());
}

#[test]
fn replay_reconstructs_the_match() {
    let mut rng = rand::rngs::StdRng::seed_from_u64(7);
    let size = Pos { x: 800_000, y: 600_000 };
    let mut u = Universe::random(&mut rng, size, 10).expect("map generation failed");
    // script a few turns: each player ships two units from its home planet
    // to the home's first neighbor whenever that command is legal
    let mut events: Vec<Vec<Vec<Event>>> = Vec::new();
    for _turn in 0..5 {
        let mut turn_events: Vec<Vec<Event>> = Vec::new();
        for player in 0..2 {
            let mut evs: Vec<Event> = Vec::new();
            let from = player;
            if let Some(&to) = u.planets[from].neighbors.first() {
                if u.try_travel(player, 2_000, from, to).is_ok() {
                    evs.push(Event::SendShip(2_000, from, to));
                }
            }
            turn_events.push(evs);
        }
        events.push(turn_events);
        u.tick();
    }
    let info = Info {
        seed: 7,
        map_width: size.x,
        map_height: size.y,
        bot_names: vec![String::from("alpha"), String::from("beta")],
    };
    let replay = Replay::new(&u, info, events, String::from("MaxTurnsReached"), None);
    // replaying the recorded commands against a universe rebuilt from the
    // record reproduces the match exactly
    let mut v = Universe::load_replay(&replay).expect("replay should load");
    for turn in &replay.events {
        for (player, evs) in turn.iter().enumerate() {
            for e in evs {
                if let Event::SendShip(power, from, to) = e {
                    assert_eq!(v.try_travel(player, *power, *from, *to), Ok(()));
                }
            }
        }
        v.tick();
    }
    assert_eq!(u.planets.len(), v.planets.len());
    for (p, q) in u.planets.iter().zip(v.planets.iter()) {
        assert_eq!(p.owner, q.owner);
        assert_eq!(p.health, q.health);
    }
    assert_eq!(u.ships.len(), v.ships.len());
    for (s, t) in u.ships.iter().zip(v.ships.iter()) {
        assert_eq!(s.power, t.power);
        assert_eq!(s.pos, t.pos);
        assert_eq!(s.target_id, t.target_id);
    }
}

#[test]
fn load_replay_rejects_illegal_maps() {
    let info = Info {
        seed: 0,
        map_width: 800_000,
        map_height: 600_000,
        bot_names: vec![String::from("alpha"), String::from("beta")],
    };
    // a neighbor id out of range
    let bad = Replay {
        info,
        stats: planetwars::replay::Stats {
            winner: None,
            game_result: String::from("Winner"),
            turns: 0,
            score_bot1: 0,
            score_bot2: 0,
            score_total: 0,
        },
        planets: vec![
            planetwars::replay::Planet {
                pos: Pos { x: 0, y: 0 },
                radius: 20_000,
                neighbors: vec![9],
                owner: None,
            },
            planetwars::replay::Planet {
                pos: Pos { x: 100_000, y: 0 },
                radius: 20_000,
                neighbors: Vec::new(),
                owner: None,
            },
        ],
        events: Vec::new(),
    };
    assert!(Universe::load_replay(&bad).is_none());
}

#[test]
fn travel_error_messages_name_the_cause() {
    assert_eq!(
        TravelError::SelfTarget.message(),
        "Attempt to send a ship to its planet of origin"
    );
    assert_eq!(
        TravelError::NotNeighbor.message(),
        "Attempt to send a ship to a planet that is not a neighbor"
    );
}
