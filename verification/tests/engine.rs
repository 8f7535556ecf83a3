//! Unit tests for the fixed-point geometry, planet growth and combat, and
//! ship movement. All quantities are milli-units: 1000 is one game unit.

use planetwars::planet::{Combat, Planet};
use planetwars::pos::{isqrt, Pos};
use planetwars::ship::Ship;

fn planet(id: usize, x: i64, y: i64, radius: u64, owner: Option<usize>, health: u64) -> Planet {
    Planet { id, pos: Pos { x, y }, radius, owner, health, neighbors: Vec::new() }
}

fn ship(owner: usize, power: u64, pos: Pos, target: Pos, target_id: usize) -> Ship {
    Ship { owner, power, pos, target, target_id }
}

#[test]
fn isqrt_exact_values() {
    assert_eq!(isqrt(0), 0);
    assert_eq!(isqrt(1), 1);
    assert_eq!(isqrt(15), 3);
    assert_eq!(isqrt(16), 4);
    assert_eq!(isqrt(2_000_000), 1414);
    assert_eq!(isqrt(u64::MAX), 4_294_967_295);
}

#[test]
fn distance_is_euclidean_rounded_down() {
    let a = Pos { x: 0, y: 0 };
    let b = Pos { x: 3000, y: 4000 };
    assert_eq!(a.distance_to(b), 5000);
    let c = Pos { x: 1000, y: 1000 };
    assert_eq!(a.distance_to(c), 1414);
    assert_eq!(a.distance_to(a), 0);
}

#[test]
fn direction_and_unit_direction() {
    let a = Pos { x: 1000, y: 2000 };
    let b = Pos { x: 4000, y: 6000 };
    let d = a.direction_to(b);
    assert_eq!(d, Pos { x: 3000, y: 4000 });
    // distance 5000; the unit vector is scaled to milli-units
    let u = a.unit_direction_to(b);
    assert_eq!(u, Pos { x: 600, y: 800 });
}

#[test]
fn segment_distance_cases() {
    let a = Pos { x: -1000, y: 0 };
    let b = Pos { x: 1000, y: 0 };
    // perpendicular case: straight above the middle
    let p = Pos { x: 0, y: 1000 };
    assert_eq!(p.distance_to_line_segment(a, b), 1000);
    // past the end: the closest point is b
    let q = Pos { x: 3000, y: 4000 };
    let expect = q.distance_to(b);
    assert_eq!(q.distance_to_line_segment(a, b), expect);
    // before the start: the closest point is a
    let r = Pos { x: -5000, y: 3000 };
    assert_eq!(r.distance_to_line_segment(a, b), r.distance_to(a));
    // degenerate segment: distance to the point
    assert_eq!(p.distance_to_line_segment(a, a), p.distance_to(a));
}

#[test]
fn new_planet_starts_at_a_third_of_its_cap() {
    let p = Planet::new(3, Pos { x: 0, y: 0 }, 20_000, Vec::new());
    assert_eq!(p.id, 3);
    assert_eq!(p.owner, None);
    // radius * 5 * 0.33 = radius * 165 / 100
    assert_eq!(p.health, 33_000);
}

#[test]
fn grow_is_a_no_op_without_an_owner() {
    let mut p = planet(0, 0, 0, 20_000, None, 42_000);
    p.grow();
    assert_eq!(p.health, 42_000);
    assert_eq!(p.owner, None);
}

#[test]
fn grow_adds_five_percent_of_radius() {
    let mut p = planet(0, 0, 0, 20_000, Some(1), 50_000);
    p.grow();
    assert_eq!(p.health, 51_000);
}

#[test]
fn grow_clamps_at_five_radii() {
    let mut p = planet(0, 0, 0, 20_000, Some(0), 99_500);
    p.grow();
    assert_eq!(p.health, 100_000);
    // even far above the cap, growth clamps back down to it
    let mut q = planet(0, 0, 0, 20_000, Some(0), 150_000);
    q.grow();
    assert_eq!(q.health, 100_000);
}

#[test]
fn land_reinforces_for_the_same_owner() {
    let mut p = planet(1, 0, 0, 20_000, Some(0), 40_000);
    let s = ship(0, 7_000, Pos { x: 0, y: 0 }, Pos { x: 0, y: 0 }, 1);
    let outcome = p.land_ship(&s);
    assert_eq!(outcome, Combat::Reinforced);
    assert_eq!(p.owner, Some(0));
    assert_eq!(p.health, 47_000);
}

#[test]
fn land_neutralizes_on_exact_equality() {
    let mut p = planet(1, 0, 0, 20_000, Some(1), 7_000);
    let s = ship(0, 7_000, Pos { x: 0, y: 0 }, Pos { x: 0, y: 0 }, 1);
    let outcome = p.land_ship(&s);
    assert_eq!(outcome, Combat::Neutralized);
    assert_eq!(p.owner, None);
    assert_eq!(p.health, 0);
}

#[test]
fn land_captures_when_power_exceeds_health() {
    let mut p = planet(1, 0, 0, 20_000, None, 10_000);
    let s = ship(0, 30_000, Pos { x: 0, y: 0 }, Pos { x: 0, y: 0 }, 1);
    let outcome = p.land_ship(&s);
    assert_eq!(outcome, Combat::Captured);
    assert_eq!(p.owner, Some(0));
    assert_eq!(p.health, 20_000);
}

#[test]
fn land_wears_down_a_stronger_defense() {
    let mut p = planet(1, 0, 0, 20_000, Some(1), 30_000);
    let s = ship(0, 7_001, Pos { x: 0, y: 0 }, Pos { x: 0, y: 0 }, 1);
    let outcome = p.land_ship(&s);
    assert_eq!(outcome, Combat::Defended);
    assert_eq!(p.owner, Some(1));
    assert_eq!(p.health, 22_999);
}

#[test]
fn ship_moves_a_full_step_toward_its_target() {
    let mut s = ship(0, 1000, Pos { x: 0, y: 0 }, Pos { x: 100_000, y: 0 }, 1);
    assert_eq!(s.distance_to_target(), 100_000);
    assert!(!s.reached_target());
    s.do_move();
    assert_eq!(s.pos, Pos { x: 15_000, y: 0 });
    assert_eq!(s.distance_to_target(), 85_000);
}

#[test]
fn ship_reaches_within_one_step() {
    let s = ship(0, 1000, Pos { x: 0, y: 0 }, Pos { x: 14_999, y: 0 }, 1);
    assert!(s.reached_target());
    let t = ship(0, 1000, Pos { x: 0, y: 0 }, Pos { x: 15_000, y: 0 }, 1);
    assert!(!t.reached_target());
}

#[test]
fn position_after_turns_projects_fractions() {
    let s = ship(0, 1000, Pos { x: 0, y: 0 }, Pos { x: 100_000, y: 0 }, 1);
    // half a turn: 7.5 units of the 15 per turn
    assert_eq!(s.position_after_turns(500), Pos { x: 7_500, y: 0 });
    // two full turns
    assert_eq!(s.position_after_turns(2_000), Pos { x: 30_000, y: 0 });
    // a ship standing on its target stays put
    let t = ship(0, 1000, Pos { x: 5, y: 5 }, Pos { x: 5, y: 5 }, 1);
    assert_eq!(t.position_after_turns(1_000), Pos { x: 5, y: 5 });
}
