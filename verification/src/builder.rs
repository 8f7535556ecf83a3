//! Map generation: place planet pairs point-symmetrically about the map
//! center, derive visibility, connect home planets along a scored candidate
//! list while mirroring every edge, and accept the map only if some home
//! planet reaches outside its own lineage. Generation is driven entirely by
//! an injected seeded generator, so a map is reproducible from its seed.

use vstd::prelude::*;
use crate::adjacency::{lemma_visible_congruent, lemma_visible_swap, visible, AdjacencyMatrix};
use crate::planet::Planet;
use crate::pos::{lemma_dist_reflected, lemma_dist_symmetric, lemma_seg_dist_reflected, Pos};
use crate::rng::gen_range_i64;
use crate::universe::{
    contains_id, lemma_planets_mass_bounded, lemma_planets_mass_congruent, planet_ok,
    planets_mass, Universe,
};
use crate::{
    COORD_LIMIT, GAME_BORDER_SIZE, MASS_LIMIT, MAX_PLANET_CONNECTIONS, PLANET_MAX_RADIUS,
    PLANET_MIN_DISTANCE, PLANET_MIN_RADIUS, SCALE,
};

verus! {

/// How many whole maps are attempted before generation reports failure,
/// and how many positions are sampled for one pair before the map is
/// abandoned. An unbounded retry could hang on a degenerate configuration
/// (a map too small for its planet count); a bound reports failure instead.
pub const MAX_MAP_ATTEMPTS: usize = 1000;
pub const MAX_PLACEMENT_ATTEMPTS: usize = 1000;

/// A planet as the placement pass leaves it: identity in place, geometry
/// bounded and legal, unowned, at starting health.
pub open spec fn seed_ok(n: int, i: int, p: Planet) -> bool {
    &&& p.id == i
    &&& p.pos.bounded(COORD_LIMIT as int)
    &&& PLANET_MIN_RADIUS <= p.radius < PLANET_MAX_RADIUS + SCALE
    &&& p.owner is None
    &&& p.health <= MASS_LIMIT
    &&& forall|k: int| 0 <= k < p.neighbors@.len() ==> (#[trigger] p.neighbors@[k]) < n
}

/// How many times `x` is listed in a neighbor list.
pub open spec fn count_of(s: Seq<usize>, x: usize) -> int
    decreases s.len(),
{
    if s.len() == 0 {
        0
    } else {
        (if s.last() == x {
            1int
        } else {
            0
        }) + count_of(s.drop_last(), x)
    }
}

/// How many times `b` appears in `a`'s neighbor list.
pub open spec fn edge_count(planets: Seq<Planet>, a: int, b: int) -> int {
    count_of(planets[a].neighbors@, b as usize)
}

/// Edge membership is mutual, with multiplicity: `b` appears in `a`'s list
/// exactly as often as `a` appears in `b`'s. The builder grows a graph that
/// is symmetric at every step, duplicates included.
pub open spec fn neighbors_symmetric(planets: Seq<Planet>) -> bool {
    forall|a: int, b: int|
        0 <= a < planets.len() && 0 <= b < planets.len() ==> #[trigger] edge_count(planets, a, b)
            == edge_count(planets, b, a)
}

/// Some home-lineage planet (an even id) has a neighbor outside its own
/// lineage (an odd id): a path toward contested territory exists.
pub open spec fn has_cross_edge(planets: Seq<Planet>) -> bool {
    exists|i: int, k: int|
        0 <= i < planets.len() && i % 2 == 0 && 0 <= k < planets[i].neighbors@.len() && (
        #[trigger] planets[i].neighbors@[k]) % 2 != 0
}

/// The index of a planet's point-symmetric partner: pairs are laid out as
/// consecutive (even, odd) ids.
pub open spec fn mirror_idx(x: int) -> int {
    if x % 2 == 0 {
        x + 1
    } else {
        x - 1
    }
}

/// Consecutive pairs are exact point mirrors about the map center, sharing
/// radius and health.
pub open spec fn mirrored_pairs(size: Pos, planets: Seq<Planet>) -> bool {
    forall|k: int|
        0 <= k && 2 * k + 1 < planets.len() ==> {
            &&& (#[trigger] planets[2 * k + 1]).pos.x == size.x - planets[2 * k].pos.x
            &&& planets[2 * k + 1].pos.y == size.y - planets[2 * k].pos.y
            &&& planets[2 * k + 1].radius == planets[2 * k].radius
            &&& planets[2 * k + 1].health == planets[2 * k].health
        }
}

/// Any two planets that are not each other's mirror keep the minimum
/// placement distance between their centers. (A planet and its own mirror
/// are kept apart only by the central exclusion band.)
pub open spec fn min_separation(planets: Seq<Planet>) -> bool {
    forall|a: int, b: int|
        #![trigger planets[a], planets[b]]
        0 <= a < b < planets.len() && !(b == a + 1 && a % 2 == 0) ==> planets[a].pos.dist(
            planets[b].pos,
        ) >= PLANET_MIN_DISTANCE
}

/// Every listed edge joins a pair the visibility pass admits: no third
/// planet's inflated disc blocks the segment between the endpoints.
pub open spec fn edges_visible(planets: Seq<Planet>) -> bool {
    forall|a: int, k: int|
        0 <= a < planets.len() && 0 <= k < planets[a].neighbors@.len() ==> visible(
            planets,
            a,
            (#[trigger] planets[a].neighbors@[k]) as int,
        )
}

/// The first `num_players` planets are the players' homes; everything else
/// starts neutral.
pub open spec fn home_owners(num_players: usize, planets: Seq<Planet>) -> bool {
    forall|i: int|
        0 <= i < planets.len() ==> (#[trigger] planets[i]).owner == (if i < num_players {
            Some(i as usize)
        } else {
            None
        })
}

/// Everything map generation promises of a produced universe: a well-formed
/// two-player match over `2 * planets_per_player` planets with no ships,
/// home owners assigned, exact point symmetry of consecutive pairs, the
/// minimum placement distance between non-mirror planets, a count-symmetric
/// neighbor graph whose every edge passes the visibility test, and a way
/// out of the home lineage.
pub open spec fn generated_ok(u: Universe, size: Pos, planets_per_player: usize) -> bool {
    &&& u.wf()
    &&& u.num_players == 2
    &&& u.size == size
    &&& u.ships@.len() == 0
    &&& u.planets@.len() == 2 * planets_per_player
    &&& u.total_mass() <= MASS_LIMIT
    &&& home_owners(2, u.planets@)
    &&& mirrored_pairs(size, u.planets@)
    &&& min_separation(u.planets@)
    &&& neighbors_symmetric(u.planets@)
    &&& edges_visible(u.planets@)
    &&& has_cross_edge(u.planets@)
}

proof fn lemma_count_push(s: Seq<usize>, v: usize, x: usize)
    ensures
        count_of(s.push(v), x) == count_of(s, x) + (if v == x {
            1int
        } else {
            0
        }),
{
    assert(s.push(v).drop_last() =~= s);
    assert(s.push(v).last() == v);
}

/// Add the undirected edge `{a, b}`: `b` is appended to `a`'s neighbor list
/// and `a` to `b`'s, and nothing else changes.
fn add_edge(planets: &mut Vec<Planet>, a: usize, b: usize)
    requires
        a < old(planets)@.len(),
        b < old(planets)@.len(),
        a != b,
    ensures
        final(planets)@.len() == old(planets)@.len(),
        forall|i: int|
            0 <= i < old(planets)@.len() && i != a && i != b ==> final(planets)@[i] == old(
                planets,
            )@[i],
        final(planets)@[a as int].neighbors@ == old(planets)@[a as int].neighbors@.push(b),
        final(planets)@[b as int].neighbors@ == old(planets)@[b as int].neighbors@.push(a),
        final(planets)@[a as int].id == old(planets)@[a as int].id,
        final(planets)@[a as int].pos == old(planets)@[a as int].pos,
        final(planets)@[a as int].radius == old(planets)@[a as int].radius,
        final(planets)@[a as int].owner == old(planets)@[a as int].owner,
        final(planets)@[a as int].health == old(planets)@[a as int].health,
        final(planets)@[b as int].id == old(planets)@[b as int].id,
        final(planets)@[b as int].pos == old(planets)@[b as int].pos,
        final(planets)@[b as int].radius == old(planets)@[b as int].radius,
        final(planets)@[b as int].owner == old(planets)@[b as int].owner,
        final(planets)@[b as int].health == old(planets)@[b as int].health,
{
    let ghost before = planets@;
    let mut pa = planets.remove(a);
    pa.neighbors.push(b);
    planets.insert(a, pa);
    proof {
        assert(planets@ =~= before.update(
            a as int,
            Planet { neighbors: planets@[a as int].neighbors, ..before[a as int] },
        ));
    }
    let ghost middle = planets@;
    let mut pb = planets.remove(b);
    pb.neighbors.push(a);
    planets.insert(b, pb);
    proof {
        assert(planets@ =~= middle.update(
            b as int,
            Planet { neighbors: planets@[b as int].neighbors, ..middle[b as int] },
        ));
    }
}

/// Adding one mutual edge between distinct planets raises both directed
/// counts by exactly one, so it keeps the graph count-symmetric.
proof fn lemma_add_edge_symmetric(before: Seq<Planet>, after: Seq<Planet>, a: usize, b: usize)
    requires
        neighbors_symmetric(before),
        before.len() <= usize::MAX,
        a < before.len(),
        b < before.len(),
        a != b,
        after.len() == before.len(),
        forall|i: int| 0 <= i < before.len() && i != a && i != b ==> after[i] == before[i],
        after[a as int].neighbors@ == before[a as int].neighbors@.push(b),
        after[b as int].neighbors@ == before[b as int].neighbors@.push(a),
    ensures
        neighbors_symmetric(after),
{
    assert forall|x: int, y: int|
        0 <= x < after.len() && 0 <= y < after.len() implies #[trigger] edge_count(after, x, y)
        == edge_count(after, y, x) by {
        lemma_count_push(before[a as int].neighbors@, b, x as usize);
        lemma_count_push(before[a as int].neighbors@, b, y as usize);
        lemma_count_push(before[b as int].neighbors@, a, x as usize);
        lemma_count_push(before[b as int].neighbors@, a, y as usize);
        assert(edge_count(before, x, y) == edge_count(before, y, x));
    }
}

/// A planet as the placement pass leaves it: identity in place, geometry
/// bounded and legal, unowned, at starting health, no neighbors yet.
pub open spec fn placed_ok(i: int, p: Planet) -> bool {
    &&& p.id == i
    &&& p.pos.bounded(COORD_LIMIT as int)
    &&& PLANET_MIN_RADIUS <= p.radius < PLANET_MAX_RADIUS + SCALE
    &&& p.owner is None
    &&& p.health as int <= Planet::starting_health((PLANET_MAX_RADIUS + SCALE) as u64)
    &&& p.neighbors@.len() == 0
}

/// The state the connection pass maintains: every planet individually
/// well-formed and unowned, and the neighbor graph symmetric.
pub open spec fn build_ok(n: int, planets: Seq<Planet>) -> bool {
    &&& planets.len() == n
    &&& forall|i: int| 0 <= i < n ==> seed_ok(n, i, #[trigger] planets[i])
    &&& forall|i: int|
        0 <= i < n ==> (#[trigger] planets[i]).health as int <= Planet::starting_health(
            (PLANET_MAX_RADIUS + SCALE) as u64,
        )
    &&& neighbors_symmetric(planets)
}

/// Sample positions for one mirrored planet pair until a candidate clears
/// the central exclusion band and the minimum pairwise distance against
/// every planet already placed, then push the candidate and its exact point
/// mirror; report failure when the attempt budget runs out.
#[verifier::loop_isolation(false)]
fn try_place_pair(
    rng: &mut rand::rngs::StdRng,
    planets: &mut Vec<Planet>,
    pair: usize,
    size: Pos,
) -> (ok: bool)
    requires
        size.bounded(COORD_LIMIT as int),
        size.x >= 4 * GAME_BORDER_SIZE,
        size.y >= 4 * GAME_BORDER_SIZE,
        pair <= 50_000,
        old(planets)@.len() == 2 * pair,
        forall|i: int| 0 <= i < 2 * pair ==> placed_ok(i, #[trigger] old(planets)@[i]),
        mirrored_pairs(size, old(planets)@),
        min_separation(old(planets)@),
    ensures
        !ok ==> final(planets)@ == old(planets)@,
        ok ==> final(planets)@.len() == 2 * pair + 2,
        ok ==> forall|i: int| 0 <= i < 2 * pair ==> final(planets)@[i] == old(planets)@[i],
        ok ==> forall|i: int|
            0 <= i < final(planets)@.len() ==> placed_ok(i, #[trigger] final(planets)@[i]),
        // the accepted candidate keeps the minimum distance to every
        // previously placed planet
        ok ==> forall|x: int|
            0 <= x < 2 * pair ==> (#[trigger] final(planets)@[x]).pos.dist(
                final(planets)@[2 * pair].pos,
            ) >= PLANET_MIN_DISTANCE,
        // the second pushed planet is the candidate's exact point mirror
        ok ==> {
            let c = final(planets)@[2 * pair];
            let m = final(planets)@[2 * pair + 1];
            &&& m.pos.x == size.x - c.pos.x
            &&& m.pos.y == size.y - c.pos.y
            &&& m.radius == c.radius
            &&& m.health == c.health
        },
        // the candidate comes from its pair's sampling region — the map's
        // quarter point for the first pair, the left band inside the border
        // for the rest — and stays out of the central exclusion band
        ok ==> {
            let c = final(planets)@[2 * pair];
            &&& (pair == 0 ==> size.x / 4 <= c.pos.x < size.x / 4 + SCALE && size.y / 4 <= c.pos.y
                < size.y / 4 + SCALE)
            &&& (pair != 0 ==> GAME_BORDER_SIZE <= c.pos.x < size.x / 2 + SCALE
                && GAME_BORDER_SIZE <= c.pos.y < size.y - GAME_BORDER_SIZE + SCALE)
            &&& !(c.pos.x >= size.x / 2 - PLANET_MIN_DISTANCE && c.pos.y - size.y / 2
                <= PLANET_MIN_DISTANCE)
        },
        ok ==> mirrored_pairs(size, final(planets)@),
        ok ==> min_separation(final(planets)@),
{
    let border: i64 = GAME_BORDER_SIZE;
    let half_x = ((size.x as u64) / 2) as i64;
    let half_y = ((size.y as u64) / 2) as i64;
    let quarter = Pos { x: ((size.x as u64) / 4) as i64, y: ((size.y as u64) / 4) as i64 };
    let low = Pos { x: border, y: border };
    let high = Pos { x: half_x, y: size.y - border };
    let min_dist: u64 = PLANET_MIN_DISTANCE;
    let mut attempt: usize = 0;
    while attempt < MAX_PLACEMENT_ATTEMPTS
        invariant
            planets@ == old(planets)@,
            attempt <= MAX_PLACEMENT_ATTEMPTS,
        decreases MAX_PLACEMENT_ATTEMPTS - attempt,
    {
        let candidate = if pair == 0 {
            Planet::random(rng, 0, quarter, quarter)
        } else {
            Planet::random(rng, 2 * pair, low, high)
        };
        // Keep the central band of the map free of planets.
        let excluded = candidate.pos.x >= half_x - (min_dist as i64) && candidate.pos.y - half_y
            <= min_dist as i64;
        if !excluded {
            let mut far = true;
            let mut k: usize = 0;
            while k < planets.len()
                invariant
                    planets@ == old(planets)@,
                    k <= planets@.len(),
                    candidate.pos.bounded(COORD_LIMIT as int),
                    far == (forall|x: int|
                        0 <= x < k ==> (#[trigger] planets@[x]).pos.dist(candidate.pos)
                            >= PLANET_MIN_DISTANCE),
                decreases planets@.len() - k,
            {
                if planets[k].pos.distance_to(candidate.pos) < min_dist {
                    far = false;
                }
                k = k + 1;
            }
            if far {
                proof {
                    let r = candidate.radius as int;
                    assert(r * 165 <= 41_000 * 165);
                    vstd::arithmetic::div_mod::lemma_div_is_ordered(r * 165, 41_000int * 165, 100);
                }
                let mirrored = Planet {
                    id: 2 * pair + 1,
                    pos: Pos { x: size.x - candidate.pos.x, y: size.y - candidate.pos.y },
                    radius: candidate.radius,
                    owner: None,
                    health: candidate.health,
                    neighbors: Vec::new(),
                };
                let ghost prev = planets@;
                planets.push(candidate);
                planets.push(mirrored);
                proof {
                    let np = 2 * pair as int;
                    assert(planets@[np] == candidate && planets@[np + 1] == mirrored);
                    // consecutive pairs stay exact point mirrors
                    assert forall|k2: int| 0 <= k2 && 2 * k2 + 1 < planets@.len() implies {
                        &&& (#[trigger] planets@[2 * k2 + 1]).pos.x == size.x - planets@[
                            2 * k2
                        ].pos.x
                        &&& planets@[2 * k2 + 1].pos.y == size.y - planets@[2 * k2].pos.y
                        &&& planets@[2 * k2 + 1].radius == planets@[2 * k2].radius
                        &&& planets@[2 * k2 + 1].health == planets@[2 * k2].health
                    } by {
                        if 2 * k2 + 1 < np {
                            assert((prev[2 * k2 + 1]).pos.x == size.x - prev[2 * k2].pos.x);
                            assert(planets@[2 * k2 + 1] == prev[2 * k2 + 1]);
                            assert(planets@[2 * k2] == prev[2 * k2]);
                        } else {
                            assert(2 * k2 == np);
                        }
                    }
                    // the minimum separation extends to the new pair: the
                    // candidate was checked directly, and its mirror is as
                    // far from each planet as the candidate is from that
                    // planet's own mirror
                    assert forall|x: int, y: int|
                        #![trigger planets@[x], planets@[y]]
                        0 <= x < y < planets@.len() && !(y == x + 1 && x % 2 == 0) implies
                        planets@[x].pos.dist(planets@[y].pos) >= PLANET_MIN_DISTANCE by {
                        if y < np {
                            assert(prev[x].pos.dist(prev[y].pos) >= PLANET_MIN_DISTANCE);
                        } else if y == np {
                            assert(prev[x].pos.dist(candidate.pos) >= PLANET_MIN_DISTANCE);
                        } else {
                            // y == np + 1 and x < np (x == np is the mirror pair)
                            assert(x < np);
                            lemma_mirror_rel(size, prev, x);
                            let px = mirror_idx(x);
                            assert(prev[px].pos.dist(candidate.pos) >= PLANET_MIN_DISTANCE);
                            lemma_dist_symmetric(prev[px].pos, candidate.pos);
                            lemma_dist_reflected(
                                size,
                                candidate.pos,
                                mirrored.pos,
                                prev[x].pos,
                                prev[px].pos,
                            );
                            lemma_dist_symmetric(prev[x].pos, mirrored.pos);
                        }
                    }
                }
                return true;
            }
        }
        attempt = attempt + 1;
    }
    false
}

/// Order candidate edges by ascending score, keeping equal scores in their
/// original order: repeatedly extract the first minimal element.
#[verifier::loop_isolation(false)]
fn sort_candidates(input: Vec<(i128, usize)>) -> (out: Vec<(i128, usize)>)
    ensures
        out@.len() == input@.len(),
        forall|k: int| 0 <= k < out@.len() ==> input@.contains(#[trigger] out@[k]),
        forall|x: int, y: int| 0 <= x < y < out@.len() ==> out@[x].0 <= out@[y].0,
{
    let mut work = input;
    let ghost input0 = work@;
    let mut out: Vec<(i128, usize)> = Vec::new();
    while work.len() > 0
        invariant
            out@.len() + work@.len() == input0.len(),
            forall|k: int| 0 <= k < out@.len() ==> input0.contains(#[trigger] out@[k]),
            forall|k: int| 0 <= k < work@.len() ==> input0.contains(#[trigger] work@[k]),
            forall|x: int, y: int| 0 <= x < y < out@.len() ==> out@[x].0 <= out@[y].0,
            forall|x: int, k: int|
                #![trigger out@[x], work@[k]]
                0 <= x < out@.len() && 0 <= k < work@.len() ==> out@[x].0 <= work@[k].0,
        decreases work@.len(),
    {
        let mut m: usize = 0;
        let mut k: usize = 1;
        while k < work.len()
            invariant
                work@.len() > 0,
                m < k,
                k <= work@.len(),
                forall|j: int| 0 <= j < k ==> work@[m as int].0 <= (#[trigger] work@[j]).0,
            decreases work@.len() - k,
        {
            if work[k].0 < work[m].0 {
                m = k;
            }
            k = k + 1;
        }
        let ghost work_pre = work@;
        let ghost out_pre = out@;
        let x = work.remove(m);
        out.push(x);
        proof {
            assert forall|k2: int| 0 <= k2 < work@.len() implies input0.contains(
                #[trigger] work@[k2],
            ) by {
                if k2 < m {
                    assert(work@[k2] == work_pre[k2]);
                } else {
                    assert(work@[k2] == work_pre[k2 + 1]);
                }
            }
            assert forall|x2: int, k2: int|
                #![trigger out@[x2], work@[k2]]
                0 <= x2 < out@.len() && 0 <= k2 < work@.len() implies out@[x2].0
                <= work@[k2].0 by {
                if k2 < m {
                    assert(work@[k2] == work_pre[k2]);
                } else {
                    assert(work@[k2] == work_pre[k2 + 1]);
                }
                if x2 < out_pre.len() {
                    assert(out@[x2] == out_pre[x2]);
                } else {
                    assert(out@[x2] == x);
                }
            }
        }
    }
    out
}

/// A recorded planet whose map data is legal for a universe of `n` planets.
pub open spec fn record_ok(n: int, p: crate::replay::Planet) -> bool {
    &&& p.pos.bounded(COORD_LIMIT as int)
    &&& PLANET_MIN_RADIUS <= p.radius < PLANET_MAX_RADIUS + SCALE
    &&& forall|k: int| 0 <= k < p.neighbors@.len() ==> (#[trigger] p.neighbors@[k]) < n
}

/// A replay whose static map can seed a universe: a real player count and
/// legal geometry throughout.
pub open spec fn replay_map_valid(replay: crate::replay::Replay) -> bool {
    &&& 1 <= replay.info.bot_names@.len() <= replay.planets@.len()
    &&& (Pos { x: replay.info.map_width, y: replay.info.map_height }).bounded(COORD_LIMIT as int)
    &&& forall|i: int|
        0 <= i < replay.planets@.len() ==> record_ok(
            replay.planets@.len() as int,
            #[trigger] replay.planets@[i],
        )
}

/// A candidate edge for home planet `i`: a scored target that is a real
/// planet other than `i` itself, and that the visibility pass admits.
pub open spec fn cand_ok(n: int, i: int, snap: Seq<Planet>, c: (i128, usize)) -> bool {
    &&& c.1 < n
    &&& c.1 != i
    &&& (if i < c.1 {
        visible(snap, i, c.1 as int)
    } else {
        visible(snap, c.1 as int, i)
    })
}

/// Adding one mutual edge between distinct planets preserves the whole
/// build-state invariant.
proof fn lemma_add_edge_build_ok(before: Seq<Planet>, after: Seq<Planet>, a: usize, b: usize, n: int)
    requires
        build_ok(n, before),
        n <= usize::MAX,
        a < before.len(),
        b < before.len(),
        a != b,
        after.len() == before.len(),
        forall|i: int| 0 <= i < before.len() && i != a && i != b ==> after[i] == before[i],
        after[a as int].neighbors@ == before[a as int].neighbors@.push(b),
        after[b as int].neighbors@ == before[b as int].neighbors@.push(a),
        after[a as int].id == before[a as int].id,
        after[a as int].pos == before[a as int].pos,
        after[a as int].radius == before[a as int].radius,
        after[a as int].owner == before[a as int].owner,
        after[a as int].health == before[a as int].health,
        after[b as int].id == before[b as int].id,
        after[b as int].pos == before[b as int].pos,
        after[b as int].radius == before[b as int].radius,
        after[b as int].owner == before[b as int].owner,
        after[b as int].health == before[b as int].health,
    ensures
        build_ok(n, after),
{
    assert forall|i: int, k: int|
        0 <= i < before.len() && 0 <= k < before[i].neighbors@.len() implies (
    #[trigger] before[i].neighbors@[k]) < before.len() by {
        assert(seed_ok(n, i, before[i]));
    }
    lemma_add_edge_symmetric(before, after, a, b);
    assert forall|i: int|
        0 <= i < n implies (#[trigger] after[i]).health as int <= Planet::starting_health(
        (PLANET_MAX_RADIUS + SCALE) as u64,
    ) by {
        assert(after[i].health == before[i].health);
    }
    assert forall|i: int| 0 <= i < n implies seed_ok(n, i, #[trigger] after[i]) by {
        assert(seed_ok(n, i, before[i]));
        if i == a {
            assert forall|k: int| 0 <= k < after[i].neighbors@.len() implies (
            #[trigger] after[i].neighbors@[k]) < n by {
                if k < before[i].neighbors@.len() {
                    assert(after[i].neighbors@[k] == before[i].neighbors@[k]);
                } else {
                    assert(after[i].neighbors@[k] == b);
                }
            }
        } else if i == b {
            assert forall|k: int| 0 <= k < after[i].neighbors@.len() implies (
            #[trigger] after[i].neighbors@[k]) < n by {
                if k < before[i].neighbors@.len() {
                    assert(after[i].neighbors@[k] == before[i].neighbors@[k]);
                } else {
                    assert(after[i].neighbors@[k] == a);
                }
            }
        }
    }
}

/// The connection pass's running state: individually well-formed unowned
/// planets whose geometry is exactly the placement's, point-mirrored pairs,
/// the minimum separation, a count-symmetric graph, and only visible edges.
pub open spec fn pass_ok(n: int, size: Pos, snap: Seq<Planet>, planets: Seq<Planet>) -> bool {
    &&& build_ok(n, planets)
    &&& snap.len() == n
    &&& forall|i: int|
        0 <= i < n ==> (#[trigger] planets[i]).pos == snap[i].pos && planets[i].radius
            == snap[i].radius
    &&& mirrored_pairs(size, planets)
    &&& min_separation(planets)
    &&& edges_visible(planets)
}

/// A planet's pair partner is its point mirror, in both directions, and
/// taking the partner twice leads back.
proof fn lemma_mirror_rel(size: Pos, planets: Seq<Planet>, x: int)
    requires
        mirrored_pairs(size, planets),
        planets.len() % 2 == 0,
        0 <= x < planets.len(),
    ensures
        0 <= mirror_idx(x) < planets.len(),
        mirror_idx(mirror_idx(x)) == x,
        planets[mirror_idx(x)].pos.x == size.x - planets[x].pos.x,
        planets[mirror_idx(x)].pos.y == size.y - planets[x].pos.y,
        planets[mirror_idx(x)].radius == planets[x].radius,
{
    if x % 2 == 0 {
        let k = x / 2;
        vstd::arithmetic::div_mod::lemma_fundamental_div_mod(x, 2);
        assert(2 * k == x);
        assert(x != planets.len() - 1);
        assert((planets[2 * k + 1]).pos.x == size.x - planets[2 * k].pos.x);
    } else {
        let k = (x - 1) / 2;
        vstd::arithmetic::div_mod::lemma_fundamental_div_mod(x - 1, 2);
        assert(2 * k + 1 == x);
        assert((planets[2 * k + 1]).pos.x == size.x - planets[2 * k].pos.x);
    }
}

/// Visibility transfers across the map's point symmetry: a visible pair's
/// mirrored pair is visible too, because any would-be blocker's own mirror
/// would have to block the original segment exactly as much.
proof fn lemma_visible_mirror(size: Pos, planets: Seq<Planet>, x: int, y: int)
    requires
        mirrored_pairs(size, planets),
        planets.len() % 2 == 0,
        0 <= x < planets.len(),
        0 <= y < planets.len(),
        visible(planets, x, y),
    ensures
        visible(planets, mirror_idx(x), mirror_idx(y)),
{
    lemma_mirror_rel(size, planets, x);
    lemma_mirror_rel(size, planets, y);
    let xm = mirror_idx(x);
    let ym = mirror_idx(y);
    assert forall|k: int|
        0 <= k < planets.len() && k != xm && k != ym implies (#[trigger] planets[k]).pos.seg_dist(
        planets[xm].pos,
        planets[ym].pos,
    ) * 10 >= 11 * planets[k].radius by {
        lemma_mirror_rel(size, planets, k);
        let kp = mirror_idx(k);
        assert(kp != x && kp != y);
        assert(planets[kp].pos.seg_dist(planets[x].pos, planets[y].pos) * 10 >= 11 * planets[
            kp
        ].radius);
        lemma_seg_dist_reflected(
            size,
            planets[k].pos,
            planets[kp].pos,
            planets[x].pos,
            planets[xm].pos,
            planets[y].pos,
            planets[ym].pos,
        );
    }
}

/// The master step: adding one mutual, mutually visible edge between
/// distinct planets preserves the whole pass invariant.
proof fn lemma_add_edge_pass_ok(
    before: Seq<Planet>,
    after: Seq<Planet>,
    size: Pos,
    snap: Seq<Planet>,
    a: usize,
    b: usize,
    n: int,
)
    requires
        pass_ok(n, size, snap, before),
        n <= usize::MAX,
        visible(before, a as int, b as int),
        visible(before, b as int, a as int),
        a < before.len(),
        b < before.len(),
        a != b,
        after.len() == before.len(),
        forall|i: int| 0 <= i < before.len() && i != a && i != b ==> after[i] == before[i],
        after[a as int].neighbors@ == before[a as int].neighbors@.push(b),
        after[b as int].neighbors@ == before[b as int].neighbors@.push(a),
        after[a as int].id == before[a as int].id,
        after[a as int].pos == before[a as int].pos,
        after[a as int].radius == before[a as int].radius,
        after[a as int].owner == before[a as int].owner,
        after[a as int].health == before[a as int].health,
        after[b as int].id == before[b as int].id,
        after[b as int].pos == before[b as int].pos,
        after[b as int].radius == before[b as int].radius,
        after[b as int].owner == before[b as int].owner,
        after[b as int].health == before[b as int].health,
    ensures
        pass_ok(n, size, snap, after),
{
    lemma_add_edge_build_ok(before, after, a, b, n);
    assert forall|i: int|
        0 <= i < before.len() implies (#[trigger] after[i]).pos == before[i].pos
        && after[i].radius == before[i].radius && after[i].health == before[i].health by {
        if i != a && i != b {
            assert(after[i] == before[i]);
        }
    }
    assert forall|k: int| 0 <= k && 2 * k + 1 < after.len() implies {
        &&& (#[trigger] after[2 * k + 1]).pos.x == size.x - after[2 * k].pos.x
        &&& after[2 * k + 1].pos.y == size.y - after[2 * k].pos.y
        &&& after[2 * k + 1].radius == after[2 * k].radius
        &&& after[2 * k + 1].health == after[2 * k].health
    } by {
        assert((before[2 * k + 1]).pos.x == size.x - before[2 * k].pos.x);
    }
    assert forall|x: int, y: int|
        #![trigger after[x], after[y]]
        0 <= x < y < after.len() && !(y == x + 1 && x % 2 == 0) implies after[x].pos.dist(
        after[y].pos,
    ) >= PLANET_MIN_DISTANCE by {
        assert(before[x].pos.dist(before[y].pos) >= PLANET_MIN_DISTANCE);
    }
    assert forall|x: int, k: int|
        0 <= x < after.len() && 0 <= k < after[x].neighbors@.len() implies visible(
        after,
        x,
        (#[trigger] after[x].neighbors@[k]) as int,
    ) by {
        let nb = after[x].neighbors@[k] as int;
        if x == a as int && k == before[a as int].neighbors@.len() {
            assert(after[x].neighbors@[k] == b);
            lemma_visible_congruent(before, after, a as int, b as int);
        } else if x == b as int && k == before[b as int].neighbors@.len() {
            assert(after[x].neighbors@[k] == a);
            lemma_visible_congruent(before, after, b as int, a as int);
        } else {
            assert(after[x].neighbors@[k] == before[x].neighbors@[k]);
            assert(visible(before, x, nb));
            assert(seed_ok(n, x, before[x]));
            lemma_visible_congruent(before, after, x, nb);
        }
    }
}

impl Universe {
    /// A fresh match over the given planets: the first `num_players` planets
    /// become the players' home planets, everything else starts neutral, and
    /// no ship is in flight.
    pub fn new(num_players: usize, size: Pos, planets: Vec<Planet>) -> (u: Universe)
        requires
            1 <= num_players <= planets@.len(),
            size.bounded(COORD_LIMIT as int),
            forall|i: int|
                0 <= i < planets@.len() ==> seed_ok(
                    planets@.len() as int,
                    i,
                    #[trigger] planets@[i],
                ),
        ensures
            u.wf(),
            u.num_players == num_players,
            u.size == size,
            u.ships@.len() == 0,
            u.planets@.len() == planets@.len(),
            forall|i: int|
                0 <= i < planets@.len() ==> (#[trigger] u.planets@[i]).owner == (if i
                    < num_players {
                    Some(i as usize)
                } else {
                    None
                }),
            forall|i: int|
                0 <= i < planets@.len() ==> (#[trigger] u.planets@[i]).id == planets@[i].id
                    && u.planets@[i].pos == planets@[i].pos && u.planets@[i].radius
                    == planets@[i].radius && u.planets@[i].health == planets@[i].health
                    && u.planets@[i].neighbors == planets@[i].neighbors,
            u.total_mass() == planets_mass(planets@),
    {
        let ghost orig = planets@;
        let mut planets = planets;
        let n = planets.len();
        let mut i: usize = 0;
        while i < num_players
            invariant
                num_players <= n,
                n == planets@.len(),
                i <= num_players,
                planets@.len() == orig.len(),
                forall|k: int| 0 <= k < orig.len() ==> seed_ok(orig.len() as int, k, orig[k]),
                forall|k: int|
                    0 <= k < orig.len() ==> (#[trigger] planets@[k]).owner == (if k < i {
                        Some(k as usize)
                    } else {
                        None
                    }),
                forall|k: int|
                    0 <= k < orig.len() ==> (#[trigger] planets@[k]).id == orig[k].id
                        && planets@[k].pos == orig[k].pos && planets@[k].radius == orig[k].radius
                        && planets@[k].health == orig[k].health && planets@[k].neighbors
                        == orig[k].neighbors,
            decreases num_players - i,
        {
            let ghost pre = planets@;
            let mut p = planets.remove(i);
            p.owner = Some(i);
            planets.insert(i, p);
            proof {
                assert(planets@ =~= pre.update(
                    i as int,
                    Planet { owner: Some(i), ..pre[i as int] },
                ));
            }
            i = i + 1;
        }
        let u = Universe { num_players, size, planets, ships: Vec::new() };
        proof {
            assert forall|k: int| 0 <= k < u.planets@.len() implies #[trigger] u.planet_wf(k) by {
                assert(seed_ok(orig.len() as int, k, orig[k]));
                assert(planet_ok(num_players, orig.len() as int, k, u.planets@[k]));
            }
            lemma_planets_mass_congruent(u.planets@, orig);
        }
        u
    }

    /// One full map-generation attempt: place the planet pairs point-
    /// symmetrically, build the visibility matrix, connect each home-lineage
    /// planet along its scored candidate list with every edge mirrored, and
    /// accept the map only if some home-lineage planet reaches the opposing
    /// lineage. A produced map satisfies `generated_ok`: exact pair
    /// symmetry, minimum separation, a count-symmetric graph of visible
    /// edges, and assigned home owners.
    #[verifier::loop_isolation(false)]
    #[verifier::rlimit(100)]
    pub fn try_create_random(
        rng: &mut rand::rngs::StdRng,
        size: Pos,
        planets_per_player: usize,
    ) -> (r: Option<Universe>)
        requires
            size.bounded(COORD_LIMIT as int),
            size.x >= 4 * GAME_BORDER_SIZE,
            size.y >= 4 * GAME_BORDER_SIZE,
            1 <= planets_per_player <= 50_000,
        ensures
            r matches Some(u) ==> generated_ok(u, size, planets_per_player),
    {
        let num_players: usize = 2;
        let mut planets: Vec<Planet> = Vec::new();
        let mut pair: usize = 0;
        while pair < planets_per_player
            invariant
                planets@.len() == 2 * pair,
                pair <= planets_per_player,
                forall|i: int| 0 <= i < 2 * pair ==> placed_ok(i, #[trigger] planets@[i]),
                mirrored_pairs(size, planets@),
                min_separation(planets@),
            decreases planets_per_player - pair,
        {
            if !try_place_pair(rng, &mut planets, pair, size) {
                return None;
            }
            pair = pair + 1;
        }
        let n = planets.len();
        let ghost snap = planets@;
        proof {
            assert forall|i: int| 0 <= i < n implies seed_ok(n as int, i, #[trigger] planets@[i])
                by {
                assert(placed_ok(i, planets@[i]));
            }
            assert forall|a: int, b: int|
                0 <= a < planets@.len() && 0 <= b < planets@.len() implies #[trigger] edge_count(
                planets@,
                a,
                b,
            ) == edge_count(planets@, b, a) by {
                assert(placed_ok(a, planets@[a]));
                assert(placed_ok(b, planets@[b]));
            }
            assert(build_ok(n as int, planets@));
            assert(pass_ok(n as int, size, snap, planets@));
        }
        let matrix = AdjacencyMatrix::new(&planets);
        let mut hi: usize = 0;
        while hi < planets_per_player
            invariant
                pass_ok(n as int, size, snap, planets@),
                hi <= planets_per_player,
            decreases planets_per_player - hi,
        {
            let i = 2 * hi;
            // Collect the visible, not yet connected candidates with their
            // scores: the center distance, discounted for cross-lineage
            // targets and penalized by the target's current degree inside
            // the lineage.
            let mut cands: Vec<(i128, usize)> = Vec::new();
            let mut j: usize = 0;
            while j < n
                invariant
                    pass_ok(n as int, size, snap, planets@),
                    j <= n,
                    forall|k: int|
                        0 <= k < cands@.len() ==> cand_ok(
                            n as int,
                            i as int,
                            snap,
                            #[trigger] cands@[k],
                        ),
                decreases n - j,
            {
                if j != i {
                    match matrix.distance(i, j) {
                        Some(d) => {
                            proof {
                                if i < j {
                                    assert(matrix.distances@[i as int]@[j as int] == Some(d));
                                    assert(visible(snap, i as int, j as int));
                                } else {
                                    assert(matrix.distances@[j as int]@[i as int] == Some(d));
                                    assert(visible(snap, j as int, i as int));
                                }
                            }
                            if !contains_id(&planets[i].neighbors, j) {
                                let penalty: i128 = if j % 2 == 0 {
                                    25_000i128 * (planets[j].neighbors.len() as i128)
                                } else {
                                    -50_000i128
                                };
                                cands.push(((d as i128) + penalty, j));
                            }
                        },
                        None => {},
                    }
                }
                j = j + 1;
            }
            let ghost cands_view = cands@;
            let sorted = sort_candidates(cands);
            let mut c: usize = 0;
            while c < sorted.len() && planets[i].neighbors.len() < MAX_PLANET_CONNECTIONS
                invariant
                    pass_ok(n as int, size, snap, planets@),
                    c <= sorted@.len(),
                decreases sorted@.len() - c,
            {
                let j = sorted[c].1;
                proof {
                    assert(cands_view.contains(sorted@[c as int]));
                    let idx = choose|idx: int|
                        0 <= idx < cands_view.len() && cands_view[idx] == sorted@[c as int];
                    assert(cand_ok(n as int, i as int, snap, cands_view[idx]));
                }
                if !contains_id(&planets[i].neighbors, j) {
                    let ghost base = planets@;
                    proof {
                        let gi = i as int;
                        let gj = j as int;
                        // the chosen pair is visible over the current
                        // planets, in both orders
                        if gi < gj {
                            lemma_visible_congruent(snap, base, gi, gj);
                            lemma_visible_swap(base, gi, gj);
                        } else {
                            lemma_visible_congruent(snap, base, gj, gi);
                            lemma_visible_swap(base, gj, gi);
                        }
                        assert(visible(base, gi, gj) && visible(base, gj, gi));
                        // and so is its mirrored pair
                        assert(base.len() % 2 == 0);
                        lemma_visible_mirror(size, base, gi, gj);
                        lemma_visible_mirror(size, base, gj, gi);
                        assert(gi % 2 == 0);
                        assert(mirror_idx(gi) == gi + 1);
                    }
                    add_edge(&mut planets, i, j);
                    proof {
                        lemma_add_edge_pass_ok(base, planets@, size, snap, i, j, n as int);
                    }
                    if j % 2 == 0 {
                        // An edge inside the home lineage: replicate it on
                        // the mirrored pair.
                        let a2 = i + 1;
                        let b2 = j + 1;
                        let ghost before2 = planets@;
                        proof {
                            assert(mirror_idx(j as int) == j + 1);
                            assert forall|t: int|
                                0 <= t < before2.len() implies (#[trigger] before2[t]).pos
                                == base[t].pos && before2[t].radius == base[t].radius by {
                                assert(base[t].pos == snap[t].pos && before2[t].pos == snap[t].pos);
                            }
                            lemma_visible_congruent(base, before2, i as int + 1, j as int + 1);
                            lemma_visible_congruent(base, before2, j as int + 1, i as int + 1);
                        }
                        add_edge(&mut planets, a2, b2);
                        proof {
                            lemma_add_edge_pass_ok(
                                before2,
                                planets@,
                                size,
                                snap,
                                a2,
                                b2,
                                n as int,
                            );
                        }
                    } else if i / 2 != j / 2 {
                        // A cross-lineage edge between unrelated pairs:
                        // replicate it through the reflective symmetry.
                        let a2 = i + 1;
                        let b2 = j - 1;
                        let ghost before2 = planets@;
                        proof {
                            assert(mirror_idx(j as int) == j - 1);
                            assert forall|t: int|
                                0 <= t < before2.len() implies (#[trigger] before2[t]).pos
                                == base[t].pos && before2[t].radius == base[t].radius by {
                                assert(base[t].pos == snap[t].pos && before2[t].pos == snap[t].pos);
                            }
                            lemma_visible_congruent(base, before2, i as int + 1, j as int - 1);
                            lemma_visible_congruent(base, before2, j as int - 1, i as int + 1);
                        }
                        add_edge(&mut planets, a2, b2);
                        proof {
                            lemma_add_edge_pass_ok(
                                before2,
                                planets@,
                                size,
                                snap,
                                a2,
                                b2,
                                n as int,
                            );
                        }
                    }
                }
                c = c + 1;
            }
            hi = hi + 1;
        }
        // The map is playable only if some home-lineage planet has a way
        // out of its own lineage.
        let mut valid = false;
        let mut h2: usize = 0;
        while h2 < planets_per_player
            invariant
                h2 <= planets_per_player,
                valid ==> has_cross_edge(planets@),
            decreases planets_per_player - h2,
        {
            let i2 = 2 * h2;
            let deg = planets[i2].neighbors.len();
            let mut k: usize = 0;
            while k < deg
                invariant
                    k <= deg,
                    deg == planets@[i2 as int].neighbors@.len(),
                    valid ==> has_cross_edge(planets@),
                decreases deg - k,
            {
                if planets[i2].neighbors[k] % 2 != 0 {
                    valid = true;
                    proof {
                        let gi = i2 as int;
                        let gk = k as int;
                        assert(0 <= gi && gi < planets@.len() && gi % 2 == 0);
                        assert(0 <= gk && gk < planets@[gi].neighbors@.len());
                        assert(planets@[gi].neighbors@[gk] % 2 != 0);
                        assert(has_cross_edge(planets@));
                    }
                }
                k = k + 1;
            }
            h2 = h2 + 1;
        }
        if valid {
            let ghost built = planets@;
            let u = Universe::new(num_players, size, planets);
            proof {
                lemma_planets_mass_bounded(
                    built,
                    Planet::starting_health((PLANET_MAX_RADIUS + SCALE) as u64),
                );
                assert(built.len() * Planet::starting_health((PLANET_MAX_RADIUS + SCALE) as u64)
                    <= 100_000 * 67_650) by (nonlinear_arith)
                    requires
                        built.len() <= 100_000,
                        Planet::starting_health((PLANET_MAX_RADIUS + SCALE) as u64) == 67_650;
                // only owners changed: every graph and geometry property
                // carries over to the finished universe
                assert forall|t: int|
                    0 <= t < u.planets@.len() implies (#[trigger] u.planets@[t]).pos == built[
                    t
                ].pos && u.planets@[t].radius == built[t].radius && u.planets@[t].health
                    == built[t].health && u.planets@[t].neighbors@ == built[t].neighbors@ by {}
                assert forall|a: int, b: int|
                    0 <= a < u.planets@.len() && 0 <= b < u.planets@.len() implies
                    #[trigger] edge_count(u.planets@, a, b) == edge_count(u.planets@, b, a) by {
                    assert(u.planets@[a].neighbors@ == built[a].neighbors@);
                    assert(u.planets@[b].neighbors@ == built[b].neighbors@);
                    assert(edge_count(built, a, b) == edge_count(built, b, a));
                }
                assert forall|k: int| 0 <= k && 2 * k + 1 < u.planets@.len() implies {
                    &&& (#[trigger] u.planets@[2 * k + 1]).pos.x == size.x - u.planets@[
                        2 * k
                    ].pos.x
                    &&& u.planets@[2 * k + 1].pos.y == size.y - u.planets@[2 * k].pos.y
                    &&& u.planets@[2 * k + 1].radius == u.planets@[2 * k].radius
                    &&& u.planets@[2 * k + 1].health == u.planets@[2 * k].health
                } by {
                    assert((built[2 * k + 1]).pos.x == size.x - built[2 * k].pos.x);
                }
                assert forall|x: int, y: int|
                    #![trigger u.planets@[x], u.planets@[y]]
                    0 <= x < y < u.planets@.len() && !(y == x + 1 && x % 2 == 0) implies
                    u.planets@[x].pos.dist(u.planets@[y].pos) >= PLANET_MIN_DISTANCE by {
                    assert(built[x].pos.dist(built[y].pos) >= PLANET_MIN_DISTANCE);
                }
                assert forall|a: int, k: int|
                    0 <= a < u.planets@.len() && 0 <= k < u.planets@[a].neighbors@.len() implies
                    visible(u.planets@, a, (#[trigger] u.planets@[a].neighbors@[k]) as int) by {
                    let nb = u.planets@[a].neighbors@[k] as int;
                    assert(u.planets@[a].neighbors@ == built[a].neighbors@);
                    assert(visible(built, a, nb));
                    assert(seed_ok(n as int, a, built[a]));
                    lemma_visible_congruent(built, u.planets@, a, nb);
                }
                let (wi, wk) = choose|wi: int, wk: int|
                    0 <= wi < built.len() && wi % 2 == 0 && 0 <= wk < built[
                        wi
                    ].neighbors@.len() && (#[trigger] built[wi].neighbors@[wk]) % 2 != 0;
                assert(u.planets@[wi].neighbors@ == built[wi].neighbors@);
                assert(u.planets@[wi].neighbors@[wk] % 2 != 0);
                assert(has_cross_edge(u.planets@));
                assert(home_owners(2, u.planets@));
                assert(generated_ok(u, size, planets_per_player));
            }
            Some(u)
        } else {
            None
        }
    }

    /// Rebuild the starting universe a replay was recorded from: the static
    /// map with every planet back at starting health, the recorded owners
    /// discarded in favor of a fresh home-planet assignment, and no ship in
    /// flight. Succeeds exactly on records whose map data is legal.
    #[verifier::loop_isolation(false)]
    pub fn load_replay(replay: &crate::replay::Replay) -> (r: Option<Universe>)
        ensures
            r is Some <==> replay_map_valid(*replay),
            r matches Some(u) ==> {
                &&& u.wf()
                &&& u.num_players == replay.info.bot_names@.len()
                &&& u.size == (Pos { x: replay.info.map_width, y: replay.info.map_height })
                &&& u.ships@.len() == 0
                &&& u.planets@.len() == replay.planets@.len()
                &&& forall|i: int|
                    0 <= i < replay.planets@.len() ==> (#[trigger] u.planets@[i]).pos
                        == replay.planets@[i].pos && u.planets@[i].radius == replay.planets@[
                        i
                    ].radius && u.planets@[i].neighbors@ == replay.planets@[i].neighbors@
                &&& forall|i: int|
                    0 <= i < replay.planets@.len() ==> (#[trigger] u.planets@[i]).owner == (if i
                        < replay.info.bot_names@.len() {
                        Some(i as usize)
                    } else {
                        None
                    })
                &&& forall|i: int|
                    0 <= i < replay.planets@.len() ==> (#[trigger] u.planets@[i]).health as int
                        == Planet::starting_health(replay.planets@[i].radius)
            },
    {
        let num_players = replay.info.bot_names.len();
        let n = replay.planets.len();
        let size = Pos { x: replay.info.map_width, y: replay.info.map_height };
        if num_players < 1 || num_players > n {
            return None;
        }
        if !(size.x >= -COORD_LIMIT && size.x <= COORD_LIMIT && size.y >= -COORD_LIMIT && size.y
            <= COORD_LIMIT) {
            return None;
        }
        let mut planets: Vec<Planet> = Vec::new();
        let mut i: usize = 0;
        while i < n
            invariant
                i <= n,
                planets@.len() == i,
                forall|k: int| 0 <= k < i ==> record_ok(n as int, #[trigger] replay.planets@[k]),
                forall|k: int| 0 <= k < i ==> seed_ok(n as int, k, #[trigger] planets@[k]),
                forall|k: int|
                    0 <= k < i ==> (#[trigger] planets@[k]).pos == replay.planets@[k].pos
                        && planets@[k].radius == replay.planets@[k].radius && planets@[
                        k
                    ].neighbors@ == replay.planets@[k].neighbors@ && planets@[k].health as int
                        == Planet::starting_health(replay.planets@[k].radius),
            decreases n - i,
        {
            let rp = &replay.planets[i];
            if !(rp.pos.x >= -COORD_LIMIT && rp.pos.x <= COORD_LIMIT && rp.pos.y >= -COORD_LIMIT
                && rp.pos.y <= COORD_LIMIT) {
                proof {
                    assert(!record_ok(n as int, replay.planets@[i as int]));
                }
                return None;
            }
            if !(rp.radius >= PLANET_MIN_RADIUS && rp.radius < PLANET_MAX_RADIUS + SCALE) {
                proof {
                    assert(!record_ok(n as int, replay.planets@[i as int]));
                }
                return None;
            }
            let deg = rp.neighbors.len();
            let mut ok = true;
            let mut k: usize = 0;
            while k < deg
                invariant
                    k <= deg,
                    deg == rp.neighbors@.len(),
                    ok == (forall|t: int| 0 <= t < k ==> (#[trigger] rp.neighbors@[t]) < n),
                decreases deg - k,
            {
                if rp.neighbors[k] >= n {
                    ok = false;
                }
                k = k + 1;
            }
            if !ok {
                proof {
                    assert(!record_ok(n as int, replay.planets@[i as int]));
                }
                return None;
            }
            planets.push(
                Planet::new(i, rp.pos, rp.radius, crate::replay::copy_ids(&rp.neighbors)),
            );
            i = i + 1;
        }
        Some(Universe::new(num_players, size, planets))
    }

    /// Generate a map, retrying failed attempts with fresh randomness up to
    /// a generous bound; a configuration that cannot produce a valid map
    /// within the budget reports failure instead of hanging.
    #[verifier::loop_isolation(false)]
    pub fn random(
        rng: &mut rand::rngs::StdRng,
        size: Pos,
        planets_per_player: usize,
    ) -> (r: Option<Universe>)
        requires
            size.bounded(COORD_LIMIT as int),
            size.x >= 4 * GAME_BORDER_SIZE,
            size.y >= 4 * GAME_BORDER_SIZE,
            1 <= planets_per_player <= 50_000,
        ensures
            r matches Some(u) ==> generated_ok(u, size, planets_per_player),
    {
        let mut attempt: usize = 0;
        while attempt < MAX_MAP_ATTEMPTS
            invariant
                attempt <= MAX_MAP_ATTEMPTS,
            decreases MAX_MAP_ATTEMPTS - attempt,
        {
            match Universe::try_create_random(rng, size, planets_per_player) {
                Some(u) => {
                    return Some(u);
                },
                None => {},
            }
            attempt = attempt + 1;
        }
        None
    }
}

} // verus!


