//! The visibility pass: for every unordered pair of planets, whether the
//! straight segment between their centers is clear of every other planet's
//! disc (inflated by a ten percent safety margin), and at what distance.

use vstd::prelude::*;
use vstd::pervasive::VecAdditionalExecFns;
use crate::planet::Planet;
use crate::{COORD_LIMIT, PLANET_MAX_RADIUS, SCALE};

verus! {

/// Planets `i` and `j` see each other: no third planet's disc, inflated by
/// ten percent, comes closer to the segment between their centers than its
/// own inflated radius.
pub open spec fn visible(planets: Seq<Planet>, i: int, j: int) -> bool {
    forall|k: int|
        0 <= k < planets.len() && k != i && k != j ==> (#[trigger] planets[k]).pos.seg_dist(
            planets[i].pos,
            planets[j].pos,
        ) * 10 >= 11 * planets[k].radius
}

/// Visibility reads only positions and radii: it carries over to any
/// sequence that agrees on them.
pub proof fn lemma_visible_congruent(s1: Seq<Planet>, s2: Seq<Planet>, x: int, y: int)
    requires
        s1.len() == s2.len(),
        forall|i: int|
            0 <= i < s1.len() ==> (#[trigger] s2[i]).pos == s1[i].pos && s2[i].radius
                == s1[i].radius,
        0 <= x < s1.len(),
        0 <= y < s1.len(),
        visible(s1, x, y),
    ensures
        visible(s2, x, y),
{
    assert forall|k: int|
        0 <= k < s2.len() && k != x && k != y implies (#[trigger] s2[k]).pos.seg_dist(
        s2[x].pos,
        s2[y].pos,
    ) * 10 >= 11 * s2[k].radius by {
        assert(s1[k].pos.seg_dist(s1[x].pos, s1[y].pos) * 10 >= 11 * s1[k].radius);
    }
}

/// Visibility does not depend on the order of the pair.
pub proof fn lemma_visible_swap(planets: Seq<Planet>, x: int, y: int)
    requires
        0 <= x < planets.len(),
        0 <= y < planets.len(),
        visible(planets, x, y),
    ensures
        visible(planets, y, x),
{
    assert forall|k: int|
        0 <= k < planets.len() && k != y && k != x implies (#[trigger] planets[k]).pos.seg_dist(
        planets[y].pos,
        planets[x].pos,
    ) * 10 >= 11 * planets[k].radius by {
        crate::pos::lemma_seg_dist_swap(planets[k].pos, planets[x].pos, planets[y].pos);
        assert(planets[k].pos.seg_dist(planets[x].pos, planets[y].pos) * 10 >= 11 * planets[
            k
        ].radius);
    }
}

/// The symmetric half-matrix of candidate edges: for `i < j`, entry
/// `(i, j)` holds the center distance when the pair is visible and nothing
/// otherwise. Queries look the unordered pair up on the upper triangle.
pub struct AdjacencyMatrix {
    pub distances: Vec<Vec<Option<u64>>>,
}

impl AdjacencyMatrix {
    pub open spec fn dim(self) -> int {
        self.distances@.len() as int
    }

    pub open spec fn matrix_wf(self) -> bool {
        forall|i: int|
            0 <= i < self.dim() ==> (#[trigger] self.distances@[i])@.len() == self.dim()
    }

    /// The stored entry for the unordered pair `{i, j}`.
    pub open spec fn entry(self, i: int, j: int) -> Option<u64> {
        if i < j {
            self.distances@[i]@[j]
        } else {
            self.distances@[j]@[i]
        }
    }

    /// The matrix describes these planets: an upper-triangle entry holds
    /// the rounded center distance exactly when the pair is visible, and
    /// the diagonal and lower triangle hold nothing — a planet is never a
    /// candidate neighbor of itself.
    pub open spec fn consistent_with(self, planets: Seq<Planet>) -> bool {
        &&& self.dim() == planets.len()
        &&& self.matrix_wf()
        &&& forall|i: int, j: int|
            0 <= i < planets.len() && i < j < planets.len() ==> (#[trigger] self.distances@[i]@[
                j
            ]) == (if visible(planets, i, j) {
                Some(planets[i].pos.dist(planets[j].pos) as u64)
            } else {
                None::<u64>
            })
        &&& forall|i: int, j: int|
            0 <= j <= i < planets.len() ==> (#[trigger] self.distances@[i]@[j]) is None
    }

    /// Build the visibility matrix by checking every third planet against
    /// every pair of centers.
    pub fn new(planets: &Vec<Planet>) -> (m: AdjacencyMatrix)
        requires
            forall|i: int|
                0 <= i < planets@.len() ==> (#[trigger] planets@[i]).pos.bounded(
                    COORD_LIMIT as int,
                ),
            forall|i: int|
                0 <= i < planets@.len() ==> (#[trigger] planets@[i]).radius <= PLANET_MAX_RADIUS
                    + SCALE,
        ensures
            m.consistent_with(planets@),
    {
        let n = planets.len();
        let mut distances: Vec<Vec<Option<u64>>> = Vec::new();
        let mut i: usize = 0;
        while i < n
            invariant
                i <= n,
                n == planets@.len(),
                forall|a: int|
                    0 <= a < planets@.len() ==> (#[trigger] planets@[a]).pos.bounded(
                        COORD_LIMIT as int,
                    ),
                forall|a: int|
                    0 <= a < planets@.len() ==> (#[trigger] planets@[a]).radius
                        <= PLANET_MAX_RADIUS + SCALE,
                distances@.len() == i,
                forall|a: int| 0 <= a < i ==> (#[trigger] distances@[a])@.len() == n,
                forall|a: int, b: int|
                    0 <= a < i && a < b < n ==> (#[trigger] distances@[a]@[b]) == (if visible(
                        planets@,
                        a,
                        b,
                    ) {
                        Some(planets@[a].pos.dist(planets@[b].pos) as u64)
                    } else {
                        None::<u64>
                    }),
                forall|a: int, b: int|
                    0 <= a < i && 0 <= b <= a ==> (#[trigger] distances@[a]@[b]) is None,
            decreases n - i,
        {
            let mut row: Vec<Option<u64>> = vec![None; n];
            let mut j: usize = i + 1;
            while j < n
                invariant
                    i < j || j == i + 1,
                    i < n,
                    i + 1 <= j <= n,
                    n == planets@.len(),
                    forall|a: int|
                        0 <= a < planets@.len() ==> (#[trigger] planets@[a]).pos.bounded(
                            COORD_LIMIT as int,
                        ),
                    forall|a: int|
                        0 <= a < planets@.len() ==> (#[trigger] planets@[a]).radius
                            <= PLANET_MAX_RADIUS + SCALE,
                    row@.len() == n,
                    forall|b: int|
                        i < b < j ==> (#[trigger] row@[b]) == (if visible(planets@, i as int, b) {
                            Some(planets@[i as int].pos.dist(planets@[b].pos) as u64)
                        } else {
                            None::<u64>
                        }),
                    forall|b: int| 0 <= b <= i ==> (#[trigger] row@[b]) is None,
                    forall|b: int| j <= b < n ==> (#[trigger] row@[b]) is None,
                decreases n - j,
            {
                let mut clear = true;
                let mut k: usize = 0;
                while k < n
                    invariant
                        i < n,
                        j < n,
                        k <= n,
                        n == planets@.len(),
                        forall|a: int|
                            0 <= a < planets@.len() ==> (#[trigger] planets@[a]).pos.bounded(
                                COORD_LIMIT as int,
                            ),
                        forall|a: int|
                            0 <= a < planets@.len() ==> (#[trigger] planets@[a]).radius
                                <= PLANET_MAX_RADIUS + SCALE,
                        clear == forall|c: int|
                            0 <= c < k && c != i && c != j ==> (#[trigger] planets@[
                                c
                            ]).pos.seg_dist(planets@[i as int].pos, planets@[j as int].pos) * 10
                                >= 11 * planets@[c].radius,
                    decreases n - k,
                {
                    if k != i && k != j {
                        let d = planets[k].pos.distance_to_line_segment(
                            planets[i].pos,
                            planets[j].pos,
                        );
                        if (d as u128) * 10 < 11 * (planets[k].radius as u128) {
                            clear = false;
                        }
                    }
                    k = k + 1;
                }
                if clear {
                    row.set(j, Some(planets[i].pos.distance_to(planets[j].pos)));
                }
                j = j + 1;
            }
            distances.push(row);
            i = i + 1;
        }
        AdjacencyMatrix { distances }
    }

    /// The candidate-edge distance between `i` and `j`, whichever order
    /// they are given in.
    pub fn distance(&self, i: usize, j: usize) -> (r: Option<u64>)
        requires
            self.matrix_wf(),
            i < self.dim(),
            j < self.dim(),
        ensures
            r == self.entry(i as int, j as int),
    {
        if i < j {
            self.distances[i][j]
        } else {
            self.distances[j][i]
        }
    }
}

} // verus!
