//! Spatial index over the placed particles: an insertion-ordered list of
//! points supporting exact nearest-neighbour queries under the squared
//! Euclidean distance. Ties are broken toward the earliest inserted point,
//! so a query is a function of the contents and the insertion order.

use crate::vec3::{dist_sq, dist_sq_spec, v3_bounded, V3, COORD_LIMIT};
use vstd::prelude::*;

verus! {

/// Index of the nearest point to `q` among the first `len` entries of `s`:
/// the earliest index attaining the minimal squared distance.
pub open spec fn nearest_in(s: Seq<V3>, q: V3, len: int) -> int
    recommends
        1 <= len <= s.len(),
    decreases len,
{
    if len <= 1 {
        0
    } else {
        let best = nearest_in(s, q, len - 1);
        if dist_sq_spec(q, s[len - 1]) < dist_sq_spec(q, s[best]) {
            len - 1
        } else {
            best
        }
    }
}

/// The nearest index is in range and no other point is strictly closer.
pub proof fn lemma_nearest_in_props(s: Seq<V3>, q: V3, len: int)
    requires
        1 <= len <= s.len(),
    ensures
        0 <= nearest_in(s, q, len) < len,
        forall|j: int|
            0 <= j < len ==> dist_sq_spec(q, s[nearest_in(s, q, len)]) <= dist_sq_spec(
                q,
                #[trigger] s[j],
            ),
    decreases len,
{
    if len > 1 {
        lemma_nearest_in_props(s, q, len - 1);
    }
}

/// Append-only store of points with exact nearest-neighbour queries.
pub struct SpatialIndex {
    points: Vec<V3>,
}

impl SpatialIndex {
    /// The points in insertion order.
    pub closed spec fn view(&self) -> Seq<V3> {
        self.points@
    }

    /// An empty index.
    pub fn new() -> (r: SpatialIndex)
        ensures
            r@ == Seq::<V3>::empty(),
    {
        SpatialIndex { points: Vec::new() }
    }

    /// Number of indexed points.
    pub fn len(&self) -> (n: usize)
        ensures
            n == self@.len(),
    {
        self.points.len()
    }

    /// Appends a point; its identity is its insertion rank.
    pub fn insert(&mut self, p: V3)
        ensures
            final(self)@ == old(self)@.push(p),
    {
        self.points.push(p);
    }

    /// Identity of the nearest indexed point to `q`, the earliest on ties.
    pub fn nearest(&self, q: V3) -> (i: usize)
        requires
            self@.len() >= 1,
            v3_bounded(q, COORD_LIMIT as int),
            forall|j: int| 0 <= j < self@.len() ==> v3_bounded(#[trigger] self@[j], COORD_LIMIT as int),
        ensures
            i == nearest_in(self@, q, self@.len() as int),
            0 <= i < self@.len(),
            forall|j: int|
                0 <= j < self@.len() ==> dist_sq_spec(q, self@[i as int]) <= dist_sq_spec(
                    q,
                    #[trigger] self@[j],
                ),
    {
        proof {
            lemma_nearest_in_props(self@, q, self@.len() as int);
        }
        let n = self.points.len();
        let mut best: usize = 0;
        let mut best_d: u128 = dist_sq(q, self.points[0]);
        let mut k: usize = 1;
        while k < n
            invariant
                1 <= k <= n,
                n == self@.len(),
                best == nearest_in(self@, q, k as int),
                0 <= best < k,
                best_d == dist_sq_spec(q, self@[best as int]),
                v3_bounded(q, COORD_LIMIT as int),
                forall|j: int|
                    0 <= j < self@.len() ==> v3_bounded(#[trigger] self@[j], COORD_LIMIT as int),
            decreases n - k,
        {
            let d = dist_sq(q, self.points[k]);
            if d < best_d {
                best = k;
                best_d = d;
            }
            k = k + 1;
        }
        best
    }
}

} // verus!
