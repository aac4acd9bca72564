//! A queryable set of 2D points, one index per agent kind: nearest-neighbor
//! and radius queries over `(position, identity)` entries.
//!
//! The index is a snapshot: it reflects agent positions as of its last
//! rebuild, which may lag the per-tick steering computation. Queries answer
//! relative to the snapshot; contact thresholds carry enough margin that
//! this staleness is acceptable.

use crate::geom::{dist_sq, dist_sq_val, Vec2, GEOM_LIMIT};
use vstd::prelude::*;

verus! {

/// One indexed point: the x and y coordinates and the agent's identity.
pub type Entry = (i64, i64, usize);

/// The position an entry indexes.
pub open spec fn entry_pos(e: Entry) -> Vec2 {
    Vec2 { x: e.0, y: e.1 }
}

/// Squared distance from a query point to an entry.
pub open spec fn entry_dsq(p: Vec2, e: Entry) -> int {
    dist_sq(p, entry_pos(e))
}

/// `j` indexes the first entry of `s` attaining the minimal squared
/// distance to `p`: no entry is closer, and every earlier entry is strictly
/// farther. At most one index satisfies this, so it pins the result of a
/// nearest-neighbor query exactly.
pub open spec fn is_first_min(s: Seq<Entry>, p: Vec2, j: int) -> bool {
    &&& 0 <= j < s.len()
    &&& forall|k: int| 0 <= k < s.len() ==> entry_dsq(p, #[trigger] s[k]) >= entry_dsq(p, s[j])
    &&& forall|k: int| 0 <= k < j ==> entry_dsq(p, #[trigger] s[k]) > entry_dsq(p, s[j])
}

/// The index of the first closest entry of `s` to `p`; meaningful whenever
/// `s` is non-empty.
pub closed spec fn first_min_idx(s: Seq<Entry>, p: Vec2) -> int {
    choose|j: int| is_first_min(s, p, j)
}

/// Only one index can be the first minimum.
pub proof fn lemma_first_min_unique(s: Seq<Entry>, p: Vec2, a: int, b: int)
    requires
        is_first_min(s, p, a),
        is_first_min(s, p, b),
    ensures
        a == b,
{
    if a < b {
        assert(entry_dsq(p, s[a]) > entry_dsq(p, s[b]));
        assert(entry_dsq(p, s[b]) >= entry_dsq(p, s[a]));
    }
    if b < a {
        assert(entry_dsq(p, s[b]) > entry_dsq(p, s[a]));
        assert(entry_dsq(p, s[a]) >= entry_dsq(p, s[b]));
    }
}

/// A witness that `j` is the first minimum pins `first_min_idx` to `j`.
pub proof fn lemma_first_min_pin(s: Seq<Entry>, p: Vec2, j: int)
    requires
        is_first_min(s, p, j),
    ensures
        first_min_idx(s, p) == j,
        is_first_min(s, p, first_min_idx(s, p)),
{
    let c = first_min_idx(s, p);
    assert(is_first_min(s, p, c));
    lemma_first_min_unique(s, p, j, c);
}

/// A non-empty entry list always has a first minimum, so `first_min_idx`
/// is a genuine witness, not an arbitrary value.
pub proof fn lemma_first_min_exists(s: Seq<Entry>, p: Vec2)
    requires
        s.len() > 0,
    ensures
        is_first_min(s, p, first_min_idx(s, p)),
    decreases s.len(),
{
    if s.len() == 1 {
        assert(is_first_min(s, p, 0));
    } else {
        let pre = s.drop_last();
        lemma_first_min_exists(pre, p);
        let j = first_min_idx(pre, p);
        assert(forall|k: int| 0 <= k < s.len() - 1 ==> pre[k] == s[k]);
        let dl = entry_dsq(p, s.last());
        assert(s[s.len() - 1] == s.last());
        if entry_dsq(p, pre[j]) <= dl {
            assert(is_first_min(s, p, j));
        } else {
            assert forall|k: int| 0 <= k < s.len() implies entry_dsq(p, #[trigger] s[k]) >= dl by {
                if k < s.len() - 1 {
                    assert(entry_dsq(p, pre[k]) >= entry_dsq(p, pre[j]));
                }
            }
            assert forall|k: int| 0 <= k < s.len() - 1 implies entry_dsq(p, #[trigger] s[k])
                > dl by {
                assert(entry_dsq(p, pre[k]) >= entry_dsq(p, pre[j]));
            }
            assert(is_first_min(s, p, s.len() - 1));
        }
    }
}

/// Some entry of `s` lies within squared distance `rad2` of `p`.
pub open spec fn has_within(s: Seq<Entry>, p: Vec2, rad2: int) -> bool {
    exists|j: int| 0 <= j < s.len() && entry_dsq(p, #[trigger] s[j]) <= rad2
}

/// `j` indexes the first entry within squared distance `rad2` of `p` that
/// attains the minimal squared distance among all entries within `rad2`.
pub open spec fn is_first_min_within(s: Seq<Entry>, p: Vec2, rad2: int, j: int) -> bool {
    &&& 0 <= j < s.len()
    &&& entry_dsq(p, s[j]) <= rad2
    &&& forall|k: int|
        0 <= k < s.len() && entry_dsq(p, #[trigger] s[k]) <= rad2 ==> entry_dsq(p, s[k])
            >= entry_dsq(p, s[j])
    &&& forall|k: int|
        0 <= k < j && entry_dsq(p, #[trigger] s[k]) <= rad2 ==> entry_dsq(p, s[k]) > entry_dsq(
            p,
            s[j],
        )
}

/// The index of the first closest in-range entry; meaningful whenever
/// `has_within` holds.
pub closed spec fn first_min_within_idx(s: Seq<Entry>, p: Vec2, rad2: int) -> int {
    choose|j: int| is_first_min_within(s, p, rad2, j)
}

/// Only one index can be the first in-range minimum.
pub proof fn lemma_first_min_within_unique(s: Seq<Entry>, p: Vec2, rad2: int, a: int, b: int)
    requires
        is_first_min_within(s, p, rad2, a),
        is_first_min_within(s, p, rad2, b),
    ensures
        a == b,
{
    if a < b {
        assert(entry_dsq(p, s[a]) > entry_dsq(p, s[b]));
        assert(entry_dsq(p, s[b]) >= entry_dsq(p, s[a]));
    }
    if b < a {
        assert(entry_dsq(p, s[b]) > entry_dsq(p, s[a]));
        assert(entry_dsq(p, s[a]) >= entry_dsq(p, s[b]));
    }
}

/// A witness that `j` is the first in-range minimum pins
/// `first_min_within_idx` to `j`.
pub proof fn lemma_first_min_within_pin(s: Seq<Entry>, p: Vec2, rad2: int, j: int)
    requires
        is_first_min_within(s, p, rad2, j),
    ensures
        first_min_within_idx(s, p, rad2) == j,
        is_first_min_within(s, p, rad2, first_min_within_idx(s, p, rad2)),
{
    let c = first_min_within_idx(s, p, rad2);
    assert(is_first_min_within(s, p, rad2, c));
    lemma_first_min_within_unique(s, p, rad2, j, c);
}

/// The spatial index for one kind: a flat list of position/identity entries.
pub struct SpatialIndex {
    pub entries: Vec<Entry>,
}

impl SpatialIndex {
    /// Every indexed position lies in the range the geometry accepts.
    pub open spec fn wf(self) -> bool {
        forall|i: int|
            0 <= i < self.entries@.len() ==> entry_pos(#[trigger] self.entries@[i]).in_range(
                GEOM_LIMIT as int,
            )
    }

    /// An empty index.
    pub fn new() -> (r: SpatialIndex)
        ensures
            r.entries@.len() == 0,
            r.wf(),
    {
        SpatialIndex { entries: Vec::new() }
    }

    /// The position and identity of the entry nearest to `pos`, taking the
    /// first entry on ties; nothing when the index is empty.
    pub fn query_nearest(&self, pos: Vec2) -> (r: Option<(Vec2, usize)>)
        requires
            self.wf(),
            pos.in_range(GEOM_LIMIT as int),
        ensures
            (r is None) <==> self.entries@.len() == 0,
            self.entries@.len() > 0 ==> {
                let j = first_min_idx(self.entries@, pos);
                &&& is_first_min(self.entries@, pos, j)
                &&& r == Some((entry_pos(self.entries@[j]), self.entries@[j].2))
            },
    {
        if self.entries.len() == 0 {
            return None;
        }
        let e0 = self.entries[0];
        let mut best: usize = 0;
        let mut best_d: i64 = dist_sq_val(pos, Vec2 { x: e0.0, y: e0.1 });
        let mut i: usize = 1;
        while i < self.entries.len()
            invariant
                self.wf(),
                pos.in_range(GEOM_LIMIT as int),
                0 < self.entries@.len(),
                0 <= best < i <= self.entries@.len(),
                best_d == entry_dsq(pos, self.entries@[best as int]),
                forall|k: int| 0 <= k < i ==> entry_dsq(pos, #[trigger] self.entries@[k]) >= best_d,
                forall|k: int|
                    0 <= k < best ==> entry_dsq(pos, #[trigger] self.entries@[k]) > best_d,
            decreases self.entries@.len() - i,
        {
            let e = self.entries[i];
            let d = dist_sq_val(pos, Vec2 { x: e.0, y: e.1 });
            if d < best_d {
                best = i;
                best_d = d;
            }
            i = i + 1;
        }
        proof {
            lemma_first_min_pin(self.entries@, pos, best as int);
        }
        let e = self.entries[best];
        Some((Vec2 { x: e.0, y: e.1 }, e.2))
    }

    /// All entries within distance `radius` of `pos`, in index order. The
    /// result may include an entry at the query point itself; callers that
    /// query the index of their own kind must exclude themselves.
    pub fn query_within(&self, pos: Vec2, radius: i64) -> (r: Vec<Entry>)
        requires
            self.wf(),
            pos.in_range(GEOM_LIMIT as int),
            0 <= radius <= GEOM_LIMIT,
        ensures
            r@ == self.entries@.filter(
                |e: Entry| entry_dsq(pos, e) <= radius * radius,
            ),
    {
        proof {
            assert(radius * radius <= 0x1_0000_0000_0000) by (nonlinear_arith)
                requires
                    0 <= radius <= 0x100_0000,
            ;
        }
        let rad2: i64 = radius * radius;
        let ghost pred = |e: Entry| entry_dsq(pos, e) <= radius * radius;
        let mut r: Vec<Entry> = Vec::new();
        let mut i: usize = 0;
        proof {
            assert(self.entries@.subrange(0, 0) =~= Seq::<Entry>::empty());
            reveal_with_fuel(Seq::<Entry>::filter, 2);
        }
        while i < self.entries.len()
            invariant
                self.wf(),
                pos.in_range(GEOM_LIMIT as int),
                0 <= i <= self.entries@.len(),
                rad2 == radius * radius,
                0 <= rad2,
                pred == (|e: Entry| entry_dsq(pos, e) <= radius * radius),
                r@ == self.entries@.subrange(0, i as int).filter(pred),
            decreases self.entries@.len() - i,
        {
            let e = self.entries[i];
            let d = dist_sq_val(pos, Vec2 { x: e.0, y: e.1 });
            proof {
                let pre = self.entries@.subrange(0, i as int);
                let post = self.entries@.subrange(0, i as int + 1);
                assert(post.drop_last() =~= pre);
                assert(post.last() == self.entries@[i as int]);
                reveal_with_fuel(Seq::<Entry>::filter, 2);
                assert(post.filter(pred) == if pred(post.last()) {
                    pre.filter(pred).push(post.last())
                } else {
                    pre.filter(pred)
                });
            }
            if d <= rad2 {
                r.push(e);
            }
            i = i + 1;
        }
        proof {
            assert(self.entries@.subrange(0, self.entries@.len() as int) =~= self.entries@);
        }
        r
    }
}

} // verus!
