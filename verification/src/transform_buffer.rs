//! Time-indexed transforms between coordinate frames.
//!
//! A [`TransformHistory`] keeps the transforms of one parent-child pair by
//! time; a [`TransformBuffer`] keeps one history per pair, together with the
//! frame tree, and plans the lookup of the transform between two frames at a
//! time: which stored transforms are combined, in which order, and which of
//! them are inverted. The transforms themselves are values of any type `T`;
//! combining, inverting and interpolating them is left to the caller.

use std::time::Duration;
use vstd::prelude::*;
use crate::frame::{FrameId, Timestamp, duration_nanos, duration_as_nanos};
use crate::frame_tree::{
    FrameTree, NodeModel, ids, with_node, spec_set_parent, parent_of, rooted, root_path,
    spec_common_ancestor, prefix_before,
};

verus! {

// ============================================================================
// TRANSFORM ERROR
// ============================================================================

/// Errors that can occur when looking up transforms.
#[derive(Debug)]
pub enum TransformError {
    /// No path exists between the two frames
    NoPath(String, String),
    /// No transform is stored for the frame
    TransformNotFound(String),
    /// The requested time is outside the buffered range
    ExtrapolationError { requested: Timestamp, oldest: Timestamp, newest: Timestamp },
    /// The frame does not exist
    FrameNotFound(String),
    /// The buffer is empty for the frame
    EmptyBuffer(String),
}

// ============================================================================
// TRANSFORM HISTORY
// ============================================================================

/// What a history gives for a time: a stored transform, or the two stored
/// transforms around it, between which the caller interpolates.
#[derive(Debug)]
pub enum Sample<T> {
    At(T),
    Between { before: (Timestamp, T), after: (Timestamp, T) },
}

/// The times of a sequence of entries.
pub open spec fn stamps<T>(s: Seq<(Timestamp, T)>) -> Seq<i64> {
    s.map_values(|e: (Timestamp, T)| e.0.0)
}

/// Every time is smaller than the ones after it.
pub open spec fn strictly_sorted(s: Seq<i64>) -> bool {
    forall|i: int, j: int| 0 <= i < j < s.len() ==> s[i] < s[j]
}

/// The map from time to transform that a sequence of entries stands for.
pub open spec fn history_map<T>(s: Seq<(Timestamp, T)>) -> Map<i64, T> {
    Map::new(|k: i64| stamps(s).contains(k), |k: i64| s[stamps(s).index_of(k)].1)
}

/// The entries of `m` at time `c` or later.
pub open spec fn keep_from<T>(m: Map<i64, T>, c: i64) -> Map<i64, T> {
    m.restrict(Set::new(|k: i64| k >= c))
}

/// `k` is the latest time of `m` before `t`.
pub open spec fn is_floor<T>(m: Map<i64, T>, t: i64, k: i64) -> bool {
    &&& m.dom().contains(k)
    &&& k < t
    &&& forall|j: i64| #[trigger] m.dom().contains(j) && j < t ==> j <= k
}

/// `k` is the earliest time of `m` after `t`.
pub open spec fn is_ceil<T>(m: Map<i64, T>, t: i64, k: i64) -> bool {
    &&& m.dom().contains(k)
    &&& t < k
    &&& forall|j: i64| #[trigger] m.dom().contains(j) && t < j ==> k <= j
}

/// What a history holding `m` gives for the time `t`: the transform stored at
/// `t`; else the two around `t`; else the nearest one on the side where there
/// is one; nothing when `m` is empty.
pub open spec fn sample_of<T>(m: Map<i64, T>, t: i64) -> Option<Sample<T>> {
    if m.dom().contains(t) {
        Some(Sample::At(m[t]))
    } else if (exists|a: i64| is_floor(m, t, a)) && (exists|b: i64| is_ceil(m, t, b)) {
        let a = choose|a: i64| is_floor(m, t, a);
        let b = choose|b: i64| is_ceil(m, t, b);
        Some(Sample::Between { before: (Timestamp(a), m[a]), after: (Timestamp(b), m[b]) })
    } else if exists|a: i64| is_floor(m, t, a) {
        let a = choose|a: i64| is_floor(m, t, a);
        Some(Sample::At(m[a]))
    } else if exists|b: i64| is_ceil(m, t, b) {
        let b = choose|b: i64| is_ceil(m, t, b);
        Some(Sample::At(m[b]))
    } else {
        None
    }
}

proof fn lemma_sorted_no_dup<T>(s: Seq<(Timestamp, T)>)
    requires
        strictly_sorted(stamps(s)),
    ensures
        stamps(s).no_duplicates(),
{
    assert forall|a: int, b: int| 0 <= a < stamps(s).len() && 0 <= b < stamps(s).len() && a
        != b implies stamps(s)[a] != stamps(s)[b] by {
        if a < b {
            assert(stamps(s)[a] < stamps(s)[b]);
        } else {
            assert(stamps(s)[b] < stamps(s)[a]);
        }
    }
}

proof fn lemma_hist_at<T>(s: Seq<(Timestamp, T)>, i: int)
    requires
        strictly_sorted(stamps(s)),
        0 <= i < s.len(),
    ensures
        history_map(s).dom().contains(s[i].0.0),
        history_map(s)[s[i].0.0] == s[i].1,
{
    lemma_sorted_no_dup(s);
    let ks = stamps(s);
    assert(ks[i] == s[i].0.0);
    assert(ks.contains(s[i].0.0));
    let j = ks.index_of(s[i].0.0);
    assert(ks[j] == ks[i]);
}

proof fn lemma_hist_dom<T>(s: Seq<(Timestamp, T)>, k: i64)
    ensures
        history_map(s).dom().contains(k) <==> exists|i: int| 0 <= i < s.len() && s[i].0.0 == k,
{
    if history_map(s).dom().contains(k) {
        let i = stamps(s).index_of(k);
        assert(0 <= i < s.len() && stamps(s)[i] == k);
    }
    if exists|i: int| 0 <= i < s.len() && s[i].0.0 == k {
        let i = choose|i: int| 0 <= i < s.len() && s[i].0.0 == k;
        assert(stamps(s)[i] == k);
    }
}

/// Putting an entry where its time belongs adds it to the map.
proof fn lemma_hist_insert<T>(s: Seq<(Timestamp, T)>, p: int, e: (Timestamp, T))
    requires
        strictly_sorted(stamps(s)),
        0 <= p <= s.len(),
        forall|i: int| 0 <= i < p ==> s[i].0.0 < e.0.0,
        forall|i: int| p <= i < s.len() ==> s[i].0.0 > e.0.0,
    ensures
        strictly_sorted(stamps(s.insert(p, e))),
        history_map(s.insert(p, e)) == history_map(s).insert(e.0.0, e.1),
{
    let t = s.insert(p, e);
    assert(forall|i: int| 0 <= i < t.len() ==> stamps(t)[i] == t[i].0.0);
    assert forall|i: int, j: int| 0 <= i < j < stamps(t).len() implies stamps(t)[i]
        < stamps(t)[j] by {
        if j < p {
            assert(stamps(s)[i] < stamps(s)[j]);
        } else if j == p {
        } else if i < p {
        } else if i == p {
        } else {
            assert(stamps(s)[i - 1] < stamps(s)[j - 1]);
        }
    }
    let m = history_map(s).insert(e.0.0, e.1);
    assert forall|k: i64| #[trigger] history_map(t).dom().contains(k) <==> m.dom().contains(k) by {
        lemma_hist_dom(s, k);
        lemma_hist_dom(t, k);
        if exists|i: int| 0 <= i < t.len() && t[i].0.0 == k {
            let i = choose|i: int| 0 <= i < t.len() && t[i].0.0 == k;
            if i < p {
                assert(t[i] == s[i]);
            } else if i > p {
                assert(t[i] == s[i - 1]);
            }
        }
        if exists|i: int| 0 <= i < s.len() && s[i].0.0 == k {
            let i = choose|i: int| 0 <= i < s.len() && s[i].0.0 == k;
            if i < p {
                assert(t[i] == s[i]);
            } else {
                assert(t[i + 1] == s[i]);
            }
        }
        if k == e.0.0 {
            assert(t[p] == e);
        }
    }
    assert forall|k: i64| #[trigger] history_map(t).dom().contains(k) implies history_map(t)[k]
        == m[k] by {
        lemma_hist_dom(t, k);
        let i = choose|i: int| 0 <= i < t.len() && t[i].0.0 == k;
        lemma_hist_at(t, i);
        if i < p {
            assert(t[i] == s[i]);
            lemma_hist_at(s, i);
        } else if i > p {
            assert(t[i] == s[i - 1]);
            lemma_hist_at(s, i - 1);
        } else {
            assert(t[p] == e);
        }
    }
    assert(history_map(t) =~= m);
}

/// Replacing the entry whose time is that of `e` updates the map.
proof fn lemma_hist_update<T>(s: Seq<(Timestamp, T)>, p: int, e: (Timestamp, T))
    requires
        strictly_sorted(stamps(s)),
        0 <= p < s.len(),
        s[p].0.0 == e.0.0,
    ensures
        stamps(s.update(p, e)) == stamps(s),
        history_map(s.update(p, e)) == history_map(s).insert(e.0.0, e.1),
{
    let t = s.update(p, e);
    assert(stamps(t) =~= stamps(s));
    let m = history_map(s).insert(e.0.0, e.1);
    assert forall|k: i64| #[trigger] history_map(t).dom().contains(k) <==> m.dom().contains(k) by {
        lemma_hist_dom(s, k);
        lemma_hist_dom(t, k);
        if exists|i: int| 0 <= i < t.len() && t[i].0.0 == k {
            let i = choose|i: int| 0 <= i < t.len() && t[i].0.0 == k;
            if i != p {
                assert(t[i] == s[i]);
            }
        }
        if exists|i: int| 0 <= i < s.len() && s[i].0.0 == k {
            let i = choose|i: int| 0 <= i < s.len() && s[i].0.0 == k;
            if i != p {
                assert(t[i] == s[i]);
            } else {
                assert(t[p] == e);
            }
        }
    }
    assert forall|k: i64| #[trigger] history_map(t).dom().contains(k) implies history_map(t)[k]
        == m[k] by {
        lemma_hist_dom(t, k);
        let i = choose|i: int| 0 <= i < t.len() && t[i].0.0 == k;
        lemma_hist_at(t, i);
        if i != p {
            assert(t[i] == s[i]);
            if i < p {
                assert(stamps(s)[i] < stamps(s)[p]);
            } else {
                assert(stamps(s)[p] < stamps(s)[i]);
            }
            lemma_hist_at(s, i);
        } else {
            assert(t[p] == e);
        }
    }
    assert(history_map(t) =~= m);
}

/// Dropping the entries before `p`, which are those before `c`, keeps the
/// map's entries at `c` or later.
proof fn lemma_hist_suffix<T>(s: Seq<(Timestamp, T)>, p: int, c: i64)
    requires
        strictly_sorted(stamps(s)),
        0 <= p <= s.len(),
        forall|i: int| 0 <= i < p ==> s[i].0.0 < c,
        forall|i: int| p <= i < s.len() ==> s[i].0.0 >= c,
    ensures
        strictly_sorted(stamps(s.subrange(p, s.len() as int))),
        history_map(s.subrange(p, s.len() as int)) == keep_from(history_map(s), c),
{
    let t = s.subrange(p, s.len() as int);
    assert forall|i: int, j: int| 0 <= i < j < stamps(t).len() implies stamps(t)[i]
        < stamps(t)[j] by {
        assert(stamps(t)[i] == stamps(s)[i + p]);
        assert(stamps(t)[j] == stamps(s)[j + p]);
    }
    let m = keep_from(history_map(s), c);
    assert forall|k: i64| #[trigger] history_map(t).dom().contains(k) <==> m.dom().contains(k) by {
        lemma_hist_dom(s, k);
        lemma_hist_dom(t, k);
        if exists|i: int| 0 <= i < t.len() && t[i].0.0 == k {
            let i = choose|i: int| 0 <= i < t.len() && t[i].0.0 == k;
            assert(t[i] == s[i + p]);
        }
        if k >= c && exists|i: int| 0 <= i < s.len() && s[i].0.0 == k {
            let i = choose|i: int| 0 <= i < s.len() && s[i].0.0 == k;
            assert(i >= p);
            assert(t[i - p] == s[i]);
        }
    }
    assert forall|k: i64| #[trigger] history_map(t).dom().contains(k) implies history_map(t)[k]
        == m[k] by {
        lemma_hist_dom(t, k);
        let i = choose|i: int| 0 <= i < t.len() && t[i].0.0 == k;
        lemma_hist_at(t, i);
        assert(t[i] == s[i + p]);
        lemma_hist_at(s, i + p);
    }
    assert(history_map(t) =~= m);
}

/// Time-indexed history of the transforms of one parent-child pair.
#[derive(Debug)]
pub struct TransformHistory<T> {
    /// Entries in increasing order of time, no time twice
    transforms: Vec<(Timestamp, T)>,
    /// How long transforms are kept
    max_duration: Duration,
}

impl<T> View for TransformHistory<T> {
    type V = Map<i64, T>;

    closed spec fn view(&self) -> Map<i64, T> {
        history_map(self.transforms@)
    }
}

impl<T: Copy> TransformHistory<T> {
    /// Times are kept in increasing order, none twice.
    pub closed spec fn wf(&self) -> bool {
        strictly_sorted(stamps(self.transforms@))
    }

    /// How long transforms are kept.
    pub closed spec fn spec_max_duration(&self) -> Duration {
        self.max_duration
    }

    /// Create a new, empty transform history.
    pub fn new(max_duration: Duration) -> (r: Self)
        ensures
            r.wf(),
            r@ == Map::<i64, T>::empty(),
            r.spec_max_duration() == max_duration,
    {
        let r = TransformHistory { transforms: Vec::new(), max_duration };
        assert(r@ =~= Map::<i64, T>::empty());
        r
    }

    /// The index of the first entry at time `t` or later.
    fn lower_bound(&self, t: i64) -> (r: usize)
        requires
            self.wf(),
        ensures
            r <= self.transforms@.len(),
            forall|i: int| 0 <= i < r ==> self.transforms@[i].0.0 < t,
            forall|i: int| r <= i < self.transforms@.len() ==> self.transforms@[i].0.0 >= t,
    {
        let n = self.transforms.len();
        let mut i: usize = 0;
        while i < n
            invariant
                self.wf(),
                n == self.transforms@.len(),
                i <= n,
                forall|j: int| 0 <= j < i ==> self.transforms@[j].0.0 < t,
            decreases n - i,
        {
            if self.transforms[i].0.0 >= t {
                proof {
                    assert forall|j: int| i <= j < n implies self.transforms@[j].0.0 >= t by {
                        if j > i {
                            assert(stamps(self.transforms@)[i as int] < stamps(
                                self.transforms@,
                            )[j]);
                        }
                    }
                }
                return i;
            }
            i = i + 1;
        }
        i
    }

    /// Insert a transform at the given time, replacing one already there.
    pub fn insert(&mut self, timestamp: Timestamp, transform: T)
        requires
            old(self).wf(),
        ensures
            final(self).wf(),
            final(self)@ == old(self)@.insert(timestamp.0, transform),
            final(self).spec_max_duration() == old(self).spec_max_duration(),
    {
        let p = self.lower_bound(timestamp.0);
        let ghost s = self.transforms@;
        if p < self.transforms.len() && self.transforms[p].0.0 == timestamp.0 {
            proof {
                lemma_hist_update(s, p as int, (timestamp, transform));
            }
            self.transforms.set(p, (timestamp, transform));
        } else {
            proof {
                assert forall|i: int| p <= i < s.len() implies s[i].0.0 > timestamp.0 by {
                    if i > p {
                        assert(stamps(s)[p as int] < stamps(s)[i]);
                    }
                }
                lemma_hist_insert(s, p as int, (timestamp, transform));
            }
            self.transforms.insert(p, (timestamp, transform));
        }
    }

    /// Remove the transforms older than the kept duration, counted back from
    /// `now`: those before `now` less that many nanoseconds (cut to 64 bits).
    pub fn prune_old(&mut self, now: &Timestamp)
        requires
            old(self).wf(),
            i64::MIN <= now.0 - (duration_nanos(old(self).spec_max_duration()) as i64) <= i64::MAX,
        ensures
            final(self).wf(),
            final(self)@ == keep_from(
                old(self)@,
                (now.0 - (duration_nanos(old(self).spec_max_duration()) as i64)) as i64,
            ),
            final(self).spec_max_duration() == old(self).spec_max_duration(),
    {
        let max_nanos = duration_as_nanos(&self.max_duration) as i64;
        let cutoff = Timestamp::from_nanos(now.as_nanos() - max_nanos);
        let p = self.lower_bound(cutoff.0);
        let ghost s = self.transforms@;
        proof {
            lemma_hist_suffix(s, p as int, cutoff.0);
        }
        let kept = self.transforms.split_off(p);
        self.transforms = kept;
    }

    /// Prune as `prune_old` does when `now` less the kept duration fits in 64
    /// bits, and say so; otherwise leave the history as it is and say not.
    pub fn prune_old_checked(&mut self, now: &Timestamp) -> (r: bool)
        requires
            old(self).wf(),
        ensures
            final(self).wf(),
            r == (i64::MIN <= now.0 - (duration_nanos(old(self).spec_max_duration()) as i64)
                <= i64::MAX),
            r ==> final(self)@ == keep_from(
                old(self)@,
                (now.0 - (duration_nanos(old(self).spec_max_duration()) as i64)) as i64,
            ),
            !r ==> final(self)@ == old(self)@,
            final(self).spec_max_duration() == old(self).spec_max_duration(),
    {
        let max_nanos = duration_as_nanos(&self.max_duration) as i64;
        match now.0.checked_sub(max_nanos) {
            Some(_) => {
                self.prune_old(now);
                true
            },
            None => false,
        }
    }

    /// Get the transform at a time: the one stored there, else the two
    /// around it for the caller to interpolate between, else the nearest one;
    /// an error when the history is empty.
    pub fn get_at(&self, time: &Timestamp) -> (r: Result<Sample<T>, TransformError>)
        requires
            self.wf(),
        ensures
            r is Err <==> self@.dom() == Set::<i64>::empty(),
            match r {
                Ok(s) => sample_of(self@, time.0) == Some(s),
                Err(e) => {
                    &&& sample_of(self@, time.0) is None
                    &&& e matches TransformError::EmptyBuffer(m) && m@ == "unknown"@
                },
            },
    {
        let ghost s = self.transforms@;
        let ghost m = self@;
        let t = time.0;
        let n = self.transforms.len();
        if n == 0 {
            proof {
                assert forall|k: i64| !m.dom().contains(k) by {
                    lemma_hist_dom(s, k);
                }
                assert(m.dom() =~= Set::<i64>::empty());
            }
            return Err(TransformError::EmptyBuffer("unknown".to_string()));
        }
        proof {
            lemma_hist_at(s, 0);
            assert(m.dom().contains(s[0].0.0));
        }
        let p = self.lower_bound(t);
        if p < n && self.transforms[p].0.0 == t {
            proof {
                lemma_hist_at(s, p as int);
            }
            return Ok(Sample::At(self.transforms[p].1));
        }
        proof {
            lemma_hist_dom(s, t);
            if m.dom().contains(t) {
                let i = choose|i: int| 0 <= i < s.len() && s[i].0.0 == t;
                if i > p {
                    assert(stamps(s)[p as int] < stamps(s)[i]);
                }
            }
            assert(!m.dom().contains(t));
        }
        // The latest entry before `t`, if any, is at p - 1; the earliest after
        // it, if any, at p.
        proof {
            if p > 0 {
                let a = s[p - 1].0.0;
                lemma_hist_at(s, p - 1);
                assert forall|j: i64| #[trigger] m.dom().contains(j) && j < t implies j <= a by {
                    lemma_hist_dom(s, j);
                    let i = choose|i: int| 0 <= i < s.len() && s[i].0.0 == j;
                    if i > p - 1 {
                        assert(i >= p);
                        assert(false);
                    } else if i < p - 1 {
                        assert(stamps(s)[i] < stamps(s)[p - 1]);
                    }
                }
                assert(is_floor(m, t, a));
                let a2 = choose|a2: i64| is_floor(m, t, a2);
                assert(a2 <= a && a <= a2);
            } else {
                assert forall|a: i64| !is_floor(m, t, a) by {
                    if is_floor(m, t, a) {
                        lemma_hist_dom(s, a);
                        let i = choose|i: int| 0 <= i < s.len() && s[i].0.0 == a;
                    }
                }
            }
            if p < n {
                let b = s[p as int].0.0;
                lemma_hist_at(s, p as int);
                assert forall|j: i64| #[trigger] m.dom().contains(j) && t < j implies b <= j by {
                    lemma_hist_dom(s, j);
                    let i = choose|i: int| 0 <= i < s.len() && s[i].0.0 == j;
                    if i < p {
                        assert(false);
                    } else if i > p {
                        assert(stamps(s)[p as int] < stamps(s)[i]);
                    }
                }
                assert(is_ceil(m, t, b));
                let b2 = choose|b2: i64| is_ceil(m, t, b2);
                assert(b2 <= b && b <= b2);
            } else {
                assert forall|b: i64| !is_ceil(m, t, b) by {
                    if is_ceil(m, t, b) {
                        lemma_hist_dom(s, b);
                        let i = choose|i: int| 0 <= i < s.len() && s[i].0.0 == b;
                    }
                }
            }
        }
        if p > 0 && p < n {
            let before = self.transforms[p - 1];
            let after = self.transforms[p];
            Ok(Sample::Between { before, after })
        } else if p > 0 {
            Ok(Sample::At(self.transforms[p - 1].1))
        } else {
            Ok(Sample::At(self.transforms[p].1))
        }
    }

    /// Get the latest transform and its time.
    pub fn get_latest(&self) -> (r: Option<(Timestamp, T)>)
        requires
            self.wf(),
        ensures
            r is None <==> self@.dom() == Set::<i64>::empty(),
            r matches Some((t, tf)) ==> self@.dom().contains(t.0) && self@[t.0] == tf && forall|
                k: i64,
            | #[trigger] self@.dom().contains(k) ==> k <= t.0,
    {
        let ghost s = self.transforms@;
        let n = self.transforms.len();
        if n == 0 {
            proof {
                assert forall|k: i64| !self@.dom().contains(k) by {
                    lemma_hist_dom(s, k);
                }
                assert(self@.dom() =~= Set::<i64>::empty());
            }
            return None;
        }
        let e = self.transforms[n - 1];
        proof {
            lemma_hist_at(s, n - 1);
            assert forall|k: i64| #[trigger] self@.dom().contains(k) implies k <= e.0.0 by {
                lemma_hist_dom(s, k);
                let i = choose|i: int| 0 <= i < s.len() && s[i].0.0 == k;
                if i < n - 1 {
                    assert(stamps(s)[i] < stamps(s)[n - 1]);
                }
            }
        }
        Some(e)
    }

    /// Get the oldest transform and its time.
    pub fn get_oldest(&self) -> (r: Option<(Timestamp, T)>)
        requires
            self.wf(),
        ensures
            r is None <==> self@.dom() == Set::<i64>::empty(),
            r matches Some((t, tf)) ==> self@.dom().contains(t.0) && self@[t.0] == tf && forall|
                k: i64,
            | #[trigger] self@.dom().contains(k) ==> t.0 <= k,
    {
        let ghost s = self.transforms@;
        let n = self.transforms.len();
        if n == 0 {
            proof {
                assert forall|k: i64| !self@.dom().contains(k) by {
                    lemma_hist_dom(s, k);
                }
                assert(self@.dom() =~= Set::<i64>::empty());
            }
            return None;
        }
        let e = self.transforms[0];
        proof {
            lemma_hist_at(s, 0);
            assert forall|k: i64| #[trigger] self@.dom().contains(k) implies e.0.0 <= k by {
                lemma_hist_dom(s, k);
                let i = choose|i: int| 0 <= i < s.len() && s[i].0.0 == k;
                if i > 0 {
                    assert(stamps(s)[0] < stamps(s)[i]);
                }
            }
        }
        Some(e)
    }

    /// Get the number of transforms in the history.
    pub fn len(&self) -> (r: usize)
        requires
            self.wf(),
        ensures
            r == self@.dom().len(),
    {
        proof {
            let ks = stamps(self.transforms@);
            assert(self@.dom() =~= ks.to_set());
            lemma_sorted_no_dup(self.transforms@);
            ks.unique_seq_to_set();
        }
        self.transforms.len()
    }

    /// Check if the history is empty.
    pub fn is_empty(&self) -> (r: bool)
        requires
            self.wf(),
        ensures
            r <==> self@.dom() == Set::<i64>::empty(),
    {
        proof {
            if self.transforms@.len() > 0 {
                lemma_hist_at(self.transforms@, 0);
            } else {
                assert forall|k: i64| !self@.dom().contains(k) by {
                    lemma_hist_dom(self.transforms@, k);
                }
                assert(self@.dom() =~= Set::<i64>::empty());
            }
        }
        self.transforms.len() == 0
    }

    /// Get the oldest and newest times in the history.
    pub fn time_range(&self) -> (r: Option<(Timestamp, Timestamp)>)
        requires
            self.wf(),
        ensures
            r is None <==> self@.dom() == Set::<i64>::empty(),
            r matches Some((a, b)) ==> self@.dom().contains(a.0) && self@.dom().contains(b.0)
                && forall|k: i64| #[trigger] self@.dom().contains(k) ==> a.0 <= k <= b.0,
    {
        let oldest = self.get_oldest();
        let newest = self.get_latest();
        match (oldest, newest) {
            (Some((a, _)), Some((b, _))) => Some((a, b)),
            _ => None,
        }
    }

    /// Clear all transforms.
    pub fn clear(&mut self)
        ensures
            final(self).wf(),
            final(self)@ == Map::<i64, T>::empty(),
            final(self).spec_max_duration() == old(self).spec_max_duration(),
    {
        self.transforms.clear();
        assert(self@ =~= Map::<i64, T>::empty());
    }
}


// ============================================================================
// TRANSFORM KEY
// ============================================================================

/// Key for identifying a transform between two frames.
#[derive(Debug)]
pub struct TransformKey {
    pub parent: FrameId,
    pub child: FrameId,
}

impl View for TransformKey {
    type V = (Seq<char>, Seq<char>);

    open spec fn view(&self) -> (Seq<char>, Seq<char>) {
        (self.parent@, self.child@)
    }
}

impl TransformKey {
    /// The key of the transform from `parent` to `child`.
    pub fn new(parent: FrameId, child: FrameId) -> (r: TransformKey)
        ensures
            r.parent == parent,
            r.child == child,
    {
        TransformKey { parent, child }
    }
}

impl Clone for TransformKey {
    fn clone(&self) -> (r: Self)
        ensures
            r@ == self@,
    {
        TransformKey { parent: self.parent.clone(), child: self.child.clone() }
    }
}

impl PartialEq for TransformKey {
    fn eq(&self, other: &Self) -> (r: bool) {
        self.parent == other.parent && self.child == other.child
    }
}

impl vstd::std_specs::cmp::PartialEqSpecImpl for TransformKey {
    open spec fn obeys_eq_spec() -> bool {
        true
    }

    open spec fn eq_spec(&self, other: &Self) -> bool {
        self@ == other@
    }
}

impl Eq for TransformKey {
}

// ============================================================================
// TRANSFORM BUFFER
// ============================================================================

/// One stored transform used by a lookup, and whether it is inverted.
#[derive(Debug)]
pub struct LookupStep<T> {
    pub sample: Sample<T>,
    pub invert: bool,
}

/// The keys of a sequence of histories.
pub open spec fn history_keys<T>(s: Seq<(TransformKey, TransformHistory<T>)>) -> Seq<
    (Seq<char>, Seq<char>),
> {
    s.map_values(|e: (TransformKey, TransformHistory<T>)| e.0@)
}

/// The map from (parent, child) to history that a sequence of histories with
/// distinct keys stands for.
pub open spec fn histories_model<T>(s: Seq<(TransformKey, TransformHistory<T>)>) -> Map<
    (Seq<char>, Seq<char>),
    Map<i64, T>,
> {
    Map::new(
        |k: (Seq<char>, Seq<char>)| history_keys(s).contains(k),
        |k: (Seq<char>, Seq<char>)| s[history_keys(s).index_of(k)].1@,
    )
}

/// The edges combined to go from `source` to `target` through their common
/// ancestor `anc`, each as (parent, child, inverted): up from the source to
/// the ancestor, inverted, then down from the ancestor to the target.
pub open spec fn lookup_edges(
    tree: Map<Seq<char>, NodeModel>,
    source: Seq<char>,
    target: Seq<char>,
    anc: Seq<char>,
) -> Seq<(Seq<char>, Seq<char>, bool)> {
    let up = prefix_before(root_path(tree, source), anc);
    let down = prefix_before(root_path(tree, target), anc).reverse();
    Seq::new(
        up.len(),
        |i: int|
            (
                if i + 1 < up.len() {
                    up[i + 1]
                } else {
                    anc
                },
                up[i],
                true,
            ),
    ) + Seq::new(
        down.len(),
        |i: int|
            (
                if i == 0 {
                    anc
                } else {
                    down[i - 1]
                },
                down[i],
                false,
            ),
    )
}

/// The sample of edge `e` at time `t`, if its history is stored and not empty.
pub open spec fn edge_sample<T>(
    h: Map<(Seq<char>, Seq<char>), Map<i64, T>>,
    e: (Seq<char>, Seq<char>, bool),
    t: i64,
) -> Option<Sample<T>> {
    if h.dom().contains((e.0, e.1)) {
        sample_of(h[(e.0, e.1)], t)
    } else {
        None
    }
}

/// The steps for the first `n` edges of `es` at time `t`; or, when some edge
/// has no sample, the child frame of the first such edge.
pub open spec fn plan_steps<T>(
    h: Map<(Seq<char>, Seq<char>), Map<i64, T>>,
    es: Seq<(Seq<char>, Seq<char>, bool)>,
    t: i64,
    n: nat,
) -> Result<Seq<LookupStep<T>>, Seq<char>>
    decreases n,
{
    if n == 0 {
        Ok(Seq::empty())
    } else {
        match plan_steps(h, es, t, (n - 1) as nat) {
            Err(c) => Err(c),
            Ok(prev) => {
                let e = es[n - 1];
                match edge_sample(h, e, t) {
                    Some(smp) => Ok(prev.push(LookupStep { sample: smp, invert: e.2 })),
                    None => Err(e.1),
                }
            },
        }
    }
}

proof fn lemma_plan_err_stable<T>(
    h: Map<(Seq<char>, Seq<char>), Map<i64, T>>,
    es: Seq<(Seq<char>, Seq<char>, bool)>,
    t: i64,
    j: nat,
    k: nat,
)
    requires
        j <= k,
        plan_steps(h, es, t, j) is Err,
    ensures
        plan_steps(h, es, t, k) == plan_steps(h, es, t, j),
    decreases k - j,
{
    if j < k {
        lemma_plan_err_stable(h, es, t, j, (k - 1) as nat);
    }
}

/// How a lookup from `source` to `target` at time `t` ends.
pub enum LookupOutcome<T> {
    /// The steps to combine, in order
    Steps(Seq<LookupStep<T>>),
    /// The frames are not connected
    NoPath,
    /// No transform is stored, at any time, for the edge into this frame
    NotFound(Seq<char>),
}

/// How a lookup from `source` to `target` at time `t` ends, given the frame
/// tree and the stored histories.
pub open spec fn lookup_outcome<T>(
    tree: Map<Seq<char>, NodeModel>,
    h: Map<(Seq<char>, Seq<char>), Map<i64, T>>,
    target: Seq<char>,
    source: Seq<char>,
    t: i64,
) -> LookupOutcome<T> {
    if target == source {
        LookupOutcome::Steps(Seq::empty())
    } else {
        match spec_common_ancestor(tree, source, target) {
            None => LookupOutcome::NoPath,
            Some(anc) => {
                let es = lookup_edges(tree, source, target, anc);
                match plan_steps(h, es, t, es.len()) {
                    Ok(steps) => LookupOutcome::Steps(steps),
                    Err(c) => LookupOutcome::NotFound(c),
                }
            },
        }
    }
}

/// The result `r` of a lookup from `source` to `target` is what `o` says.
pub open spec fn lookup_result_is<T>(
    r: Result<Vec<LookupStep<T>>, TransformError>,
    o: LookupOutcome<T>,
    target: Seq<char>,
    source: Seq<char>,
) -> bool {
    match o {
        LookupOutcome::Steps(steps) => r matches Ok(v) && v@ == steps,
        LookupOutcome::NoPath => r matches Err(TransformError::NoPath(a, b)) && a@ == source
            && b@ == target,
        LookupOutcome::NotFound(c) => r matches Err(TransformError::TransformNotFound(m)) && m@
            == c,
    }
}

/// The latest time of a non-empty history.
pub open spec fn latest_time<T>(m: Map<i64, T>) -> i64 {
    choose|k: i64| m.dom().contains(k) && forall|j: i64| #[trigger] m.dom().contains(j) ==> j <= k
}

proof fn lemma_hm_at<T>(s: Seq<(TransformKey, TransformHistory<T>)>, i: int)
    requires
        history_keys(s).no_duplicates(),
        0 <= i < s.len(),
    ensures
        histories_model(s).dom().contains(s[i].0@),
        histories_model(s)[s[i].0@] == s[i].1@,
{
    let ks = history_keys(s);
    assert(ks[i] == s[i].0@);
    assert(ks.contains(s[i].0@));
    let j = ks.index_of(s[i].0@);
    assert(ks[j] == ks[i]);
}

proof fn lemma_hm_dom<T>(s: Seq<(TransformKey, TransformHistory<T>)>, k: (Seq<char>, Seq<char>))
    ensures
        histories_model(s).dom().contains(k) <==> exists|i: int| 0 <= i < s.len() && s[i].0@ == k,
{
    if histories_model(s).dom().contains(k) {
        let i = history_keys(s).index_of(k);
        assert(0 <= i < s.len() && history_keys(s)[i] == k);
    }
    if exists|i: int| 0 <= i < s.len() && s[i].0@ == k {
        let i = choose|i: int| 0 <= i < s.len() && s[i].0@ == k;
        assert(history_keys(s)[i] == k);
    }
}

/// Replacing the history of entry `i` by one with the same key updates the map.
proof fn lemma_hm_update<T>(
    s: Seq<(TransformKey, TransformHistory<T>)>,
    i: int,
    e: (TransformKey, TransformHistory<T>),
)
    requires
        history_keys(s).no_duplicates(),
        0 <= i < s.len(),
        e.0@ == s[i].0@,
    ensures
        history_keys(s.update(i, e)) == history_keys(s),
        histories_model(s.update(i, e)) == histories_model(s).insert(e.0@, e.1@),
{
    let t = s.update(i, e);
    assert(history_keys(t) =~= history_keys(s));
    let m = histories_model(s).insert(e.0@, e.1@);
    assert forall|k: (Seq<char>, Seq<char>)| #[trigger] histories_model(t).dom().contains(k)
        <==> m.dom().contains(k) by {
        lemma_hm_dom(s, k);
        lemma_hm_dom(t, k);
        if exists|j: int| 0 <= j < t.len() && t[j].0@ == k {
            let j = choose|j: int| 0 <= j < t.len() && t[j].0@ == k;
            if j != i {
                assert(t[j] == s[j]);
            }
        }
        if exists|j: int| 0 <= j < s.len() && s[j].0@ == k {
            let j = choose|j: int| 0 <= j < s.len() && s[j].0@ == k;
            if j != i {
                assert(t[j] == s[j]);
            } else {
                assert(t[i] == e);
            }
        }
    }
    assert forall|k: (Seq<char>, Seq<char>)| #[trigger] histories_model(t).dom().contains(k)
        implies histories_model(t)[k] == m[k] by {
        lemma_hm_dom(t, k);
        let j = choose|j: int| 0 <= j < t.len() && t[j].0@ == k;
        lemma_hm_at(t, j);
        if j != i {
            assert(t[j] == s[j]);
            assert(history_keys(s)[j] != history_keys(s)[i]);
            lemma_hm_at(s, j);
        } else {
            assert(t[i] == e);
        }
    }
    assert(histories_model(t) =~= m);
}

/// Appending a history with a fresh key adds it to the map.
proof fn lemma_hm_push<T>(s: Seq<(TransformKey, TransformHistory<T>)>, e: (TransformKey, TransformHistory<T>))
    requires
        history_keys(s).no_duplicates(),
        !histories_model(s).dom().contains(e.0@),
    ensures
        history_keys(s.push(e)) == history_keys(s).push(e.0@),
        history_keys(s.push(e)).no_duplicates(),
        histories_model(s.push(e)) == histories_model(s).insert(e.0@, e.1@),
{
    let t = s.push(e);
    assert(history_keys(t) =~= history_keys(s).push(e.0@));
    assert(history_keys(t).no_duplicates()) by {
        assert forall|a: int, b: int| 0 <= a < b < history_keys(t).len() implies history_keys(
            t,
        )[a] != history_keys(t)[b] by {
            if b == s.len() {
                assert(history_keys(s)[a] == s[a].0@);
                assert(history_keys(s).contains(s[a].0@));
            }
        }
    }
    let m = histories_model(s).insert(e.0@, e.1@);
    assert forall|k: (Seq<char>, Seq<char>)| #[trigger] histories_model(t).dom().contains(k)
        <==> m.dom().contains(k) by {
        lemma_hm_dom(s, k);
        lemma_hm_dom(t, k);
        if k == e.0@ {
            assert(t[s.len() as int] == e);
        }
        if exists|i: int| 0 <= i < s.len() && s[i].0@ == k {
            let i = choose|i: int| 0 <= i < s.len() && s[i].0@ == k;
            assert(t[i] == s[i]);
        }
        if exists|i: int| 0 <= i < t.len() && t[i].0@ == k {
            let i = choose|i: int| 0 <= i < t.len() && t[i].0@ == k;
            if i < s.len() {
                assert(t[i] == s[i]);
            }
        }
    }
    assert forall|k: (Seq<char>, Seq<char>)| #[trigger] histories_model(t).dom().contains(k)
        implies histories_model(t)[k] == m[k] by {
        lemma_hm_dom(t, k);
        let j = choose|j: int| 0 <= j < t.len() && t[j].0@ == k;
        lemma_hm_at(t, j);
        if j < s.len() {
            assert(t[j] == s[j]);
            lemma_hm_at(s, j);
        } else {
            assert(t[j] == e);
        }
    }
    assert(histories_model(t) =~= m);
}

/// Buffer of coordinate frame transforms: the frame tree, and the history of
/// each parent-child pair.
pub struct TransformBuffer<T> {
    /// Frame tree for parent-child relationships
    tree: FrameTree,
    /// Transform histories, one per (parent, child) pair
    histories: Vec<(TransformKey, TransformHistory<T>)>,
    /// Fixed frame for visualization
    fixed_frame: FrameId,
    /// How long transforms are buffered
    buffer_duration: Duration,
}

impl<T: Copy> TransformBuffer<T> {
    /// The frame tree.
    pub closed spec fn spec_tree(&self) -> Map<Seq<char>, NodeModel> {
        self.tree@
    }

    /// The stored histories, by (parent, child).
    pub closed spec fn spec_histories(&self) -> Map<(Seq<char>, Seq<char>), Map<i64, T>> {
        histories_model(self.histories@)
    }

    /// The fixed frame.
    pub closed spec fn spec_fixed(&self) -> Seq<char> {
        self.fixed_frame@
    }

    /// How long transforms are buffered.
    pub closed spec fn spec_duration(&self) -> Duration {
        self.buffer_duration
    }

    /// The tree is well formed, no pair has two histories, and every history
    /// is well formed and keeps transforms for the buffer's duration.
    pub closed spec fn wf(&self) -> bool {
        &&& self.tree.wf()
        &&& history_keys(self.histories@).no_duplicates()
        &&& forall|i: int|
            0 <= i < self.histories@.len() ==> (#[trigger] self.histories@[i]).1.wf()
                && self.histories@[i].1.spec_max_duration() == self.buffer_duration
    }

    /// Create a new transform buffer whose tree holds the fixed frame.
    pub fn new(fixed_frame: FrameId, buffer_duration: Duration) -> (r: Self)
        ensures
            r.wf(),
            r.spec_tree() == with_node(Map::<Seq<char>, NodeModel>::empty(), fixed_frame@),
            r.spec_histories() == Map::<(Seq<char>, Seq<char>), Map<i64, T>>::empty(),
            r.spec_fixed() == fixed_frame@,
            r.spec_duration() == buffer_duration,
    {
        let mut tree = FrameTree::new();
        tree.add_root(fixed_frame.clone());
        let r = TransformBuffer {
            tree,
            histories: Vec::new(),
            fixed_frame,
            buffer_duration,
        };
        assert(r.spec_histories() =~= Map::<(Seq<char>, Seq<char>), Map<i64, T>>::empty());
        r
    }

    /// Get the fixed frame.
    pub fn fixed_frame(&self) -> (r: FrameId)
        ensures
            r@ == self.spec_fixed(),
    {
        self.fixed_frame.clone()
    }

    /// Set the fixed frame.
    pub fn set_fixed_frame(&mut self, frame: FrameId)
        requires
            old(self).wf(),
        ensures
            final(self).wf(),
            final(self).spec_fixed() == frame@,
            final(self).spec_tree() == old(self).spec_tree(),
            final(self).spec_histories() == old(self).spec_histories(),
            final(self).spec_duration() == old(self).spec_duration(),
    {
        self.fixed_frame = frame;
    }

    /// The frame tree.
    pub fn frame_tree(&self) -> (r: &FrameTree)
        requires
            self.wf(),
        ensures
            r.wf(),
            r@ == self.spec_tree(),
    {
        &self.tree
    }

    /// The index of the history for (`parent`, `child`), if there is one.
    fn find_history(&self, parent: &FrameId, child: &FrameId) -> (r: Option<usize>)
        requires
            self.wf(),
        ensures
            match r {
                Some(i) => i < self.histories@.len() && self.histories@[i as int].0@ == (
                    parent@,
                    child@,
                ) && self.spec_histories().dom().contains((parent@, child@))
                    && self.spec_histories()[(parent@, child@)] == self.histories@[i as int].1@,
                None => !self.spec_histories().dom().contains((parent@, child@)),
            },
    {
        let n = self.histories.len();
        let mut i: usize = 0;
        while i < n
            invariant
                self.wf(),
                n == self.histories@.len(),
                i <= n,
                forall|j: int| 0 <= j < i ==> self.histories@[j].0@ != (parent@, child@),
            decreases n - i,
        {
            if self.histories[i].0.parent == *parent && self.histories[i].0.child == *child {
                proof {
                    let ks = history_keys(self.histories@);
                    assert(ks[i as int] == (parent@, child@));
                    assert(ks.contains((parent@, child@)));
                    let j = ks.index_of((parent@, child@));
                    assert(ks[j] == ks[i as int]);
                }
                return Some(i);
            }
            i = i + 1;
        }
        proof {
            let ks = history_keys(self.histories@);
            if ks.contains((parent@, child@)) {
                let j = ks.index_of((parent@, child@));
                assert(ks[j] == self.histories@[j].0@);
            }
        }
        None
    }

    /// Look up the transform from `source` to `target` at `time`, as the
    /// steps to combine in order: up from the source to the common ancestor
    /// (each stored transform inverted), then down to the target. No steps
    /// stand for the identity.
    pub fn lookup_transform(&self, target: &FrameId, source: &FrameId, time: &Timestamp) -> (r:
        Result<Vec<LookupStep<T>>, TransformError>)
        requires
            self.wf(),
            target@ == source@ || (rooted(self.spec_tree(), source@) && rooted(
                self.spec_tree(),
                target@,
            )),
        ensures
            lookup_result_is(
                r,
                lookup_outcome(self.spec_tree(), self.spec_histories(), target@, source@, time.0),
                target@,
                source@,
            ),
    {
        if *target == *source {
            return Ok(Vec::new());
        }
        let (path_up, ancestor, path_down) = match self.tree.path_between(source, target) {
            Some(p) => p,
            None => {
                return Err(TransformError::NoPath(source.to_string(), target.to_string()));
            },
        };
        let ghost h = self.spec_histories();
        let ghost es = lookup_edges(self.spec_tree(), source@, target@, ancestor@);
        let ghost up = prefix_before(root_path(self.spec_tree(), source@), ancestor@);
        let ghost down = prefix_before(root_path(self.spec_tree(), target@), ancestor@).reverse();
        assert(ids(path_up@) == up);
        assert(ids(path_down@) == down);
        assert(es.len() == up.len() + down.len());
        assert(path_up@.len() == up.len());
        let mut steps: Vec<LookupStep<T>> = Vec::new();
        let nu = path_up.len();
        let mut i: usize = 0;
        while i < nu
            invariant
                self.wf(),
                h == self.spec_histories(),
                nu == path_up@.len(),
                ids(path_up@) == up,
                es == lookup_edges(self.spec_tree(), source@, target@, ancestor@),
                target@ != source@,
                spec_common_ancestor(self.spec_tree(), source@, target@) == Some(ancestor@),
                up == prefix_before(root_path(self.spec_tree(), source@), ancestor@),
                i <= nu,
                es.len() >= nu,
                plan_steps(h, es, time.0, i as nat) == Ok::<Seq<LookupStep<T>>, Seq<char>>(
                    steps@,
                ),
            decreases nu - i,
        {
            let child = &path_up[i];
            let parent = if i + 1 < nu {
                &path_up[i + 1]
            } else {
                &ancestor
            };
            proof {
                assert(ids(path_up@)[i as int] == child@);
                assert(es[i as int] == (parent@, child@, true)) by {
                    if i + 1 < nu {
                        assert(ids(path_up@)[i + 1] == path_up@[i + 1]@);
                    }
                }
            }
            let found = self.find_history(parent, child);
            let sample = match found {
                Some(k) => match self.histories[k].1.get_at(time) {
                    Ok(smp) => smp,
                    Err(_) => {
                        proof {
                            assert(edge_sample(h, es[i as int], time.0) is None);
                            assert(plan_steps(h, es, time.0, (i + 1) as nat) == Err::<Seq<LookupStep<T>>, Seq<char>>(child@));
                            lemma_plan_err_stable(h, es, time.0, (i + 1) as nat, es.len());
                        }
                        return Err(TransformError::TransformNotFound(child.to_string()));
                    },
                },
                None => {
                    proof {
                        assert(edge_sample(h, es[i as int], time.0) is None);
                        assert(plan_steps(h, es, time.0, (i + 1) as nat) == Err::<Seq<LookupStep<T>>, Seq<char>>(child@));
                        lemma_plan_err_stable(h, es, time.0, (i + 1) as nat, es.len());
                    }
                    return Err(TransformError::TransformNotFound(child.to_string()));
                },
            };
            steps.push(LookupStep { sample, invert: true });
            i = i + 1;
        }
        let nd = path_down.len();
        let mut j: usize = 0;
        while j < nd
            invariant
                self.wf(),
                h == self.spec_histories(),
                nu == up.len(),
                nd == path_down@.len(),
                ids(path_down@) == down,
                es == lookup_edges(self.spec_tree(), source@, target@, ancestor@),
                target@ != source@,
                spec_common_ancestor(self.spec_tree(), source@, target@) == Some(ancestor@),
                down == prefix_before(root_path(self.spec_tree(), target@), ancestor@).reverse(),
                es.len() == nu + nd,
                j <= nd,
                plan_steps(h, es, time.0, (nu + j) as nat) == Ok::<
                    Seq<LookupStep<T>>,
                    Seq<char>,
                >(steps@),
            decreases nd - j,
        {
            let child = &path_down[j];
            let parent = if j == 0 {
                &ancestor
            } else {
                &path_down[j - 1]
            };
            proof {
                assert(ids(path_down@)[j as int] == child@);
                assert(es[nu + j] == (parent@, child@, false)) by {
                    if j > 0 {
                        assert(ids(path_down@)[j - 1] == path_down@[j - 1]@);
                    }
                }
            }
            let found = self.find_history(parent, child);
            let sample = match found {
                Some(k) => match self.histories[k].1.get_at(time) {
                    Ok(smp) => smp,
                    Err(_) => {
                        proof {
                            assert(edge_sample(h, es[nu + j], time.0) is None);
                            assert(plan_steps(h, es, time.0, (nu + j + 1) as nat) == Err::<Seq<LookupStep<T>>, Seq<char>>(child@));
                            lemma_plan_err_stable(h, es, time.0, (nu + j + 1) as nat, es.len());
                        }
                        return Err(TransformError::TransformNotFound(child.to_string()));
                    },
                },
                None => {
                    proof {
                        assert(edge_sample(h, es[nu + j], time.0) is None);
                        assert(plan_steps(h, es, time.0, (nu + j + 1) as nat) == Err::<Seq<LookupStep<T>>, Seq<char>>(child@));
                        lemma_plan_err_stable(h, es, time.0, (nu + j + 1) as nat, es.len());
                    }
                    return Err(TransformError::TransformNotFound(child.to_string()));
                },
            };
            steps.push(LookupStep { sample, invert: false });
            j = j + 1;
        }
        Ok(steps)
    }

    /// Set the transform from `parent` to `child` at `timestamp`: `child` is
    /// moved under `parent` in the tree, and the transform is stored in the
    /// pair's history.
    pub fn set_transform(&mut self, parent: FrameId, child: FrameId, transform: T, timestamp: Timestamp)
        requires
            old(self).wf(),
        ensures
            final(self).wf(),
            final(self).spec_tree() == spec_set_parent(old(self).spec_tree(), child@, parent@),
            final(self).spec_histories() == old(self).spec_histories().insert(
                (parent@, child@),
                (if old(self).spec_histories().dom().contains((parent@, child@)) {
                    old(self).spec_histories()[(parent@, child@)]
                } else {
                    Map::<i64, T>::empty()
                }).insert(timestamp.0, transform),
            ),
            final(self).spec_fixed() == old(self).spec_fixed(),
            final(self).spec_duration() == old(self).spec_duration(),
    {
        self.tree.set_parent(child.clone(), parent.clone());
        let ghost s = self.histories@;
        match self.find_history(&parent, &child) {
            Some(i) => {
                let ghost old_entry = self.histories@[i as int];
                self.histories[i].1.insert(timestamp, transform);
                proof {
                    lemma_hm_update(s, i as int, self.histories@[i as int]);
                    assert(self.histories@ =~= s.update(i as int, self.histories@[i as int]));
                    assert forall|j: int| 0 <= j < self.histories@.len() implies (
                    #[trigger] self.histories@[j]).1.wf() && self.histories@[j].1.spec_max_duration()
                        == self.buffer_duration by {
                        if j != i {
                            assert(self.histories@[j] == s[j]);
                        }
                    }
                }
            },
            None => {
                let mut h = TransformHistory::new(self.buffer_duration);
                h.insert(timestamp, transform);
                assert(h@ =~= Map::<i64, T>::empty().insert(timestamp.0, transform));
                let e = (TransformKey::new(parent, child), h);
                proof {
                    lemma_hm_push(s, e);
                }
                self.histories.push(e);
                proof {
                    assert forall|j: int| 0 <= j < self.histories@.len() implies (
                    #[trigger] self.histories@[j]).1.wf() && self.histories@[j].1.spec_max_duration()
                        == self.buffer_duration by {
                        if j < s.len() {
                            assert(self.histories@[j] == s[j]);
                        }
                    }
                }
            },
        }
    }

    /// Get the transform from a frame to the fixed frame at `time`.
    pub fn get_transform_to_fixed(&self, frame: &FrameId, time: &Timestamp) -> (r: Result<
        Vec<LookupStep<T>>,
        TransformError,
    >)
        requires
            self.wf(),
            self.spec_fixed() == frame@ || (rooted(self.spec_tree(), frame@) && rooted(
                self.spec_tree(),
                self.spec_fixed(),
            )),
        ensures
            lookup_result_is(
                r,
                lookup_outcome(
                    self.spec_tree(),
                    self.spec_histories(),
                    self.spec_fixed(),
                    frame@,
                    time.0,
                ),
                self.spec_fixed(),
                frame@,
            ),
    {
        let fixed = self.fixed_frame.clone();
        self.lookup_transform(&fixed, frame, time)
    }

    /// Get the transform from a frame to the fixed frame at the latest time
    /// stored for the frame's link to its parent.
    pub fn get_latest_transform_to_fixed(&self, frame: &FrameId) -> (r: Result<
        Vec<LookupStep<T>>,
        TransformError,
    >)
        requires
            self.wf(),
            self.spec_fixed() == frame@ || (rooted(self.spec_tree(), frame@) && rooted(
                self.spec_tree(),
                self.spec_fixed(),
            )),
        ensures
            match parent_of(self.spec_tree(), frame@) {
                None => r matches Err(TransformError::FrameNotFound(m)) && m@ == frame@,
                Some(p) => if !self.spec_histories().dom().contains((p, frame@)) {
                    r matches Err(TransformError::TransformNotFound(m)) && m@ == frame@
                } else if self.spec_histories()[(p, frame@)].dom() == Set::<i64>::empty() {
                    r matches Err(TransformError::EmptyBuffer(m)) && m@ == frame@
                } else {
                    lookup_result_is(
                        r,
                        lookup_outcome(
                            self.spec_tree(),
                            self.spec_histories(),
                            self.spec_fixed(),
                            frame@,
                            latest_time(self.spec_histories()[(p, frame@)]),
                        ),
                        self.spec_fixed(),
                        frame@,
                    )
                },
            },
    {
        let fixed = self.fixed_frame.clone();
        let parent = match self.tree.parent(frame) {
            Some(p) => p.clone(),
            None => {
                return Err(TransformError::FrameNotFound(frame.to_string()));
            },
        };
        let k = match self.find_history(&parent, frame) {
            Some(k) => k,
            None => {
                return Err(TransformError::TransformNotFound(frame.to_string()));
            },
        };
        let (timestamp, _) = match self.histories[k].1.get_latest() {
            Some(e) => e,
            None => {
                return Err(TransformError::EmptyBuffer(frame.to_string()));
            },
        };
        proof {
            let m = self.spec_histories()[(parent@, frame@)];
            let c = latest_time(m);
            assert(m.dom().contains(timestamp.0) && forall|j: i64| #[trigger] m.dom().contains(j)
                ==> j <= timestamp.0);
            assert(c <= timestamp.0 && timestamp.0 <= c);
        }
        self.lookup_transform(&fixed, frame, &timestamp)
    }

    /// Get all frames in the buffer.
    pub fn all_frames(&self) -> (r: Vec<FrameId>)
        requires
            self.wf(),
        ensures
            ids(r@).to_set() == self.spec_tree().dom(),
            ids(r@).no_duplicates(),
    {
        self.tree.all_frames()
    }

    /// Check if a frame exists.
    pub fn has_frame(&self, frame: &FrameId) -> (r: bool)
        requires
            self.wf(),
        ensures
            r == self.spec_tree().dom().contains(frame@),
    {
        self.tree.contains(frame)
    }

    /// Check if a transform is available between two frames at `time`.
    pub fn can_transform(&self, target: &FrameId, source: &FrameId, time: &Timestamp) -> (r: bool)
        requires
            self.wf(),
            target@ == source@ || (rooted(self.spec_tree(), source@) && rooted(
                self.spec_tree(),
                target@,
            )),
        ensures
            r == (lookup_outcome(
                self.spec_tree(),
                self.spec_histories(),
                target@,
                source@,
                time.0,
            ) is Steps),
    {
        self.lookup_transform(target, source, time).is_ok()
    }

    /// Prune as `prune_old` does when `now` less the buffer's duration fits in
    /// 64 bits, and say so; otherwise leave the buffer as it is and say not.
    pub fn prune_old_checked(&mut self, now: &Timestamp) -> (r: bool)
        requires
            old(self).wf(),
        ensures
            final(self).wf(),
            r == (i64::MIN <= now.0 - (duration_nanos(old(self).spec_duration()) as i64)
                <= i64::MAX),
            r ==> final(self).spec_histories() == old(self).spec_histories().map_values(
                |m: Map<i64, T>|
                    keep_from(m, (now.0 - (duration_nanos(old(self).spec_duration()) as i64)) as i64),
            ),
            !r ==> final(self).spec_histories() == old(self).spec_histories(),
            final(self).spec_tree() == old(self).spec_tree(),
            final(self).spec_fixed() == old(self).spec_fixed(),
            final(self).spec_duration() == old(self).spec_duration(),
    {
        let nanos = duration_as_nanos(&self.buffer_duration) as i64;
        match now.0.checked_sub(nanos) {
            Some(_) => {
                self.prune_old(now);
                true
            },
            None => false,
        }
    }

    /// Prune old transforms from all histories: each keeps the transforms at
    /// `now` less the buffer's duration (cut to 64 bits) or later.
    pub fn prune_old(&mut self, now: &Timestamp)
        requires
            old(self).wf(),
            i64::MIN <= now.0 - (duration_nanos(old(self).spec_duration()) as i64) <= i64::MAX,
        ensures
            final(self).wf(),
            final(self).spec_histories() == old(self).spec_histories().map_values(
                |m: Map<i64, T>|
                    keep_from(m, (now.0 - (duration_nanos(old(self).spec_duration()) as i64)) as i64),
            ),
            final(self).spec_tree() == old(self).spec_tree(),
            final(self).spec_fixed() == old(self).spec_fixed(),
            final(self).spec_duration() == old(self).spec_duration(),
    {
        let ghost s0 = self.histories@;
        let ghost c = (now.0 - (duration_nanos(self.buffer_duration) as i64)) as i64;
        let n = self.histories.len();
        let mut i: usize = 0;
        while i < n
            invariant
                n == self.histories@.len(),
                n == s0.len(),
                i <= n,
                self.tree.wf(),
                self.tree == old(self).tree,
                self.fixed_frame == old(self).fixed_frame,
                self.buffer_duration == old(self).buffer_duration,
                s0 == old(self).histories@,
                history_keys(self.histories@) == history_keys(s0),
                history_keys(s0).no_duplicates(),
                c == (now.0 - (duration_nanos(self.buffer_duration) as i64)) as i64,
                i64::MIN <= now.0 - (duration_nanos(self.buffer_duration) as i64) <= i64::MAX,
                forall|j: int|
                    0 <= j < n ==> (#[trigger] self.histories@[j]).1.wf()
                        && self.histories@[j].1.spec_max_duration() == self.buffer_duration,
                forall|j: int| 0 <= j < i ==> (#[trigger] self.histories@[j]).1@ == keep_from(s0[j].1@, c),
                forall|j: int| i <= j < n ==> (#[trigger] self.histories@[j]).1@ == s0[j].1@,
                forall|j: int| 0 <= j < n ==> (#[trigger] self.histories@[j]).0@ == s0[j].0@,
            decreases n - i,
        {
            let ghost before = self.histories@;
            self.histories[i].1.prune_old(now);
            proof {
                assert(history_keys(self.histories@) =~= history_keys(before));
                assert forall|j: int| 0 <= j < n && j != i implies self.histories@[j] == before[j] by {
                }
            }
            i = i + 1;
        }
        proof {
            let m0 = histories_model(s0);
            let m1 = histories_model(self.histories@);
            let f = |m: Map<i64, T>| keep_from(m, c);
            assert forall|k: (Seq<char>, Seq<char>)| #[trigger] m1.dom().contains(k) <==> m0.dom().contains(k) by {
                lemma_hm_dom(s0, k);
                lemma_hm_dom(self.histories@, k);
                if exists|j: int| 0 <= j < n && s0[j].0@ == k {
                    let j = choose|j: int| 0 <= j < n && s0[j].0@ == k;
                    assert(self.histories@[j].0@ == k);
                }
                if exists|j: int| 0 <= j < n && self.histories@[j].0@ == k {
                    let j = choose|j: int| 0 <= j < n && self.histories@[j].0@ == k;
                    assert(s0[j].0@ == k);
                }
            }
            assert forall|k: (Seq<char>, Seq<char>)| #[trigger] m1.dom().contains(k) implies m1[k]
                == keep_from(m0[k], c) by {
                lemma_hm_dom(self.histories@, k);
                let j = choose|j: int| 0 <= j < n && self.histories@[j].0@ == k;
                lemma_hm_at(self.histories@, j);
                lemma_hm_at(s0, j);
            }
            assert(m1 =~= m0.map_values(f));
        }
    }

    /// Clear all transforms; the tree then holds the fixed frame alone.
    pub fn clear(&mut self)
        requires
            old(self).wf(),
        ensures
            final(self).wf(),
            final(self).spec_tree() == with_node(
                Map::<Seq<char>, NodeModel>::empty(),
                old(self).spec_fixed(),
            ),
            final(self).spec_histories() == Map::<(Seq<char>, Seq<char>), Map<i64, T>>::empty(),
            final(self).spec_fixed() == old(self).spec_fixed(),
            final(self).spec_duration() == old(self).spec_duration(),
    {
        let fixed = self.fixed_frame.clone();
        self.tree.clear();
        self.tree.add_root(fixed);
        self.histories.clear();
        assert(self.spec_histories() =~= Map::<(Seq<char>, Seq<char>), Map<i64, T>>::empty());
    }
}

} // verus!
