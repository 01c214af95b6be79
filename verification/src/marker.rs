//! Marker kinds, actions and keys, and the cache of markers by key.

use vstd::prelude::*;
use crate::text::str_eq;

verus! {

/// Type of marker to visualize.
#[derive(Debug, Clone, Copy, PartialEq, Eq, Hash, Default)]
pub enum MarkerType {
    /// Arrow pointing from start to end
    #[default]
    Arrow,
    /// Cube/box
    Cube,
    /// Sphere
    Sphere,
    /// Cylinder
    Cylinder,
    /// Line strip (connected line segments)
    LineStrip,
    /// Line list (pairs of points form individual lines)
    LineList,
    /// Cube list (multiple cubes at given positions)
    CubeList,
    /// Sphere list (multiple spheres at given positions)
    SphereList,
    /// Point cloud (individual points)
    Points,
    /// 3D text
    Text,
    /// Mesh resource (external file)
    MeshResource,
    /// Triangle list (triplets of points form triangles)
    TriangleList,
}

impl MarkerType {
    /// Check if this marker type uses the points field.
    pub fn uses_points(&self) -> (r: bool)
        ensures
            r == (*self == MarkerType::LineStrip || *self == MarkerType::LineList || *self
                == MarkerType::CubeList || *self == MarkerType::SphereList || *self
                == MarkerType::Points || *self == MarkerType::TriangleList),
    {
        match self {
            MarkerType::LineStrip | MarkerType::LineList | MarkerType::CubeList
            | MarkerType::SphereList | MarkerType::Points | MarkerType::TriangleList => true,
            _ => false,
        }
    }

    /// Check if this marker type uses a mesh resource.
    pub fn uses_mesh(&self) -> (r: bool)
        ensures
            r == (*self == MarkerType::MeshResource),
    {
        match self {
            MarkerType::MeshResource => true,
            _ => false,
        }
    }

    /// Check if this marker type uses the text field.
    pub fn uses_text(&self) -> (r: bool)
        ensures
            r == (*self == MarkerType::Text),
    {
        match self {
            MarkerType::Text => true,
            _ => false,
        }
    }
}

/// Action to perform on marker.
#[derive(Debug, Clone, Copy, PartialEq, Eq, Hash, Default)]
pub enum MarkerAction {
    /// Add or modify marker
    #[default]
    Add,
    /// Modify existing marker (same as Add)
    Modify,
    /// Delete specific marker
    Delete,
    /// Delete all markers in namespace
    DeleteAll,
}

/// Key for identifying markers (namespace + id).
#[derive(Debug, Hash)]
pub struct MarkerKey {
    pub ns: String,
    pub id: i32,
}

impl MarkerKey {
    pub fn new(ns: &str, id: i32) -> (r: MarkerKey)
        ensures
            r.ns@ == ns@,
            r.id == id,
    {
        MarkerKey { ns: ns.to_owned(), id }
    }
}

impl Clone for MarkerKey {
    fn clone(&self) -> (r: Self)
        ensures
            r.ns@ == self.ns@,
            r.id == self.id,
    {
        MarkerKey { ns: self.ns.clone(), id: self.id }
    }
}

impl PartialEq for MarkerKey {
    fn eq(&self, other: &Self) -> (r: bool) {
        self.ns == other.ns && self.id == other.id
    }
}

impl vstd::std_specs::cmp::PartialEqSpecImpl for MarkerKey {
    open spec fn obeys_eq_spec() -> bool {
        true
    }

    open spec fn eq_spec(&self, other: &Self) -> bool {
        self.ns@ == other.ns@ && self.id == other.id
    }
}

impl Eq for MarkerKey {
}

/// Marker display properties.
#[derive(Debug)]
pub struct MarkerProperties {
    /// Filter by namespace (None = show all)
    pub namespace_filter: Option<String>,
}

impl Default for MarkerProperties {
    fn default() -> (r: Self)
        ensures
            r.namespace_filter is None,
    {
        MarkerProperties { namespace_filter: None }
    }
}


// ============================================================================
// MARKER CACHE
// ============================================================================

/// The value of a marker key: namespace and identifier.
pub open spec fn key_view(k: MarkerKey) -> (Seq<char>, i32) {
    (k.ns@, k.id)
}

/// The keys of a sequence of cached markers.
pub open spec fn cache_keys<M>(s: Seq<(MarkerKey, M, bool)>) -> Seq<(Seq<char>, i32)> {
    s.map_values(|e: (MarkerKey, M, bool)| key_view(e.0))
}

/// The map from key to (marker, expired) that a sequence of cached markers
/// with distinct keys stands for.
pub open spec fn cache_map<M>(s: Seq<(MarkerKey, M, bool)>) -> Map<(Seq<char>, i32), (M, bool)> {
    Map::new(
        |k: (Seq<char>, i32)| cache_keys(s).contains(k),
        |k: (Seq<char>, i32)| (s[cache_keys(s).index_of(k)].1, s[cache_keys(s).index_of(k)].2),
    )
}

proof fn lemma_cache_at<M>(s: Seq<(MarkerKey, M, bool)>, i: int)
    requires
        cache_keys(s).no_duplicates(),
        0 <= i < s.len(),
    ensures
        cache_map(s).dom().contains(key_view(s[i].0)),
        cache_map(s)[key_view(s[i].0)] == (s[i].1, s[i].2),
{
    let ks = cache_keys(s);
    assert(ks[i] == key_view(s[i].0));
    assert(ks.contains(key_view(s[i].0)));
    let j = ks.index_of(key_view(s[i].0));
    assert(ks[j] == ks[i]);
}

proof fn lemma_cache_dom<M>(s: Seq<(MarkerKey, M, bool)>, k: (Seq<char>, i32))
    ensures
        cache_map(s).dom().contains(k) <==> exists|i: int| 0 <= i < s.len() && key_view(s[i].0) == k,
{
    if cache_map(s).dom().contains(k) {
        let i = cache_keys(s).index_of(k);
        assert(0 <= i < s.len() && cache_keys(s)[i] == k);
    }
    if exists|i: int| 0 <= i < s.len() && key_view(s[i].0) == k {
        let i = choose|i: int| 0 <= i < s.len() && key_view(s[i].0) == k;
        assert(cache_keys(s)[i] == k);
    }
}

/// Removing entry `i` removes its key; the other keys keep their values.
proof fn lemma_cache_remove<M>(s: Seq<(MarkerKey, M, bool)>, i: int)
    requires
        cache_keys(s).no_duplicates(),
        0 <= i < s.len(),
    ensures
        cache_keys(s.remove(i)).no_duplicates(),
        cache_map(s.remove(i)) == cache_map(s).remove(key_view(s[i].0)),
{
    let t = s.remove(i);
    let ks = cache_keys(s);
    assert(cache_keys(t) =~= ks.remove(i));
    assert forall|a: int, b: int| 0 <= a < b < cache_keys(t).len() implies cache_keys(t)[a]
        != cache_keys(t)[b] by {
        let a2 = if a < i { a } else { a + 1 };
        let b2 = if b < i { b } else { b + 1 };
        assert(cache_keys(t)[a] == ks[a2]);
        assert(cache_keys(t)[b] == ks[b2]);
    }
    let m = cache_map(s).remove(key_view(s[i].0));
    assert forall|k: (Seq<char>, i32)| #[trigger] cache_map(t).dom().contains(k) <==> m.dom().contains(k) by {
        lemma_cache_dom(s, k);
        lemma_cache_dom(t, k);
        if exists|j: int| 0 <= j < t.len() && key_view(t[j].0) == k {
            let j = choose|j: int| 0 <= j < t.len() && key_view(t[j].0) == k;
            let j2 = if j < i { j } else { j + 1 };
            assert(t[j] == s[j2]);
            assert(ks[j2] != ks[i]);
        }
        if k != key_view(s[i].0) && exists|j: int| 0 <= j < s.len() && key_view(s[j].0) == k {
            let j = choose|j: int| 0 <= j < s.len() && key_view(s[j].0) == k;
            if j < i {
                assert(t[j] == s[j]);
            } else {
                assert(t[j - 1] == s[j]);
            }
        }
    }
    assert forall|k: (Seq<char>, i32)| #[trigger] cache_map(t).dom().contains(k) implies cache_map(t)[k]
        == m[k] by {
        lemma_cache_dom(t, k);
        let j = choose|j: int| 0 <= j < t.len() && key_view(t[j].0) == k;
        lemma_cache_at(t, j);
        let j2 = if j < i { j } else { j + 1 };
        assert(t[j] == s[j2]);
        lemma_cache_at(s, j2);
    }
    assert(cache_map(t) =~= m);
}

/// Markers by key, each with whether it has expired.
#[derive(Debug)]
pub struct MarkerCache<M> {
    entries: Vec<(MarkerKey, M, bool)>,
}

impl<M> View for MarkerCache<M> {
    type V = Map<(Seq<char>, i32), (M, bool)>;

    closed spec fn view(&self) -> Map<(Seq<char>, i32), (M, bool)> {
        cache_map(self.entries@)
    }
}

/// The entries of `m` outside the namespace `ns`.
pub open spec fn outside_namespace<M>(m: Map<(Seq<char>, i32), (M, bool)>, ns: Seq<char>) -> Map<
    (Seq<char>, i32),
    (M, bool),
> {
    m.restrict(Set::new(|k: (Seq<char>, i32)| k.0 != ns))
}

/// What processing a marker with key `k` and action `a` does to the cache.
pub open spec fn after_marker<M>(
    m: Map<(Seq<char>, i32), (M, bool)>,
    k: (Seq<char>, i32),
    a: MarkerAction,
    marker: M,
) -> Map<(Seq<char>, i32), (M, bool)> {
    match a {
        MarkerAction::Add | MarkerAction::Modify => m.insert(k, (marker, false)),
        MarkerAction::Delete => m.remove(k),
        MarkerAction::DeleteAll => if k.0.len() == 0 {
            Map::empty()
        } else {
            outside_namespace(m, k.0)
        },
    }
}

impl<M> MarkerCache<M> {
    /// No key appears twice.
    pub closed spec fn wf(&self) -> bool {
        cache_keys(self.entries@).no_duplicates()
    }

    /// An empty cache.
    pub fn new() -> (r: Self)
        ensures
            r.wf(),
            r@ == Map::<(Seq<char>, i32), (M, bool)>::empty(),
    {
        let r = MarkerCache { entries: Vec::new() };
        assert(r@ =~= Map::<(Seq<char>, i32), (M, bool)>::empty());
        r
    }

    /// The number of cached markers.
    pub fn len(&self) -> (r: usize)
        requires
            self.wf(),
        ensures
            r == self@.dom().len(),
    {
        proof {
            let ks = cache_keys(self.entries@);
            assert(self@.dom() =~= ks.to_set());
            ks.unique_seq_to_set();
        }
        self.entries.len()
    }

    fn find(&self, key: &MarkerKey) -> (r: Option<usize>)
        requires
            self.wf(),
        ensures
            match r {
                Some(i) => i < self.entries@.len() && key_view(self.entries@[i as int].0)
                    == key_view(*key),
                None => !self@.dom().contains(key_view(*key)),
            },
    {
        let mut i: usize = 0;
        while i < self.entries.len()
            invariant
                i <= self.entries@.len(),
                forall|j: int| 0 <= j < i ==> key_view(self.entries@[j].0) != key_view(*key),
            decreases self.entries@.len() - i,
        {
            if self.entries[i].0 == *key {
                return Some(i);
            }
            i = i + 1;
        }
        proof {
            lemma_cache_dom(self.entries@, key_view(*key));
        }
        None
    }

    /// Remove the marker with key `key`, if cached.
    pub fn remove(&mut self, key: &MarkerKey)
        requires
            old(self).wf(),
        ensures
            final(self).wf(),
            final(self)@ == old(self)@.remove(key_view(*key)),
    {
        match self.find(key) {
            Some(i) => {
                proof {
                    lemma_cache_remove(self.entries@, i as int);
                }
                self.entries.remove(i);
            },
            None => {
                assert(self@ =~= self@.remove(key_view(*key)));
            },
        }
    }

    /// Cache `marker` under `key`, as not expired, replacing what was there.
    pub fn insert(&mut self, key: MarkerKey, marker: M)
        requires
            old(self).wf(),
        ensures
            final(self).wf(),
            final(self)@ == old(self)@.insert(key_view(key), (marker, false)),
    {
        let ghost kv = key_view(key);
        self.remove(&key);
        let ghost s = self.entries@;
        let ghost m1 = self@;
        self.entries.push((key, marker, false));
        proof {
            let t = self.entries@;
            assert(cache_keys(t) =~= cache_keys(s).push(kv));
            assert forall|a: int, b: int| 0 <= a < b < cache_keys(t).len() implies cache_keys(t)[a]
                != cache_keys(t)[b] by {
                if b == s.len() {
                    lemma_cache_at(s, a);
                }
            }
            let want = m1.insert(kv, (marker, false));
            assert forall|k: (Seq<char>, i32)| #[trigger] cache_map(t).dom().contains(k) <==> want.dom().contains(k) by {
                lemma_cache_dom(s, k);
                lemma_cache_dom(t, k);
                if exists|j: int| 0 <= j < s.len() && key_view(s[j].0) == k {
                    let j = choose|j: int| 0 <= j < s.len() && key_view(s[j].0) == k;
                    assert(t[j] == s[j]);
                }
                if k == kv {
                    assert(key_view(t[s.len() as int].0) == kv);
                }
                if exists|j: int| 0 <= j < t.len() && key_view(t[j].0) == k {
                    let j = choose|j: int| 0 <= j < t.len() && key_view(t[j].0) == k;
                    if j < s.len() {
                        assert(t[j] == s[j]);
                    }
                }
            }
            assert forall|k: (Seq<char>, i32)| #[trigger] cache_map(t).dom().contains(k) implies cache_map(t)[k] == want[k] by {
                lemma_cache_dom(t, k);
                let j = choose|j: int| 0 <= j < t.len() && key_view(t[j].0) == k;
                lemma_cache_at(t, j);
                if j < s.len() {
                    assert(t[j] == s[j]);
                    lemma_cache_at(s, j);
                }
            }
            assert(cache_map(t) =~= want);
        }
    }

    /// Clear all markers in a namespace.
    pub fn clear_namespace(&mut self, ns: &str)
        requires
            old(self).wf(),
        ensures
            final(self).wf(),
            final(self)@ == outside_namespace(old(self)@, ns@),
    {
        let ghost m0 = self@;
        let mut i: usize = 0;
        while i < self.entries.len()
            invariant
                cache_keys(self.entries@).no_duplicates(),
                i <= self.entries@.len(),
                forall|j: int| 0 <= j < i ==> self.entries@[j].0.ns@ != ns@,
                forall|k: (Seq<char>, i32)| #[trigger] self@.dom().contains(k) <==> (m0.dom().contains(
                    k,
                ) && (k.0 != ns@ || exists|j: int|
                    i <= j < self.entries@.len() && key_view(self.entries@[j].0) == k)),
                forall|k: (Seq<char>, i32)| #[trigger] self@.dom().contains(k) ==> self@[k] == m0[k],
            decreases self.entries@.len() - i,
        {
            if str_eq(self.entries[i].0.ns.as_str(), ns) {
                let ghost s = self.entries@;
                let ghost m1 = self@;
                let ghost gone = key_view(s[i as int].0);
                proof {
                    lemma_cache_remove(s, i as int);
                    lemma_cache_at(s, i as int);
                }
                self.entries.remove(i);
                proof {
                    let t = self.entries@;
                    assert forall|k: (Seq<char>, i32)| #[trigger] self@.dom().contains(k) <==> (m0.dom().contains(k) && (k.0 != ns@ || exists|j: int| i <= j < t.len() && key_view(t[j].0) == k)) by {
                        if k != gone && k.0 == ns@ && m1.dom().contains(k) {
                            lemma_cache_dom(s, k);
                            let j = choose|j: int| 0 <= j < s.len() && key_view(s[j].0) == k;
                            assert(j != i);
                            if j < i {
                                assert(s[j].0.ns@ != ns@);
                            }
                            assert(t[j - 1] == s[j]);
                        }
                        if k.0 == ns@ && exists|j: int| i <= j < t.len() && key_view(t[j].0) == k {
                            let j = choose|j: int| i <= j < t.len() && key_view(t[j].0) == k;
                            assert(t[j] == s[j + 1]);
                            assert(cache_keys(s)[j + 1] != cache_keys(s)[i as int]);
                        }
                    }
                }
            } else {
                proof {
                    let s = self.entries@;
                    assert forall|k: (Seq<char>, i32)| #[trigger] self@.dom().contains(k) implies (m0.dom().contains(k) && (k.0 != ns@ || exists|j: int| i + 1 <= j < s.len() && key_view(s[j].0) == k)) by {
                        if k.0 == ns@ {
                            let j = choose|j: int| i <= j < s.len() && key_view(s[j].0) == k;
                            assert(j != i);
                        }
                    }
                }
                i = i + 1;
            }
        }
        proof {
            assert forall|k: (Seq<char>, i32)| #[trigger] self@.dom().contains(k) <==> outside_namespace(m0, ns@).dom().contains(k) by {}
            assert(self@ =~= outside_namespace(m0, ns@));
        }
    }

    /// Clear all markers.
    pub fn clear_all(&mut self)
        ensures
            final(self).wf(),
            final(self)@ == Map::<(Seq<char>, i32), (M, bool)>::empty(),
    {
        self.entries.clear();
        assert(self@ =~= Map::<(Seq<char>, i32), (M, bool)>::empty());
    }

    /// Process a marker: add or modify it, delete it, or delete all markers
    /// of its namespace (all markers when the namespace is empty).
    pub fn process_marker(&mut self, key: MarkerKey, action: MarkerAction, marker: M)
        requires
            old(self).wf(),
        ensures
            final(self).wf(),
            final(self)@ == after_marker(old(self)@, key_view(key), action, marker),
    {
        match action {
            MarkerAction::Add | MarkerAction::Modify => {
                self.insert(key, marker);
            },
            MarkerAction::Delete => {
                self.remove(&key);
            },
            MarkerAction::DeleteAll => {
                if key.ns.as_str().is_empty() {
                    self.clear_all();
                } else {
                    self.clear_namespace(key.ns.as_str());
                }
            },
        }
    }
}

/// Processing a marker with action `Add` or `Modify` stores it under its key,
/// whatever the cache held there before, and leaves every other key as it was.
pub proof fn law_marker_add_then_read<M>(
    m: Map<(Seq<char>, i32), (M, bool)>,
    k: (Seq<char>, i32),
    a: MarkerAction,
    marker: M,
    other: (Seq<char>, i32),
)
    requires
        a is Add || a is Modify,
        other != k,
    ensures
        after_marker(m, k, a, marker).dom().contains(k),
        after_marker(m, k, a, marker)[k] == (marker, false),
        after_marker(m, k, a, marker).dom().contains(other) == m.dom().contains(other),
        m.dom().contains(other) ==> after_marker(m, k, a, marker)[other] == m[other],
{
}

/// Processing a `Delete` removes the marker under its key and leaves every
/// other key as it was.
pub proof fn law_marker_delete<M>(
    m: Map<(Seq<char>, i32), (M, bool)>,
    k: (Seq<char>, i32),
    marker: M,
    other: (Seq<char>, i32),
)
    requires
        other != k,
    ensures
        !after_marker(m, k, MarkerAction::Delete, marker).dom().contains(k),
        after_marker(m, k, MarkerAction::Delete, marker).dom().contains(other) == m.dom().contains(
            other,
        ),
        m.dom().contains(other) ==> after_marker(m, k, MarkerAction::Delete, marker)[other] == m[other],
{
}

/// Processing a `DeleteAll` with an empty namespace clears the cache; with a
/// namespace, it removes exactly the markers of that namespace and keeps the
/// others unchanged.
pub proof fn law_marker_delete_all<M>(
    m: Map<(Seq<char>, i32), (M, bool)>,
    k: (Seq<char>, i32),
    marker: M,
    j: (Seq<char>, i32),
)
    ensures
        k.0.len() == 0 ==> !after_marker(m, k, MarkerAction::DeleteAll, marker).dom().contains(j),
        k.0.len() > 0 ==> (after_marker(m, k, MarkerAction::DeleteAll, marker).dom().contains(j)
            <==> (m.dom().contains(j) && j.0 != k.0)),
        k.0.len() > 0 && m.dom().contains(j) && j.0 != k.0 ==> after_marker(
            m,
            k,
            MarkerAction::DeleteAll,
            marker,
        )[j] == m[j],
{
}

} // verus!
