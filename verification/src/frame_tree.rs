//! Frame tree: the parent/child hierarchy of coordinate frames.
//!
//! A tree maps each frame name to its node: the frame's parent (none for a
//! root) and the set of its children. Every operation keeps the two
//! directions of that relation in agreement.

use vstd::prelude::*;
use crate::frame::FrameId;

verus! {

/// The names of a sequence of frame identifiers.
pub open spec fn ids(s: Seq<FrameId>) -> Seq<Seq<char>> {
    s.map_values(|f: FrameId| f@)
}

/// The name held by an optional frame identifier.
pub open spec fn opt_id(o: Option<FrameId>) -> Option<Seq<char>> {
    match o {
        Some(f) => Some(f@),
        None => None,
    }
}

/// Mathematical model of a frame node: its parent and its set of children.
pub struct NodeModel {
    pub parent: Option<Seq<char>>,
    pub children: Set<Seq<char>>,
}

/// The model of a fresh node: no parent, no children.
pub open spec fn empty_node() -> NodeModel {
    NodeModel { parent: None, children: Set::empty() }
}

// ============================================================================
// FRAME NODE
// ============================================================================

/// Node in the frame tree representing a coordinate frame.
#[derive(Debug)]
pub struct FrameNode {
    /// Parent frame (None for root frames)
    pub parent: Option<FrameId>,
    /// Child frames, each listed once
    pub children: Vec<FrameId>,
}

impl FrameNode {
    /// The node's model.
    pub open spec fn model(&self) -> NodeModel {
        NodeModel { parent: opt_id(self.parent), children: ids(self.children@).to_set() }
    }

    /// No child is listed twice.
    pub open spec fn well_formed(&self) -> bool {
        ids(self.children@).no_duplicates()
    }

    /// Create a new frame node with no parent.
    pub fn new() -> (r: FrameNode)
        ensures
            r.parent is None,
            r.children@.len() == 0,
            r.well_formed(),
            r.model() == empty_node(),
    {
        let r = FrameNode { parent: None, children: Vec::new() };
        assert(ids(r.children@).to_set() =~= Set::empty());
        r
    }

    /// Create a frame node with a parent.
    pub fn with_parent(parent: FrameId) -> (r: FrameNode)
        ensures
            r.parent == Some(parent),
            r.children@.len() == 0,
            r.well_formed(),
            r.model() == (NodeModel { parent: Some(parent@), children: Set::empty() }),
    {
        let r = FrameNode { parent: Some(parent), children: Vec::new() };
        assert(ids(r.children@).to_set() =~= Set::empty());
        r
    }

    /// Check if this is a root frame (no parent).
    pub fn is_root(&self) -> (r: bool)
        ensures
            r == (self.parent is None),
    {
        self.parent.is_none()
    }

    /// Check if this frame has children.
    pub fn has_children(&self) -> (r: bool)
        ensures
            r == (self.children@.len() > 0),
            r == (self.model().children.len() > 0),
            r == !self.model().children.is_empty(),
    {
        proof {
            if self.children@.len() > 0 {
                assert(ids(self.children@)[0] == self.children@[0]@);
                assert(ids(self.children@).to_set().contains(self.children@[0]@));
            } else {
                assert(ids(self.children@).to_set() =~= Set::empty());
            }
        }
        self.children.len() > 0
    }
}

// ============================================================================
// MODEL OF A SEQUENCE OF ENTRIES
// ============================================================================

/// Frame names of a sequence of entries.
pub open spec fn entry_keys(s: Seq<(FrameId, FrameNode)>) -> Seq<Seq<char>> {
    s.map_values(|e: (FrameId, FrameNode)| e.0@)
}

/// The map from frame name to node model that a sequence of entries with distinct
/// names stands for.
pub open spec fn entries_model(s: Seq<(FrameId, FrameNode)>) -> Map<Seq<char>, NodeModel> {
    Map::new(
        |k: Seq<char>| entry_keys(s).contains(k),
        |k: Seq<char>| s[entry_keys(s).index_of(k)].1.model(),
    )
}

/// Parents point to nodes that list the frame as a child, and children point
/// back to the node that lists them.
pub open spec fn consistent(m: Map<Seq<char>, NodeModel>) -> bool {
    &&& forall|k: Seq<char>|
        #![trigger m[k].parent]
        m.dom().contains(k) && m[k].parent is Some ==> m.dom().contains(m[k].parent->0)
            && m[m[k].parent->0].children.contains(k)
    &&& forall|k: Seq<char>, c: Seq<char>|
        #![trigger m[k].children.contains(c)]
        m.dom().contains(k) && m[k].children.contains(c) ==> m.dom().contains(c)
            && m[c].parent == Some(k)
    &&& m.dom().finite()
}

proof fn lemma_entry_at(s: Seq<(FrameId, FrameNode)>, i: int)
    requires
        entry_keys(s).no_duplicates(),
        0 <= i < s.len(),
    ensures
        entries_model(s).dom().contains(s[i].0@),
        entries_model(s)[s[i].0@] == s[i].1.model(),
        entry_keys(s).index_of(s[i].0@) == i,
{
    let ks = entry_keys(s);
    assert(ks[i] == s[i].0@);
    assert(ks.contains(s[i].0@));
    let j = ks.index_of(s[i].0@);
    assert(ks[j] == ks[i]);
}

proof fn lemma_model_dom(s: Seq<(FrameId, FrameNode)>, k: Seq<char>)
    requires
        entry_keys(s).no_duplicates(),
    ensures
        entries_model(s).dom().contains(k) <==> exists|i: int| 0 <= i < s.len() && s[i].0@ == k,
{
    if entries_model(s).dom().contains(k) {
        let i = entry_keys(s).index_of(k);
        assert(0 <= i < s.len() && s[i].0@ == k);
    }
    if exists|i: int| 0 <= i < s.len() && s[i].0@ == k {
        let i = choose|i: int| 0 <= i < s.len() && s[i].0@ == k;
        lemma_entry_at(s, i);
    }
}

/// Replacing the node of entry `i` replaces that name's model.
proof fn lemma_model_update(s: Seq<(FrameId, FrameNode)>, i: int, e: (FrameId, FrameNode))
    requires
        entry_keys(s).no_duplicates(),
        0 <= i < s.len(),
        e.0@ == s[i].0@,
    ensures
        entry_keys(s.update(i, e)) == entry_keys(s),
        entries_model(s.update(i, e)) == entries_model(s).insert(e.0@, e.1.model()),
{
    let t = s.update(i, e);
    assert(entry_keys(t) =~= entry_keys(s));
    let m = entries_model(s).insert(e.0@, e.1.model());
    assert forall|k: Seq<char>| #[trigger] entries_model(t).dom().contains(k) <==> m.dom().contains(k) by {
        lemma_model_dom(s, k);
        lemma_model_dom(t, k);
        if k == e.0@ {
            lemma_entry_at(s, i);
        }
    }
    assert forall|k: Seq<char>| #[trigger] entries_model(t).dom().contains(k) implies entries_model(t)[k] == m[k] by {
        lemma_model_dom(t, k);
        let j = choose|j: int| 0 <= j < t.len() && t[j].0@ == k;
        lemma_entry_at(t, j);
        if j != i {
            assert(t[j] == s[j]);
            assert(entry_keys(s)[j] == s[j].0@);
            assert(entry_keys(s)[i] == s[i].0@);
            lemma_entry_at(s, j);
        }
    }
    assert(entries_model(t) =~= m);
}

/// Appending an entry with a fresh name adds that name.
proof fn lemma_model_push(s: Seq<(FrameId, FrameNode)>, e: (FrameId, FrameNode))
    requires
        entry_keys(s).no_duplicates(),
        !entries_model(s).dom().contains(e.0@),
    ensures
        entry_keys(s.push(e)) == entry_keys(s).push(e.0@),
        entry_keys(s.push(e)).no_duplicates(),
        entries_model(s.push(e)) == entries_model(s).insert(e.0@, e.1.model()),
{
    let t = s.push(e);
    assert(entry_keys(t) =~= entry_keys(s).push(e.0@));
    assert(entry_keys(t).no_duplicates()) by {
        assert forall|a: int, b: int| 0 <= a < b < entry_keys(t).len() implies entry_keys(t)[a]
            != entry_keys(t)[b] by {
            if b == s.len() {
                assert(entry_keys(s)[a] == s[a].0@);
                assert(entry_keys(s).contains(s[a].0@));
            }
        }
    }
    let m = entries_model(s).insert(e.0@, e.1.model());
    assert forall|k: Seq<char>| #[trigger] entries_model(t).dom().contains(k) <==> m.dom().contains(k) by {
        lemma_model_dom(s, k);
        lemma_model_dom(t, k);
        if k == e.0@ {
            lemma_entry_at(t, s.len() as int);
        }
        if exists|i: int| 0 <= i < s.len() && s[i].0@ == k {
            let i = choose|i: int| 0 <= i < s.len() && s[i].0@ == k;
            assert(t[i] == s[i]);
        }
    }
    assert forall|k: Seq<char>| #[trigger] entries_model(t).dom().contains(k) implies entries_model(t)[k] == m[k] by {
        lemma_model_dom(t, k);
        let j = choose|j: int| 0 <= j < t.len() && t[j].0@ == k;
        lemma_entry_at(t, j);
        if j < s.len() {
            lemma_entry_at(s, j);
        }
    }
    assert(entries_model(t) =~= m);
}

/// Removing entry `i` removes that name.
proof fn lemma_model_remove(s: Seq<(FrameId, FrameNode)>, i: int)
    requires
        entry_keys(s).no_duplicates(),
        0 <= i < s.len(),
    ensures
        entry_keys(s.remove(i)) == entry_keys(s).remove(i),
        entry_keys(s.remove(i)).no_duplicates(),
        entries_model(s.remove(i)) == entries_model(s).remove(s[i].0@),
{
    let t = s.remove(i);
    assert(entry_keys(t) =~= entry_keys(s).remove(i));
    assert(entry_keys(t).no_duplicates()) by {
        assert forall|a: int, b: int| 0 <= a < b < entry_keys(t).len() implies entry_keys(t)[a]
            != entry_keys(t)[b] by {
            let a2 = if a < i { a } else { a + 1 };
            let b2 = if b < i { b } else { b + 1 };
            assert(entry_keys(t)[a] == entry_keys(s)[a2]);
            assert(entry_keys(t)[b] == entry_keys(s)[b2]);
        }
    }
    let m = entries_model(s).remove(s[i].0@);
    assert forall|k: Seq<char>| #[trigger] entries_model(t).dom().contains(k) <==> m.dom().contains(k) by {
        lemma_model_dom(s, k);
        lemma_model_dom(t, k);
        if exists|j: int| 0 <= j < t.len() && t[j].0@ == k {
            let j = choose|j: int| 0 <= j < t.len() && t[j].0@ == k;
            let j2 = if j < i { j } else { j + 1 };
            assert(t[j] == s[j2]);
            assert(entry_keys(s)[j2] != entry_keys(s)[i]);
        }
        if k != s[i].0@ && exists|j: int| 0 <= j < s.len() && s[j].0@ == k {
            let j = choose|j: int| 0 <= j < s.len() && s[j].0@ == k;
            if j < i {
                assert(t[j] == s[j]);
            } else {
                assert(j != i);
                assert(t[j - 1] == s[j]);
            }
        }
    }
    assert forall|k: Seq<char>| #[trigger] entries_model(t).dom().contains(k) implies entries_model(t)[k] == m[k] by {
        lemma_model_dom(t, k);
        let j = choose|j: int| 0 <= j < t.len() && t[j].0@ == k;
        lemma_entry_at(t, j);
        let j2 = if j < i { j } else { j + 1 };
        assert(t[j] == s[j2]);
        lemma_entry_at(s, j2);
    }
    assert(entries_model(t) =~= m);
}

/// Removes `c` from a list of frames in which no name repeats.
fn list_remove(v: &mut Vec<FrameId>, c: &FrameId)
    requires
        ids(old(v)@).no_duplicates(),
    ensures
        ids(final(v)@).no_duplicates(),
        ids(final(v)@).to_set() == ids(old(v)@).to_set().remove(c@),
{
    let ghost s0 = ids(v@);
    let mut i: usize = 0;
    while i < v.len()
        invariant
            i <= v@.len(),
            v@ == old(v)@,
            s0 == ids(v@),
            s0.no_duplicates(),
            forall|j: int| 0 <= j < i ==> v@[j]@ != c@,
        decreases v@.len() - i,
    {
        if v[i] == *c {
            let ghost before = v@;
            v.remove(i);
            proof {
                assert(ids(v@) =~= s0.remove(i as int));
                assert(s0[i as int] == c@);
                assert forall|a: int, b: int| 0 <= a < b < ids(v@).len() implies ids(v@)[a]
                    != ids(v@)[b] by {
                    let a2 = if a < i { a } else { a + 1 };
                    let b2 = if b < i { b } else { b + 1 };
                    assert(ids(v@)[a] == s0[a2]);
                    assert(ids(v@)[b] == s0[b2]);
                }
                assert forall|x: Seq<char>| #[trigger] ids(v@).to_set().contains(x) <==> s0.to_set().remove(c@).contains(x) by {
                    if ids(v@).contains(x) {
                        let a = choose|a: int| 0 <= a < ids(v@).len() && ids(v@)[a] == x;
                        let a2 = if a < i { a } else { a + 1 };
                        assert(ids(v@)[a] == s0[a2]);
                        assert(s0.contains(x));
                    }
                    if s0.contains(x) && x != c@ {
                        let a = choose|a: int| 0 <= a < s0.len() && s0[a] == x;
                        assert(a != i);
                        let a2 = if a < i { a } else { a - 1 };
                        assert(ids(v@)[a2] == x);
                    }
                }
                assert(ids(v@).to_set() =~= s0.to_set().remove(c@));
            }
            return;
        }
        i = i + 1;
    }
    proof {
        assert forall|x: Seq<char>| #[trigger] s0.to_set().contains(x) implies x != c@ by {
            let a = choose|a: int| 0 <= a < s0.len() && s0[a] == x;
            assert(s0[a] == v@[a]@);
        }
        assert(s0.to_set() =~= s0.to_set().remove(c@));
    }
}

/// Adds `c` to a list of frames in which no name repeats, unless it is already there.
fn list_insert(v: &mut Vec<FrameId>, c: FrameId)
    requires
        ids(old(v)@).no_duplicates(),
    ensures
        ids(final(v)@).no_duplicates(),
        ids(final(v)@).to_set() == ids(old(v)@).to_set().insert(c@),
{
    let ghost s0 = ids(v@);
    let mut i: usize = 0;
    while i < v.len()
        invariant
            i <= v@.len(),
            v@ == old(v)@,
            s0 == ids(v@),
            s0.no_duplicates(),
            forall|j: int| 0 <= j < i ==> v@[j]@ != c@,
        decreases v@.len() - i,
    {
        if v[i] == c {
            proof {
                assert(s0[i as int] == c@);
                assert(s0.to_set() =~= s0.to_set().insert(c@));
            }
            return;
        }
        i = i + 1;
    }
    let ghost cv = c@;
    v.push(c);
    proof {
        assert(ids(v@) =~= s0.push(cv));
        assert forall|a: int, b: int| 0 <= a < b < ids(v@).len() implies ids(v@)[a]
            != ids(v@)[b] by {
            if b == s0.len() {
                assert(s0[a] == old(v)@[a]@);
            }
        }
        assert forall|x: Seq<char>| #[trigger] ids(v@).to_set().contains(x) <==> s0.to_set().insert(cv).contains(x) by {
            if ids(v@).contains(x) {
                let a = choose|a: int| 0 <= a < ids(v@).len() && ids(v@)[a] == x;
                if a < s0.len() {
                    assert(s0[a] == x);
                }
            }
            if s0.contains(x) {
                let a = choose|a: int| 0 <= a < s0.len() && s0[a] == x;
                assert(ids(v@)[a] == x);
            }
            if x == cv {
                assert(ids(v@)[s0.len() as int] == x);
            }
        }
        assert(ids(v@).to_set() =~= s0.to_set().insert(cv));
    }
}

/// Distinct names and well-formed nodes: what holds between the steps of an update.
pub open spec fn entries_ok(s: Seq<(FrameId, FrameNode)>) -> bool {
    &&& entry_keys(s).no_duplicates()
    &&& forall|i: int| 0 <= i < s.len() ==> (#[trigger] s[i]).1.well_formed()
}

// ============================================================================
// OPERATIONS ON THE MODEL
// ============================================================================

/// `m` with `k` present: added as a root without children if it was missing.
pub open spec fn with_node(m: Map<Seq<char>, NodeModel>, k: Seq<char>) -> Map<Seq<char>, NodeModel> {
    if m.dom().contains(k) {
        m
    } else {
        m.insert(k, empty_node())
    }
}

/// The node of `k`, or a fresh node if `k` is missing.
pub open spec fn node_or_empty(m: Map<Seq<char>, NodeModel>, k: Seq<char>) -> NodeModel {
    if m.dom().contains(k) {
        m[k]
    } else {
        empty_node()
    }
}

/// The tree after `set_parent(c, p)`: `p` is created as a root if missing, `c`
/// is created if missing, `c` gets the parent `p`, leaves the children of its
/// old parent and joins the children of `p`.
pub open spec fn spec_set_parent(m: Map<Seq<char>, NodeModel>, c: Seq<char>, p: Seq<char>) -> Map<
    Seq<char>,
    NodeModel,
> {
    let m1 = with_node(m, p);
    let old = node_or_empty(m1, c);
    let m2 = m1.insert(c, NodeModel { parent: Some(p), children: old.children });
    let m3 = match old.parent {
        Some(op) => if m2.dom().contains(op) {
            m2.insert(op, NodeModel { parent: m2[op].parent, children: m2[op].children.remove(c) })
        } else {
            m2
        },
        None => m2,
    };
    m3.insert(p, NodeModel { parent: m3[p].parent, children: m3[p].children.insert(c) })
}

/// The tree after `remove(f)` of a frame `f` that is present: `f` is gone, its
/// parent no longer lists it, and its children have no parent.
pub open spec fn spec_remove(m: Map<Seq<char>, NodeModel>, f: Seq<char>) -> Map<Seq<char>, NodeModel> {
    Map::new(
        |k: Seq<char>| m.dom().contains(k) && k != f,
        |k: Seq<char>|
            NodeModel {
                parent: if m[f].children.contains(k) {
                    None
                } else {
                    m[k].parent
                },
                children: if m[f].parent == Some(k) {
                    m[k].children.remove(f)
                } else {
                    m[k].children
                },
            },
    )
}

/// Adding a root frame without children keeps parent and child links in agreement.
pub proof fn lemma_with_node_consistent(m: Map<Seq<char>, NodeModel>, k: Seq<char>)
    requires
        consistent(m),
    ensures
        consistent(with_node(m, k)),
{
    let r = with_node(m, k);
    assert forall|a: Seq<char>|
        #![trigger r[a].parent]
        r.dom().contains(a) && r[a].parent is Some implies r.dom().contains(r[a].parent->0) && r[r[a].parent->0].children.contains(a) by {
        let p = r[a].parent->0;
        if !m.dom().contains(k) && a != k {
            assert(m[a].parent == Some(p));
            assert(m.dom().contains(p));
        }
    }
    assert forall|a: Seq<char>, c: Seq<char>|
        #![trigger r[a].children.contains(c)]
        r.dom().contains(a) && r[a].children.contains(c) implies r.dom().contains(c) && r[c].parent == Some(a) by {
        if !m.dom().contains(k) && a != k {
            assert(m[a].children.contains(c));
        }
    }
}

/// `set_parent` keeps parent and child links in agreement.
pub proof fn lemma_set_parent_consistent(m: Map<Seq<char>, NodeModel>, c: Seq<char>, p: Seq<char>)
    requires
        consistent(m),
    ensures
        consistent(spec_set_parent(m, c, p)),
{
    lemma_with_node_consistent(m, p);
    let m1 = with_node(m, p);
    let old = node_or_empty(m1, c);
    let m2 = m1.insert(c, NodeModel { parent: Some(p), children: old.children });
    let m3 = match old.parent {
        Some(op) => if m2.dom().contains(op) {
            m2.insert(op, NodeModel { parent: m2[op].parent, children: m2[op].children.remove(c) })
        } else {
            m2
        },
        None => m2,
    };
    let r = spec_set_parent(m, c, p);
    assert(r == m3.insert(p, NodeModel { parent: m3[p].parent, children: m3[p].children.insert(c) }));
    // Only the old parent of c lists c before the update.
    assert forall|k: Seq<char>| m1.dom().contains(k) && #[trigger] m1[k].children.contains(c) implies m1.dom().contains(c) && old.parent == Some(k) by {
    }
    assert(r.dom() =~= m1.dom().insert(c));
    assert forall|a: Seq<char>|
        #![trigger r[a].parent]
        r.dom().contains(a) && r[a].parent is Some implies r.dom().contains(r[a].parent->0) && r[r[a].parent->0].children.contains(a) by {
        let q = r[a].parent->0;
        if a == c {
            assert(q == p);
        } else {
            assert(m1.dom().contains(a));
            assert(r[a].parent == m1[a].parent);
            assert(m1.dom().contains(q) && m1[q].children.contains(a));
            assert(r[q].children.contains(a));
        }
    }
    assert forall|a: Seq<char>, x: Seq<char>|
        #![trigger r[a].children.contains(x)]
        r.dom().contains(a) && r[a].children.contains(x) implies r.dom().contains(x) && r[x].parent == Some(a) by {
        if x == c {
            if a != p {
                // c is listed only by p after the update
                if a == c {
                    assert(old.children.contains(c));
                    assert(m1.dom().contains(c) && m1[c].children.contains(c));
                    assert(old.parent == Some(c));
                } else {
                    assert(m1[a].children.contains(c));
                    assert(old.parent == Some(a));
                }
                assert(false);
            }
        } else {
            if a == c {
                assert(m1.dom().contains(c));
                assert(m1[c].children.contains(x));
            } else {
                assert(m1.dom().contains(a));
                assert(m1[a].children.contains(x));
            }
            assert(m1.dom().contains(x) && m1[x].parent == Some(a));
        }
    }
}

/// `remove` keeps parent and child links in agreement.
pub proof fn lemma_remove_consistent(m: Map<Seq<char>, NodeModel>, f: Seq<char>)
    requires
        consistent(m),
        m.dom().contains(f),
    ensures
        consistent(spec_remove(m, f)),
{
    let r = spec_remove(m, f);
    assert(r.dom() =~= m.dom().remove(f));
    assert forall|a: Seq<char>|
        #![trigger r[a].parent]
        r.dom().contains(a) && r[a].parent is Some implies r.dom().contains(r[a].parent->0) && r[r[a].parent->0].children.contains(a) by {
        let q = r[a].parent->0;
        assert(!m[f].children.contains(a));
        assert(m[a].parent == Some(q));
        assert(m.dom().contains(q) && m[q].children.contains(a));
        if q == f {
            assert(false);
        }
    }
    assert forall|a: Seq<char>, x: Seq<char>|
        #![trigger r[a].children.contains(x)]
        r.dom().contains(a) && r[a].children.contains(x) implies r.dom().contains(x) && r[x].parent == Some(a) by {
        assert(m[a].children.contains(x));
        assert(m.dom().contains(x) && m[x].parent == Some(a));
        if x == f {
            assert(m[f].parent == Some(a));
            assert(false);
        }
        if m[f].children.contains(x) {
            assert(m[x].parent == Some(f));
            assert(false);
        }
    }
}

// ============================================================================
// PATHS IN THE MODEL
// ============================================================================

/// The parent of `f`; none for a root or for a frame that is not in the tree.
pub open spec fn parent_of(m: Map<Seq<char>, NodeModel>, f: Seq<char>) -> Option<Seq<char>> {
    if m.dom().contains(f) {
        m[f].parent
    } else {
        None
    }
}

/// Following parents from `f`, a frame without parent is reached within `n` steps.
pub open spec fn reaches_root_within(m: Map<Seq<char>, NodeModel>, f: Seq<char>, n: nat) -> bool
    decreases n,
{
    match parent_of(m, f) {
        None => true,
        Some(p) => n > 0 && reaches_root_within(m, p, (n - 1) as nat),
    }
}

/// Following parents from `f` ends at a frame without parent (no cycle is met).
pub open spec fn rooted(m: Map<Seq<char>, NodeModel>, f: Seq<char>) -> bool {
    exists|n: nat| reaches_root_within(m, f, n)
}

/// At most `n` frames met when following parents from `f`, `f` first.
pub open spec fn chain(m: Map<Seq<char>, NodeModel>, f: Seq<char>, n: nat) -> Seq<Seq<char>>
    decreases n,
{
    if n == 0 {
        Seq::empty()
    } else {
        seq![f] + match parent_of(m, f) {
            None => Seq::<Seq<char>>::empty(),
            Some(p) => chain(m, p, (n - 1) as nat),
        }
    }
}

/// The frames from `f` up to and including its root.
pub open spec fn root_path(m: Map<Seq<char>, NodeModel>, f: Seq<char>) -> Seq<Seq<char>> {
    chain(m, f, (choose|n: nat| reaches_root_within(m, f, n)) + 1)
}

/// The first element of `s` that `t` holds.
pub open spec fn first_in(s: Seq<Seq<char>>, t: Seq<Seq<char>>) -> Option<Seq<char>>
    decreases s.len(),
{
    if s.len() == 0 {
        None
    } else if t.contains(s[0]) {
        Some(s[0])
    } else {
        first_in(s.drop_first(), t)
    }
}

/// The common ancestor of `a` and `b`: the first frame on the way from `b` to its
/// root that lies on the way from `a` to its root.
pub open spec fn spec_common_ancestor(m: Map<Seq<char>, NodeModel>, a: Seq<char>, b: Seq<char>) -> Option<
    Seq<char>,
> {
    first_in(root_path(m, b), root_path(m, a))
}

/// The elements of `s` before the first occurrence of `x` (all of `s` if none).
pub open spec fn prefix_before(s: Seq<Seq<char>>, x: Seq<char>) -> Seq<Seq<char>>
    decreases s.len(),
{
    if s.len() == 0 {
        s
    } else if s[0] == x {
        Seq::empty()
    } else {
        seq![s[0]] + prefix_before(s.drop_first(), x)
    }
}

pub proof fn lemma_reaches_mono(m: Map<Seq<char>, NodeModel>, f: Seq<char>, n: nat, k: nat)
    requires
        reaches_root_within(m, f, n),
        n <= k,
    ensures
        reaches_root_within(m, f, k),
    decreases n,
{
    match parent_of(m, f) {
        None => {},
        Some(p) => {
            lemma_reaches_mono(m, p, (n - 1) as nat, (k - 1) as nat);
        },
    }
}

pub proof fn lemma_chain_stable(m: Map<Seq<char>, NodeModel>, f: Seq<char>, n: nat, k: nat)
    requires
        reaches_root_within(m, f, n),
        n <= k,
    ensures
        chain(m, f, k + 1) == chain(m, f, n + 1),
    decreases n,
{
    match parent_of(m, f) {
        None => {},
        Some(p) => {
            lemma_chain_stable(m, p, (n - 1) as nat, (k - 1) as nat);
            assert(chain(m, p, (k - 1) as nat + 1) == chain(m, p, (n - 1) as nat + 1));
        },
    }
}

/// The root path of a rooted frame is its chain for any bound it reaches a root within.
pub proof fn lemma_root_path_is_chain(m: Map<Seq<char>, NodeModel>, f: Seq<char>, n: nat)
    requires
        reaches_root_within(m, f, n),
    ensures
        root_path(m, f) == chain(m, f, n + 1),
{
    let c = choose|c: nat| reaches_root_within(m, f, c);
    if c <= n {
        lemma_chain_stable(m, f, c, n);
    } else {
        lemma_chain_stable(m, f, n, c);
    }
}

// ============================================================================
// FRAME TREE
// ============================================================================

/// Tree structure maintaining frame hierarchy.
#[derive(Debug)]
pub struct FrameTree {
    /// One entry per frame: its identifier and its node
    nodes: Vec<(FrameId, FrameNode)>,
}

impl View for FrameTree {
    type V = Map<Seq<char>, NodeModel>;

    closed spec fn view(&self) -> Map<Seq<char>, NodeModel> {
        entries_model(self.nodes@)
    }
}

impl FrameTree {
    /// Names are distinct, child lists hold no repeats, and parent and child
    /// links agree.
    pub closed spec fn wf(&self) -> bool {
        &&& entries_ok(self.nodes@)
        &&& consistent(self@)
    }

    /// Create a new empty frame tree.
    pub fn new() -> (r: FrameTree)
        ensures
            r.wf(),
            r@ == Map::<Seq<char>, NodeModel>::empty(),
    {
        let r = FrameTree { nodes: Vec::new() };
        assert(entries_model(r.nodes@) =~= Map::<Seq<char>, NodeModel>::empty());
        r
    }

    /// Get the number of frames in the tree.
    pub fn len(&self) -> (r: usize)
        requires
            self.wf(),
        ensures
            r == self@.dom().len(),
    {
        proof {
            let ks = entry_keys(self.nodes@);
            assert(self@.dom() =~= ks.to_set());
            ks.unique_seq_to_set();
        }
        self.nodes.len()
    }

    /// Check if the tree is empty.
    pub fn is_empty(&self) -> (r: bool)
        requires
            self.wf(),
        ensures
            r == (self@.dom().len() == 0),
            r == (self@ == Map::<Seq<char>, NodeModel>::empty()),
    {
        let n = self.len();
        proof {
            if n == 0 {
                assert(self@ =~= Map::<Seq<char>, NodeModel>::empty());
            }
        }
        n == 0
    }

    /// Index of the entry named `frame`.
    fn find(&self, frame: &FrameId) -> (r: Option<usize>)
        requires
            entry_keys(self.nodes@).no_duplicates(),
        ensures
            match r {
                Some(i) => i < self.nodes@.len() && self.nodes@[i as int].0@ == frame@
                    && self@.dom().contains(frame@),
                None => !self@.dom().contains(frame@),
            },
    {
        let mut i: usize = 0;
        while i < self.nodes.len()
            invariant
                i <= self.nodes@.len(),
                entry_keys(self.nodes@).no_duplicates(),
                forall|j: int| 0 <= j < i ==> self.nodes@[j].0@ != frame@,
            decreases self.nodes@.len() - i,
        {
            if self.nodes[i].0 == *frame {
                proof {
                    lemma_entry_at(self.nodes@, i as int);
                }
                return Some(i);
            }
            i = i + 1;
        }
        proof {
            lemma_model_dom(self.nodes@, frame@);
        }
        None
    }

    /// Check if a frame exists in the tree.
    pub fn contains(&self, frame: &FrameId) -> (r: bool)
        requires
            self.wf(),
        ensures
            r == self@.dom().contains(frame@),
    {
        self.find(frame).is_some()
    }

    /// Get a frame node.
    pub fn get(&self, frame: &FrameId) -> (r: Option<&FrameNode>)
        requires
            self.wf(),
        ensures
            match r {
                Some(n) => self@.dom().contains(frame@) && n.model() == self@[frame@]
                    && n.well_formed(),
                None => !self@.dom().contains(frame@),
            },
    {
        match self.find(frame) {
            Some(i) => {
                proof {
                    lemma_entry_at(self.nodes@, i as int);
                }
                Some(&self.nodes[i].1)
            },
            None => None,
        }
    }

    /// Get the parent of a frame.
    pub fn parent(&self, frame: &FrameId) -> (r: Option<&FrameId>)
        requires
            self.wf(),
        ensures
            match r {
                Some(p) => self@.dom().contains(frame@) && self@[frame@].parent == Some(p@),
                None => !self@.dom().contains(frame@) || self@[frame@].parent is None,
            },
    {
        match self.get(frame) {
            Some(n) => match &n.parent {
                Some(p) => Some(p),
                None => None,
            },
            None => None,
        }
    }

    /// Get the children of a frame.
    pub fn children(&self, frame: &FrameId) -> (r: Option<&Vec<FrameId>>)
        requires
            self.wf(),
        ensures
            match r {
                Some(c) => self@.dom().contains(frame@) && ids(c@).to_set() == self@[frame@].children
                    && ids(c@).no_duplicates(),
                None => !self@.dom().contains(frame@),
            },
    {
        match self.get(frame) {
            Some(n) => Some(&n.children),
            None => None,
        }
    }

    /// Appends an entry for a frame that is not yet in the tree.
    fn push_entry(&mut self, id: FrameId, node: FrameNode)
        requires
            entries_ok(old(self).nodes@),
            !old(self)@.dom().contains(id@),
            node.well_formed(),
        ensures
            entries_ok(final(self).nodes@),
            final(self).nodes@ == old(self).nodes@.push((id, node)),
            final(self)@ == old(self)@.insert(id@, node.model()),
    {
        let ghost e = (id, node);
        proof {
            lemma_model_push(self.nodes@, e);
        }
        self.nodes.push((id, node));
        proof {
            assert(self.nodes@ == old(self).nodes@.push(e));
            assert forall|i: int| 0 <= i < self.nodes@.len() implies (#[trigger] self.nodes@[i]).1.well_formed() by {
                if i < old(self).nodes@.len() {
                    assert(self.nodes@[i] == old(self).nodes@[i]);
                }
            }
        }
    }

    /// Sets the parent of the frame at entry `i`.
    fn update_parent(&mut self, i: usize, parent: Option<FrameId>)
        requires
            entries_ok(old(self).nodes@),
            i < old(self).nodes@.len(),
        ensures
            entries_ok(final(self).nodes@),
            final(self).nodes@.len() == old(self).nodes@.len(),
            final(self)@ == old(self)@.insert(
                old(self).nodes@[i as int].0@,
                NodeModel { parent: opt_id(parent), children: old(self)@[old(self).nodes@[i as int].0@].children },
            ),
    {
        let ghost s0 = self.nodes@;
        let (id, node) = self.nodes.remove(i);
        let new_node = FrameNode { parent, children: node.children };
        let ghost e = (id, new_node);
        self.nodes.insert(i, (id, new_node));
        proof {
            assert(self.nodes@ =~= s0.update(i as int, e));
            lemma_entry_at(s0, i as int);
            lemma_model_update(s0, i as int, e);
            assert forall|j: int| 0 <= j < self.nodes@.len() implies (#[trigger] self.nodes@[j]).1.well_formed() by {
                if j != i {
                    assert(self.nodes@[j] == s0[j]);
                }
            }
        }
    }

    /// Removes `c` from the children of the frame at entry `i`.
    fn remove_child_at(&mut self, i: usize, c: &FrameId)
        requires
            entries_ok(old(self).nodes@),
            i < old(self).nodes@.len(),
        ensures
            entries_ok(final(self).nodes@),
            final(self).nodes@.len() == old(self).nodes@.len(),
            final(self)@ == old(self)@.insert(
                old(self).nodes@[i as int].0@,
                NodeModel {
                    parent: old(self)@[old(self).nodes@[i as int].0@].parent,
                    children: old(self)@[old(self).nodes@[i as int].0@].children.remove(c@),
                },
            ),
    {
        let ghost s0 = self.nodes@;
        let (id, node) = self.nodes.remove(i);
        let FrameNode { parent, children } = node;
        let mut children = children;
        proof {
            assert(s0[i as int].1.well_formed());
        }
        list_remove(&mut children, c);
        let new_node = FrameNode { parent, children };
        let ghost e = (id, new_node);
        self.nodes.insert(i, (id, new_node));
        proof {
            assert(self.nodes@ =~= s0.update(i as int, e));
            lemma_entry_at(s0, i as int);
            lemma_model_update(s0, i as int, e);
            assert forall|j: int| 0 <= j < self.nodes@.len() implies (#[trigger] self.nodes@[j]).1.well_formed() by {
                if j != i {
                    assert(self.nodes@[j] == s0[j]);
                }
            }
        }
    }

    /// Adds `c` to the children of the frame at entry `i`.
    fn insert_child_at(&mut self, i: usize, c: FrameId)
        requires
            entries_ok(old(self).nodes@),
            i < old(self).nodes@.len(),
        ensures
            entries_ok(final(self).nodes@),
            final(self).nodes@.len() == old(self).nodes@.len(),
            final(self)@ == old(self)@.insert(
                old(self).nodes@[i as int].0@,
                NodeModel {
                    parent: old(self)@[old(self).nodes@[i as int].0@].parent,
                    children: old(self)@[old(self).nodes@[i as int].0@].children.insert(c@),
                },
            ),
    {
        let ghost s0 = self.nodes@;
        let ghost cv = c@;
        let (id, node) = self.nodes.remove(i);
        let FrameNode { parent, children } = node;
        let mut children = children;
        proof {
            assert(s0[i as int].1.well_formed());
        }
        list_insert(&mut children, c);
        let new_node = FrameNode { parent, children };
        let ghost e = (id, new_node);
        self.nodes.insert(i, (id, new_node));
        proof {
            assert(self.nodes@ =~= s0.update(i as int, e));
            lemma_entry_at(s0, i as int);
            lemma_model_update(s0, i as int, e);
            assert forall|j: int| 0 <= j < self.nodes@.len() implies (#[trigger] self.nodes@[j]).1.well_formed() by {
                if j != i {
                    assert(self.nodes@[j] == s0[j]);
                }
            }
        }
    }

    /// Add a root frame (frame with no parent); a frame already present is left as it is.
    pub fn add_root(&mut self, frame: FrameId)
        requires
            old(self).wf(),
        ensures
            final(self).wf(),
            final(self)@ == with_node(old(self)@, frame@),
    {
        if self.find(&frame).is_none() {
            proof {
                lemma_with_node_consistent(self@, frame@);
            }
            self.push_entry(frame, FrameNode::new());
        }
    }

    /// Set the parent of a frame, handling reparenting.
    ///
    /// If the child frame doesn't exist, it will be created.
    /// If the parent frame doesn't exist, it will be created as a root.
    /// If the child already has a parent, it will be removed from the old parent.
    pub fn set_parent(&mut self, child: FrameId, parent: FrameId)
        requires
            old(self).wf(),
        ensures
            final(self).wf(),
            final(self)@ == spec_set_parent(old(self)@, child@, parent@),
    {
        let ghost m0 = self@;
        let ghost c = child@;
        let ghost p = parent@;
        proof {
            lemma_set_parent_consistent(m0, c, p);
        }
        // Ensure parent exists
        if self.find(&parent).is_none() {
            self.push_entry(parent.clone(), FrameNode::new());
        }
        let ghost m1 = self@;
        assert(m1 == with_node(m0, p));
        let ghost old_node = node_or_empty(m1, c);
        // Get or create child node
        let ci = match self.find(&child) {
            Some(i) => i,
            None => {
                self.push_entry(child.clone(), FrameNode::new());
                self.nodes.len() - 1
            },
        };
        proof {
            lemma_entry_at(self.nodes@, ci as int);
        }
        let old_parent = match &self.nodes[ci].1.parent {
            Some(op) => Some(op.clone()),
            None => None,
        };
        assert(opt_id(old_parent) == old_node.parent);
        self.update_parent(ci, Some(parent.clone()));
        let ghost m2 = self@;
        assert(m2 =~= m1.insert(c, NodeModel { parent: Some(p), children: old_node.children }));
        // Remove from old parent's children
        if let Some(op) = old_parent {
            if let Some(oi) = self.find(&op) {
                proof {
                    lemma_entry_at(self.nodes@, oi as int);
                }
                self.remove_child_at(oi, &child);
            }
        }
        let ghost m3 = self@;
        // Add to new parent's children
        if let Some(pi) = self.find(&parent) {
            proof {
                lemma_entry_at(self.nodes@, pi as int);
            }
            self.insert_child_at(pi, child);
        }
        assert(self@ =~= spec_set_parent(m0, c, p));
    }

    /// Remove a frame from the tree.
    ///
    /// Children of the removed frame become roots.
    pub fn remove(&mut self, frame: &FrameId) -> (r: Option<FrameNode>)
        requires
            old(self).wf(),
        ensures
            final(self).wf(),
            match r {
                Some(n) => old(self)@.dom().contains(frame@) && n.model() == old(self)@[frame@]
                    && n.well_formed() && final(self)@ == spec_remove(old(self)@, frame@),
                None => !old(self)@.dom().contains(frame@) && final(self)@ == old(self)@,
            },
    {
        let ghost m0 = self@;
        let ghost f = frame@;
        match self.find(frame) {
            None => None,
            Some(i) => {
                proof {
                    lemma_entry_at(self.nodes@, i as int);
                    lemma_model_remove(self.nodes@, i as int);
                    lemma_remove_consistent(m0, f);
                }
                let ghost s0 = self.nodes@;
                let (_, node) = self.nodes.remove(i);
                proof {
                    assert(node.well_formed());
                    assert forall|j: int| 0 <= j < self.nodes@.len() implies (#[trigger] self.nodes@[j]).1.well_formed() by {
                        let j2 = if j < i { j } else { j + 1 };
                        assert(self.nodes@[j] == s0[j2]);
                    }
                }
                let ghost nm = node.model();
                // Remove from parent's children
                if let Some(parent) = &node.parent {
                    if let Some(pi) = self.find(parent) {
                        proof {
                            lemma_entry_at(self.nodes@, pi as int);
                        }
                        self.remove_child_at(pi, frame);
                    }
                }
                let ghost kids = ids(node.children@);
                let ghost base = Map::new(
                    |k: Seq<char>| m0.dom().contains(k) && k != f,
                    |k: Seq<char>|
                        NodeModel {
                            parent: m0[k].parent,
                            children: if nm.parent == Some(k) {
                                m0[k].children.remove(f)
                            } else {
                                m0[k].children
                            },
                        },
                );
                assert(self@ =~= base);
                // Make children into roots
                let mut j: usize = 0;
                while j < node.children.len()
                    invariant
                        j <= node.children@.len(),
                        entries_ok(self.nodes@),
                        kids == ids(node.children@),
                        self@ == Map::new(
                            |k: Seq<char>| base.dom().contains(k),
                            |k: Seq<char>|
                                NodeModel {
                                    parent: if kids.take(j as int).contains(k) {
                                        None
                                    } else {
                                        base[k].parent
                                    },
                                    children: base[k].children,
                                },
                        ),
                    decreases node.children@.len() - j,
                {
                    let ghost before = self@;
                    let ghost kj = kids[j as int];
                    assert(kj == node.children@[j as int]@);
                    assert forall|k: Seq<char>| #[trigger] kids.take(j as int + 1).contains(k) <==> (kids.take(j as int).contains(k) || k == kj) by {
                        if kids.take(j as int).contains(k) {
                            let a = choose|a: int| 0 <= a < j && kids.take(j as int)[a] == k;
                            assert(kids.take(j as int + 1)[a] == k);
                        }
                        if k == kj {
                            assert(kids.take(j as int + 1)[j as int] == kj);
                        }
                        let t1 = kids.take(j as int + 1);
                        if t1.contains(k) {
                            let a = choose|a: int| 0 <= a < t1.len() && t1[a] == k;
                            if a < j {
                                assert(kids.take(j as int)[a] == k);
                            }
                        }
                    }
                    if let Some(ci) = self.find(&node.children[j]) {
                        proof {
                            lemma_entry_at(self.nodes@, ci as int);
                        }
                        self.update_parent(ci, None);
                    }
                    j = j + 1;
                    assert(self@ =~= Map::new(
                        |k: Seq<char>| base.dom().contains(k),
                        |k: Seq<char>|
                            NodeModel {
                                parent: if kids.take(j as int).contains(k) {
                                    None
                                } else {
                                    base[k].parent
                                },
                                children: base[k].children,
                            },
                    ));
                }
                assert(kids.take(j as int) =~= kids);
                assert(self@ =~= spec_remove(m0, f));
                Some(node)
            },
        }
    }

    /// Whether following parents from `frame` reaches a root (meets no cycle).
    pub fn is_rooted(&self, frame: &FrameId) -> (r: bool)
        requires
            self.wf(),
        ensures
            r == rooted(self@, frame@),
    {
        let ghost m = self@;
        let bound = self.nodes.len();
        proof {
            assert(m.dom() =~= entry_keys(self.nodes@).to_set());
            entry_keys(self.nodes@).unique_seq_to_set();
        }
        let mut current = frame.clone();
        let mut steps: usize = 0;
        loop
            invariant
                self.wf(),
                m == self@,
                bound == m.dom().len(),
                steps <= bound,
                forall|n: nat| #[trigger] reaches_root_within(m, frame@, steps as nat + n) == reaches_root_within(m, current@, n),
            decreases bound - steps,
        {
            match self.parent(&current) {
                None => {
                    proof {
                        assert(reaches_root_within(m, current@, 0));
                        assert(reaches_root_within(m, frame@, steps as nat + 0));
                    }
                    return true;
                },
                Some(p) => {
                    if steps == bound {
                        proof {
                            if rooted(m, frame@) {
                                crate::frame_laws::law_rooted_within_size(m, frame@);
                                assert(reaches_root_within(m, frame@, steps as nat + 0));
                            }
                        }
                        return false;
                    }
                    let ghost old_cur = current@;
                    let ghost old_steps = steps as nat;
                    current = p.clone();
                    steps = steps + 1;
                    proof {
                        assert forall|n: nat| #[trigger] reaches_root_within(m, frame@, steps as nat + n) == reaches_root_within(m, current@, n) by {
                            assert(parent_of(m, old_cur) == Some(current@));
                            assert(reaches_root_within(m, old_cur, n + 1) == reaches_root_within(m, current@, n));
                            assert(reaches_root_within(m, frame@, old_steps + (n + 1)) == reaches_root_within(m, old_cur, n + 1));
                            assert(old_steps + (n + 1) == steps as nat + n);
                        }
                    }
                },
            }
        }
    }

    /// Get the path from a frame to the root.
    ///
    /// Returns the frame IDs from the given frame up to (and including) the root.
    pub fn path_to_root(&self, frame: &FrameId) -> (r: Vec<FrameId>)
        requires
            self.wf(),
            rooted(self@, frame@),
        ensures
            ids(r@) == root_path(self@, frame@),
    {
        let ghost m = self@;
        let ghost n0 = choose|n: nat| reaches_root_within(m, frame@, n);
        proof {
            lemma_root_path_is_chain(m, frame@, n0);
        }
        let mut path: Vec<FrameId> = Vec::new();
        let mut current = frame.clone();
        let ghost mut k: nat = n0;
        loop
            invariant_except_break
                self.wf(),
                m == self@,
                reaches_root_within(m, current@, k),
                ids(path@) + chain(m, current@, k + 1) == chain(m, frame@, n0 + 1),
            ensures
                ids(path@) == chain(m, frame@, n0 + 1),
            decreases k,
        {
            let ghost before = ids(path@);
            path.push(current.clone());
            assert(ids(path@) =~= before.push(current@));
            match self.parent(&current) {
                None => {
                    assert(chain(m, current@, k + 1) =~= seq![current@]);
                    assert(ids(path@) =~= chain(m, frame@, n0 + 1));
                    break ;
                },
                Some(p) => {
                    let ghost old_cur = current@;
                    assert(chain(m, old_cur, k + 1) == seq![old_cur] + chain(m, p@, k));
                    current = p.clone();
                    proof {
                        k = (k - 1) as nat;
                    }
                    assert(ids(path@) + chain(m, current@, k + 1) =~= before + chain(m, old_cur, (k + 2) as nat));
                },
            }
        }
        path
    }

    /// Whether `frame` is listed in `path`.
    fn listed(path: &Vec<FrameId>, frame: &FrameId) -> (r: bool)
        ensures
            r == ids(path@).contains(frame@),
    {
        let mut i: usize = 0;
        while i < path.len()
            invariant
                i <= path@.len(),
                forall|j: int| 0 <= j < i ==> path@[j]@ != frame@,
            decreases path@.len() - i,
        {
            if path[i] == *frame {
                assert(ids(path@)[i as int] == frame@);
                return true;
            }
            i = i + 1;
        }
        proof {
            if ids(path@).contains(frame@) {
                let j = choose|j: int| 0 <= j < ids(path@).len() && ids(path@)[j] == frame@;
                assert(path@[j]@ == frame@);
            }
        }
        false
    }

    /// Find the common ancestor of two frames.
    ///
    /// Returns None if the frames are in disconnected trees.
    pub fn common_ancestor(&self, frame_a: &FrameId, frame_b: &FrameId) -> (r: Option<FrameId>)
        requires
            self.wf(),
            rooted(self@, frame_a@),
            rooted(self@, frame_b@),
        ensures
            opt_id(r) == spec_common_ancestor(self@, frame_a@, frame_b@),
    {
        let ghost m = self@;
        let path_a = self.path_to_root(frame_a);
        let ghost pa = ids(path_a@);
        let ghost n0 = choose|n: nat| reaches_root_within(m, frame_b@, n);
        proof {
            lemma_root_path_is_chain(m, frame_b@, n0);
        }
        // Walk up from frame_b and find the first frame in path_a
        let mut current = frame_b.clone();
        let ghost mut k: nat = n0;
        loop
            invariant
                self.wf(),
                m == self@,
                pa == ids(path_a@),
                pa == root_path(m, frame_a@),
                reaches_root_within(m, current@, k),
                first_in(chain(m, current@, k + 1), pa) == spec_common_ancestor(m, frame_a@, frame_b@),
            decreases k,
        {
            let ghost c = chain(m, current@, k + 1);
            assert(c[0] == current@);
            if Self::listed(&path_a, &current) {
                return Some(current);
            }
            assert(c.drop_first() =~= match parent_of(m, current@) {
                None => Seq::<Seq<char>>::empty(),
                Some(p) => chain(m, p, k),
            });
            match self.parent(&current) {
                None => {
                    assert(first_in(c.drop_first(), pa) == None::<Seq<char>>);
                    return None;
                },
                Some(p) => {
                    current = p.clone();
                    proof {
                        k = (k - 1) as nat;
                    }
                },
            }
        }
    }

    /// Walks from `frame` towards its root, collecting frames until `stop` is met.
    fn walk_until(&self, frame: &FrameId, stop: &FrameId) -> (r: Vec<FrameId>)
        requires
            self.wf(),
            rooted(self@, frame@),
        ensures
            ids(r@) == prefix_before(root_path(self@, frame@), stop@),
    {
        let ghost m = self@;
        let ghost n0 = choose|n: nat| reaches_root_within(m, frame@, n);
        proof {
            lemma_root_path_is_chain(m, frame@, n0);
        }
        let mut path: Vec<FrameId> = Vec::new();
        let mut current = frame.clone();
        let ghost mut k: nat = n0;
        loop
            invariant
                self.wf(),
                m == self@,
                reaches_root_within(m, current@, k),
                ids(path@) + prefix_before(chain(m, current@, k + 1), stop@) == prefix_before(
                    root_path(m, frame@),
                    stop@,
                ),
            decreases k,
        {
            let ghost c = chain(m, current@, k + 1);
            assert(c[0] == current@);
            if current == *stop {
                assert(prefix_before(c, stop@) =~= Seq::<Seq<char>>::empty());
                assert(ids(path@) =~= prefix_before(root_path(m, frame@), stop@));
                return path;
            }
            let ghost before = ids(path@);
            path.push(current.clone());
            assert(ids(path@) =~= before.push(current@));
            assert(c.drop_first() =~= match parent_of(m, current@) {
                None => Seq::<Seq<char>>::empty(),
                Some(p) => chain(m, p, k),
            });
            assert(prefix_before(c, stop@) == seq![current@] + prefix_before(c.drop_first(), stop@));
            match self.parent(&current) {
                None => {
                    assert(ids(path@) =~= prefix_before(root_path(m, frame@), stop@));
                    return path;
                },
                Some(p) => {
                    current = p.clone();
                    proof {
                        k = (k - 1) as nat;
                    }
                    assert(ids(path@) + prefix_before(chain(m, current@, k + 1), stop@) =~= before
                        + prefix_before(c, stop@));
                },
            }
        }
    }

    /// Get the path between two frames.
    ///
    /// Returns (path_up, common_ancestor, path_down) where:
    /// - path_up: frames from source to common ancestor (exclusive of ancestor)
    /// - common_ancestor: the common ancestor frame
    /// - path_down: frames from common ancestor to target (exclusive of ancestor)
    pub fn path_between(&self, source: &FrameId, target: &FrameId) -> (r: Option<(Vec<FrameId>, FrameId, Vec<FrameId>)>)
        requires
            self.wf(),
            rooted(self@, source@),
            rooted(self@, target@),
        ensures
            match r {
                None => spec_common_ancestor(self@, source@, target@) is None,
                Some((up, anc, down)) => spec_common_ancestor(self@, source@, target@) == Some(anc@)
                    && ids(up@) == prefix_before(root_path(self@, source@), anc@)
                    && ids(down@) == prefix_before(root_path(self@, target@), anc@).reverse(),
            },
    {
        let ancestor = match self.common_ancestor(source, target) {
            Some(a) => a,
            None => {
                return None;
            },
        };
        // Path from source to ancestor
        let path_up = self.walk_until(source, &ancestor);
        // Path from target to ancestor, reversed
        let rev = self.walk_until(target, &ancestor);
        let mut path_down: Vec<FrameId> = Vec::new();
        let mut i: usize = rev.len();
        while i > 0
            invariant
                i <= rev@.len(),
                ids(path_down@) == ids(rev@).subrange(i as int, rev@.len() as int).reverse(),
            decreases i,
        {
            i = i - 1;
            let ghost before = ids(path_down@);
            let ghost sub = ids(rev@).subrange(i as int, rev@.len() as int);
            assert(before == ids(rev@).subrange(i as int + 1, rev@.len() as int).reverse());
            path_down.push(rev[i].clone());
            proof {
                assert(ids(rev@)[i as int] == rev@[i as int]@);
                assert forall|t: int| 0 <= t < sub.len() implies #[trigger] ids(path_down@)[t] == sub.reverse()[t] by {
                    if t < before.len() {
                        assert(ids(path_down@)[t] == before[t]);
                    }
                }
                assert(ids(path_down@) =~= sub.reverse());
            }
        }
        assert(ids(rev@).subrange(0, rev@.len() as int) =~= ids(rev@));
        Some((path_up, ancestor, path_down))
    }

    /// Get all frames in the tree.
    pub fn all_frames(&self) -> (r: Vec<FrameId>)
        requires
            self.wf(),
        ensures
            ids(r@).to_set() == self@.dom(),
            ids(r@).no_duplicates(),
            r@.len() == self@.dom().len(),
    {
        let mut out: Vec<FrameId> = Vec::new();
        let mut i: usize = 0;
        while i < self.nodes.len()
            invariant
                i <= self.nodes@.len(),
                ids(out@) == entry_keys(self.nodes@).take(i as int),
            decreases self.nodes@.len() - i,
        {
            let ghost before = ids(out@);
            let id = self.nodes[i].0.clone();
            assert(id@ == self.nodes@[i as int].0@);
            out.push(id);
            assert(ids(out@) =~= before.push(self.nodes@[i as int].0@));
            assert(entry_keys(self.nodes@)[i as int] == self.nodes@[i as int].0@);
            assert(ids(out@) =~= entry_keys(self.nodes@).take(i as int + 1));
            i = i + 1;
        }
        proof {
            let ks = entry_keys(self.nodes@);
            assert(ks.take(i as int) =~= ks);
            assert(self@.dom() =~= ks.to_set());
            ks.unique_seq_to_set();
        }
        out
    }

    /// Get all root frames (frames with no parent).
    pub fn root_frames(&self) -> (r: Vec<FrameId>)
        requires
            self.wf(),
        ensures
            ids(r@).to_set() == self@.dom().filter(|k: Seq<char>| self@[k].parent is None),
            ids(r@).no_duplicates(),
    {
        let ghost ks = entry_keys(self.nodes@);
        let mut out: Vec<FrameId> = Vec::new();
        let mut i: usize = 0;
        while i < self.nodes.len()
            invariant
                i <= self.nodes@.len(),
                self.wf(),
                ks == entry_keys(self.nodes@),
                ids(out@).no_duplicates(),
                forall|x: Seq<char>| #[trigger] ids(out@).contains(x) <==> (ks.take(i as int).contains(x)
                    && self@[x].parent is None),
            decreases self.nodes@.len() - i,
        {
            proof {
                lemma_entry_at(self.nodes@, i as int);
            }
            let ghost ki = ks[i as int];
            assert forall|x: Seq<char>| #[trigger] ks.take(i as int + 1).contains(x) <==> (ks.take(i as int).contains(x) || x == ki) by {
                let t0 = ks.take(i as int);
                let t1 = ks.take(i as int + 1);
                if t0.contains(x) {
                    let a = choose|a: int| 0 <= a < t0.len() && t0[a] == x;
                    assert(t1[a] == x);
                }
                if x == ki {
                    assert(t1[i as int] == x);
                }
                if t1.contains(x) {
                    let a = choose|a: int| 0 <= a < t1.len() && t1[a] == x;
                    if a < i {
                        assert(t0[a] == x);
                    }
                }
            }
            if self.nodes[i].1.is_root() {
                let ghost before = ids(out@);
                proof {
                    if before.contains(ki) {
                        let a = choose|a: int| 0 <= a < i && ks.take(i as int)[a] == ki;
                        assert(ks[a] == ks[i as int]);
                    }
                }
                out.push(self.nodes[i].0.clone());
                proof {
                    assert(ids(out@) =~= before.push(ki));
                    assert forall|a: int, b: int| 0 <= a < b < ids(out@).len() implies ids(out@)[a] != ids(out@)[b] by {
                        if b == before.len() {
                            assert(before.contains(before[a]));
                        }
                    }
                    assert forall|x: Seq<char>| #[trigger] ids(out@).contains(x) <==> before.contains(x) || x == ki by {
                        if ids(out@).contains(x) {
                            let a = choose|a: int| 0 <= a < ids(out@).len() && ids(out@)[a] == x;
                            if a < before.len() {
                                assert(before[a] == x);
                            }
                        }
                        if before.contains(x) {
                            let a = choose|a: int| 0 <= a < before.len() && before[a] == x;
                            assert(ids(out@)[a] == x);
                        }
                        if x == ki {
                            assert(ids(out@)[before.len() as int] == x);
                        }
                    }
                }
            }
            i = i + 1;
        }
        proof {
            assert(ks.take(i as int) =~= ks);
            assert(self@.dom() =~= ks.to_set());
            assert(ids(out@).to_set() =~= self@.dom().filter(|k: Seq<char>| self@[k].parent is None));
        }
        out
    }

    /// Check if there's a path from source to target.
    pub fn has_path(&self, source: &FrameId, target: &FrameId) -> (r: bool)
        requires
            self.wf(),
            rooted(self@, source@),
            rooted(self@, target@),
        ensures
            r == spec_common_ancestor(self@, source@, target@) is Some,
    {
        self.common_ancestor(source, target).is_some()
    }

    /// Get the depth of a frame (distance from root).
    pub fn depth(&self, frame: &FrameId) -> (r: usize)
        requires
            self.wf(),
            rooted(self@, frame@),
        ensures
            r == root_path(self@, frame@).len() - 1,
    {
        let path = self.path_to_root(frame);
        proof {
            let n = choose|n: nat| reaches_root_within(self@, frame@, n);
            assert(chain(self@, frame@, n + 1)[0] == frame@);
            assert(ids(path@).len() == path@.len());
        }
        path.len() - 1
    }

    /// All frame nodes with their identifiers, each frame once.
    pub fn iter(&self) -> (r: &[(FrameId, FrameNode)])
        requires
            self.wf(),
        ensures
            entries_model(r@) == self@,
            entry_keys(r@).no_duplicates(),
    {
        self.nodes.as_slice()
    }

    /// Clear all frames from the tree.
    pub fn clear(&mut self)
        ensures
            final(self).wf(),
            final(self)@ == Map::<Seq<char>, NodeModel>::empty(),
    {
        self.nodes = Vec::new();
        assert(entries_model(self.nodes@) =~= Map::<Seq<char>, NodeModel>::empty());
    }
}

/// Every tree built by the operations of this module keeps parent and child
/// links in agreement.
pub proof fn law_tree_links_agree(t: &FrameTree)
    requires
        t.wf(),
    ensures
        consistent(t@),
{
}

} // verus!
