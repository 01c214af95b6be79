//! Properties of frame trees that span several operations.

use vstd::prelude::*;
use crate::frame_tree::{
    chain, consistent, empty_node, first_in, lemma_remove_consistent, lemma_root_path_is_chain,
    lemma_set_parent_consistent, lemma_chain_stable, lemma_reaches_mono, parent_of, prefix_before, reaches_root_within, root_path, rooted,
    spec_common_ancestor, spec_remove, spec_set_parent, with_node, NodeModel,
};

verus! {

proof fn lemma_chain_shape(m: Map<Seq<char>, NodeModel>, f: Seq<char>, n: nat)
    requires
        reaches_root_within(m, f, n),
    ensures
        chain(m, f, n + 1).len() >= 1,
        chain(m, f, n + 1)[0] == f,
        forall|i: int|
            0 <= i < chain(m, f, n + 1).len() - 1 ==> parent_of(m, #[trigger] chain(m, f, n + 1)[i])
                == Some(chain(m, f, n + 1)[i + 1]),
        parent_of(m, chain(m, f, n + 1).last()) is None,
    decreases n,
{
    let c = chain(m, f, n + 1);
    match parent_of(m, f) {
        None => {
            assert(c =~= seq![f]);
        },
        Some(p) => {
            let n1 = (n - 1) as nat;
            lemma_chain_shape(m, p, n1);
            let rest = chain(m, p, n1 + 1);
            assert(c == seq![f] + rest);
            assert forall|i: int| 0 <= i < c.len() - 1 implies parent_of(m, #[trigger] c[i]) == Some(c[i + 1]) by {
                if i > 0 {
                    assert(c[i] == rest[i - 1]);
                    assert(c[i + 1] == rest[i]);
                }
            }
            assert(c.last() == rest.last());
        },
    }
}

/// Following parents from a frame that reaches a root gives a path that starts at
/// the frame, steps from each frame to its parent, and ends at a frame without a
/// parent.
pub proof fn law_root_path_shape(m: Map<Seq<char>, NodeModel>, f: Seq<char>)
    requires
        rooted(m, f),
    ensures
        root_path(m, f).len() >= 1,
        root_path(m, f)[0] == f,
        forall|i: int|
            0 <= i < root_path(m, f).len() - 1 ==> parent_of(m, #[trigger] root_path(m, f)[i])
                == Some(root_path(m, f)[i + 1]),
        parent_of(m, root_path(m, f).last()) is None,
{
    let n = choose|n: nat| reaches_root_within(m, f, n);
    lemma_chain_shape(m, f, n);
}

/// A frame's path to its root is the frame followed by its parent's path to the
/// root, so a frame lies one level deeper than its parent.
pub proof fn law_root_path_step(m: Map<Seq<char>, NodeModel>, f: Seq<char>, p: Seq<char>)
    requires
        rooted(m, f),
        parent_of(m, f) == Some(p),
    ensures
        rooted(m, p),
        root_path(m, f) == seq![f] + root_path(m, p),
        root_path(m, f).len() == root_path(m, p).len() + 1,
{
    let n = choose|n: nat| reaches_root_within(m, f, n);
    let n1 = (n - 1) as nat;
    assert(reaches_root_within(m, p, n1));
    let c = choose|c: nat| reaches_root_within(m, f, c);
    let cp = choose|c: nat| reaches_root_within(m, p, c);
    lemma_root_path_chain(m, f, n);
    lemma_root_path_chain(m, p, n1);
    assert(chain(m, f, n + 1) == seq![f] + chain(m, p, n1 + 1));
}

proof fn lemma_root_path_chain(m: Map<Seq<char>, NodeModel>, f: Seq<char>, n: nat)
    requires
        reaches_root_within(m, f, n),
    ensures
        root_path(m, f) == chain(m, f, n + 1),
{
    lemma_root_path_is_chain(m, f, n);
}

proof fn lemma_first_in_some(s: Seq<Seq<char>>, t: Seq<Seq<char>>)
    ensures
        first_in(s, t) is Some <==> exists|x: Seq<char>| s.contains(x) && t.contains(x),
        first_in(s, t) matches Some(x) ==> s.contains(x) && t.contains(x),
    decreases s.len(),
{
    if s.len() > 0 {
        lemma_first_in_some(s.drop_first(), t);
        if t.contains(s[0]) {
            assert(s.contains(s[0]));
        } else {
            if exists|x: Seq<char>| s.contains(x) && t.contains(x) {
                let x = choose|x: Seq<char>| s.contains(x) && t.contains(x);
                let i = choose|i: int| 0 <= i < s.len() && s[i] == x;
                assert(i > 0);
                assert(s.drop_first()[i - 1] == x);
            }
            if first_in(s, t) is Some {
                let x = first_in(s, t)->0;
                let i = choose|i: int| 0 <= i < s.drop_first().len() && s.drop_first()[i] == x;
                assert(s[i + 1] == x);
            }
        }
    }
}

/// Two frames have a common ancestor exactly when their paths to the root meet,
/// and the ancestor found lies on both paths.
pub proof fn law_common_ancestor_on_both_paths(m: Map<Seq<char>, NodeModel>, a: Seq<char>, b: Seq<char>)
    ensures
        spec_common_ancestor(m, a, b) is Some <==> exists|x: Seq<char>|
            root_path(m, a).contains(x) && root_path(m, b).contains(x),
        spec_common_ancestor(m, a, b) matches Some(x) ==> root_path(m, a).contains(x)
            && root_path(m, b).contains(x),
{
    lemma_first_in_some(root_path(m, b), root_path(m, a));
}

/// A path between two frames exists in one direction exactly when it exists in
/// the other.
pub proof fn law_has_path_symmetric(m: Map<Seq<char>, NodeModel>, a: Seq<char>, b: Seq<char>)
    ensures
        (spec_common_ancestor(m, a, b) is Some) == (spec_common_ancestor(m, b, a) is Some),
{
    law_common_ancestor_on_both_paths(m, a, b);
    law_common_ancestor_on_both_paths(m, b, a);
}

proof fn lemma_prefix_before_then_x(s: Seq<Seq<char>>, x: Seq<char>)
    requires
        s.contains(x),
    ensures
        prefix_before(s, x).len() < s.len(),
        prefix_before(s, x).push(x) == s.take(prefix_before(s, x).len() + 1int),
        !prefix_before(s, x).contains(x),
    decreases s.len(),
{
    if s[0] == x {
        assert(s.take(1) =~= seq![x]);
        assert(prefix_before(s, x).push(x) =~= seq![x]);
    } else {
        let i = choose|i: int| 0 <= i < s.len() && s[i] == x;
        assert(s.drop_first()[i - 1] == x);
        lemma_prefix_before_then_x(s.drop_first(), x);
        let p = prefix_before(s.drop_first(), x);
        assert(prefix_before(s, x) == seq![s[0]] + p);
        assert((seq![s[0]] + p).push(x) =~= s.take(p.len() + 2int));
        if (seq![s[0]] + p).contains(x) {
            let j = choose|j: int| 0 <= j < p.len() + 1 && (seq![s[0]] + p)[j] == x;
            assert(j > 0);
            assert(p[j - 1] == x);
        }
    }
}

/// The frames of a path between two frames, with their common ancestor, are the
/// start of each frame's path to the root: the frames going up from the source
/// followed by the ancestor begin the source's root path, and the frames going down
/// to the target, reversed and followed by the ancestor, begin the target's.
pub proof fn law_path_between_prefixes(m: Map<Seq<char>, NodeModel>, source: Seq<char>, target: Seq<char>, anc: Seq<char>)
    requires
        spec_common_ancestor(m, source, target) == Some(anc),
    ensures
        prefix_before(root_path(m, source), anc).push(anc) == root_path(m, source).take(
            prefix_before(root_path(m, source), anc).len() + 1int,
        ),
        prefix_before(root_path(m, target), anc).push(anc) == root_path(m, target).take(
            prefix_before(root_path(m, target), anc).len() + 1int,
        ),
        !prefix_before(root_path(m, source), anc).contains(anc),
        !prefix_before(root_path(m, target), anc).contains(anc),
        prefix_before(root_path(m, source), anc).len() < root_path(m, source).len(),
        prefix_before(root_path(m, target), anc).len() < root_path(m, target).len(),
{
    law_common_ancestor_on_both_paths(m, source, target);
    lemma_prefix_before_then_x(root_path(m, source), anc);
    lemma_prefix_before_then_x(root_path(m, target), anc);
}

/// After `set_parent(c, p)`, `c` has the parent `p`, `p` lists `c` as a child and
/// no other frame does, every other frame keeps its parent, and both frames are
/// present.
pub proof fn law_set_parent_links(m: Map<Seq<char>, NodeModel>, c: Seq<char>, p: Seq<char>)
    requires
        consistent(m),
    ensures
        spec_set_parent(m, c, p).dom() == m.dom().insert(p).insert(c),
        spec_set_parent(m, c, p)[c].parent == Some(p),
        spec_set_parent(m, c, p)[p].children.contains(c),
        forall|q: Seq<char>|
            spec_set_parent(m, c, p).dom().contains(q) && q != p ==> !(
            #[trigger] spec_set_parent(m, c, p)[q]).children.contains(c),
        forall|k: Seq<char>|
            m.dom().contains(k) && k != c ==> (#[trigger] spec_set_parent(m, c, p)[k]).parent
                == m[k].parent,
        consistent(spec_set_parent(m, c, p)),
{
    lemma_set_parent_consistent(m, c, p);
    let r = spec_set_parent(m, c, p);
    assert(r.dom() =~= m.dom().insert(p).insert(c));
    assert forall|q: Seq<char>| r.dom().contains(q) && q != p implies !(#[trigger] r[q]).children.contains(c) by {
        if r[q].children.contains(c) {
            assert(r[c].parent == Some(q));
        }
    }
}

/// Adding a root frame is idempotent, and a frame that was missing is added
/// without parent or children.
pub proof fn law_add_root(m: Map<Seq<char>, NodeModel>, f: Seq<char>)
    ensures
        with_node(with_node(m, f), f) == with_node(m, f),
        with_node(m, f).dom() == m.dom().insert(f),
        !m.dom().contains(f) ==> with_node(m, f)[f] == empty_node(),
        m.dom().contains(f) ==> with_node(m, f) == m,
{
    assert(with_node(m, f).dom() =~= m.dom().insert(f));
}

/// After `remove(f)`, `f` is gone, every other frame stays, the former children
/// of `f` are roots, and no frame lists `f` as a child.
pub proof fn law_remove_links(m: Map<Seq<char>, NodeModel>, f: Seq<char>)
    requires
        consistent(m),
        m.dom().contains(f),
    ensures
        spec_remove(m, f).dom() == m.dom().remove(f),
        forall|c: Seq<char>|
            #[trigger] m[f].children.contains(c) && c != f ==> spec_remove(m, f)[c].parent is None,
        forall|k: Seq<char>|
            spec_remove(m, f).dom().contains(k) ==> !(#[trigger] spec_remove(m, f)[k]).children.contains(f),
        consistent(spec_remove(m, f)),
{
    lemma_remove_consistent(m, f);
    let r = spec_remove(m, f);
    assert(r.dom() =~= m.dom().remove(f));
    assert forall|c: Seq<char>| #[trigger] m[f].children.contains(c) && c != f implies r[c].parent is None by {
        assert(m.dom().contains(c));
        assert(r.dom().contains(c));
    }
}

proof fn lemma_chain_index(m: Map<Seq<char>, NodeModel>, f: Seq<char>, n: nat, k: int)
    requires
        reaches_root_within(m, f, n),
        0 <= k < chain(m, f, n + 1).len(),
    ensures
        k <= n,
        reaches_root_within(m, chain(m, f, n + 1)[k], (n - k) as nat),
        chain(m, chain(m, f, n + 1)[k], (n - k) as nat + 1) == chain(m, f, n + 1).subrange(
            k,
            chain(m, f, n + 1).len() as int,
        ),
    decreases k,
{
    let c = chain(m, f, n + 1);
    if k == 0 {
        assert(c.subrange(0, c.len() as int) =~= c);
    } else {
        match parent_of(m, f) {
            None => {
                assert(c =~= seq![f]);
            },
            Some(p) => {
                let n1 = (n - 1) as nat;
                let rest = chain(m, p, n1 + 1);
                assert(c == seq![f] + rest);
                lemma_chain_index(m, p, n1, k - 1);
                assert(c[k] == rest[k - 1]);
                assert(rest.subrange(k - 1, rest.len() as int) =~= c.subrange(k, c.len() as int));
            },
        }
    }
}

proof fn lemma_chain_no_return(m: Map<Seq<char>, NodeModel>, x: Seq<char>, n: nat, d: int)
    requires
        reaches_root_within(m, x, n),
        1 <= d < chain(m, x, n + 1).len(),
    ensures
        chain(m, x, n + 1)[d] != x,
{
    let c = chain(m, x, n + 1);
    if c[d] == x {
        lemma_chain_index(m, x, n, d);
        let nd = (n - d) as nat;
        lemma_chain_stable(m, x, nd, n);
        assert(c == c.subrange(d, c.len() as int));
        assert(c.len() == c.len() - d);
    }
}

proof fn lemma_chain_no_duplicates(m: Map<Seq<char>, NodeModel>, f: Seq<char>, n: nat)
    requires
        reaches_root_within(m, f, n),
    ensures
        chain(m, f, n + 1).no_duplicates(),
{
    let c = chain(m, f, n + 1);
    assert forall|i: int, j: int| 0 <= i < j < c.len() implies c[i] != c[j] by {
        if c[i] == c[j] {
            lemma_chain_index(m, f, n, i);
            let x = c[i];
            let ni = (n - i) as nat;
            let c2 = chain(m, x, ni + 1);
            assert(c2 == c.subrange(i, c.len() as int));
            assert(c2[j - i] == x);
            lemma_chain_no_return(m, x, ni, j - i);
        }
    }
}

/// The path from a frame to its root visits no frame twice.
pub proof fn law_root_path_no_duplicates(m: Map<Seq<char>, NodeModel>, f: Seq<char>)
    requires
        rooted(m, f),
    ensures
        root_path(m, f).no_duplicates(),
{
    let n = choose|n: nat| reaches_root_within(m, f, n);
    lemma_root_path_is_chain(m, f, n);
    lemma_chain_no_duplicates(m, f, n);
}

/// Every frame on a root path is rooted, and its own root path is the rest of
/// that path from it.
pub proof fn law_root_path_suffix(m: Map<Seq<char>, NodeModel>, f: Seq<char>, k: int)
    requires
        rooted(m, f),
        0 <= k < root_path(m, f).len(),
    ensures
        rooted(m, root_path(m, f)[k]),
        root_path(m, root_path(m, f)[k]) == root_path(m, f).subrange(k, root_path(m, f).len() as int),
{
    let n = choose|n: nat| reaches_root_within(m, f, n);
    lemma_root_path_is_chain(m, f, n);
    lemma_chain_index(m, f, n, k);
    let x = root_path(m, f)[k];
    lemma_root_path_is_chain(m, x, (n - k) as nat);
}

proof fn lemma_first_in_index(s: Seq<Seq<char>>, t: Seq<Seq<char>>)
    requires
        first_in(s, t) is Some,
    ensures
        exists|i: int|
            0 <= i < s.len() && s[i] == first_in(s, t)->0 && t.contains(s[i]) && forall|j: int|
                0 <= j < i ==> !t.contains(#[trigger] s[j]),
    decreases s.len(),
{
    if t.contains(s[0]) {
        assert(s[0] == first_in(s, t)->0);
    } else {
        lemma_first_in_index(s.drop_first(), t);
        let d = s.drop_first();
        let i = choose|i: int|
            0 <= i < d.len() && d[i] == first_in(d, t)->0 && t.contains(d[i]) && forall|j: int|
                0 <= j < i ==> !t.contains(#[trigger] d[j]);
        assert(s[i + 1] == d[i]);
        assert forall|j: int| 0 <= j < i + 1 implies !t.contains(#[trigger] s[j]) by {
            if j > 0 {
                assert(s[j] == d[j - 1]);
            }
        }
    }
}

/// The common ancestor of two frames does not depend on their order: it is the
/// lowest frame shared by both paths to the root.
pub proof fn law_common_ancestor_symmetric(m: Map<Seq<char>, NodeModel>, a: Seq<char>, b: Seq<char>)
    requires
        rooted(m, a),
        rooted(m, b),
    ensures
        spec_common_ancestor(m, a, b) == spec_common_ancestor(m, b, a),
{
    let pa = root_path(m, a);
    let pb = root_path(m, b);
    law_has_path_symmetric(m, a, b);
    if spec_common_ancestor(m, a, b) is Some {
        // x: first frame of pb lying on pa; y: first frame of pa lying on pb.
        lemma_first_in_index(pb, pa);
        lemma_first_in_index(pa, pb);
        let x = first_in(pb, pa)->0;
        let y = first_in(pa, pb)->0;
        let i = choose|i: int|
            0 <= i < pb.len() && pb[i] == x && pa.contains(pb[i]) && forall|j: int|
                0 <= j < i ==> !pa.contains(#[trigger] pb[j]);
        let j = choose|j: int|
            0 <= j < pa.len() && pa[j] == y && pb.contains(pa[j]) && forall|k: int|
                0 <= k < j ==> !pb.contains(#[trigger] pa[k]);
        let ia = choose|ia: int| 0 <= ia < pa.len() && pa[ia] == x;
        let jb = choose|jb: int| 0 <= jb < pb.len() && pb[jb] == y;
        law_root_path_suffix(m, a, ia);
        law_root_path_suffix(m, b, i);
        law_root_path_no_duplicates(m, a);
        // pa[ia..] == root_path(x) == pb[i..]
        assert(pa.subrange(ia, pa.len() as int) == pb.subrange(i, pb.len() as int));
        if j < ia {
            assert(!pb.contains(pa[j])) by {
                if jb >= i {
                    let t = jb - i;
                    assert(pb.subrange(i, pb.len() as int)[t] == y);
                    assert(pa[ia + t] == y);
                    assert(pa[j] == pa[ia + t]);
                } else {
                    assert(pa.contains(pb[jb]));
                }
            }
            assert(false);
        }
        if j > ia {
            assert(pb.contains(pa[ia]));
            assert(false);
        }
    }
}

proof fn lemma_reaches_chain_len(m: Map<Seq<char>, NodeModel>, f: Seq<char>, n: nat)
    requires
        reaches_root_within(m, f, n),
    ensures
        chain(m, f, n + 1).len() >= 1,
        reaches_root_within(m, f, (chain(m, f, n + 1).len() - 1) as nat),
    decreases n,
{
    match parent_of(m, f) {
        None => {},
        Some(p) => {
            let n1 = (n - 1) as nat;
            lemma_reaches_chain_len(m, p, n1);
            assert(chain(m, f, n + 1) == seq![f] + chain(m, p, n1 + 1));
        },
    }
}

/// In a tree whose links agree, a frame that reaches a root does so within as
/// many steps as the tree has frames.
pub proof fn law_rooted_within_size(m: Map<Seq<char>, NodeModel>, f: Seq<char>)
    requires
        consistent(m),
        rooted(m, f),
    ensures
        reaches_root_within(m, f, m.dom().len()),
{
    let n = choose|n: nat| reaches_root_within(m, f, n);
    let c = chain(m, f, n + 1);
    lemma_reaches_chain_len(m, f, n);
    lemma_chain_shape(m, f, n);
    lemma_chain_no_duplicates(m, f, n);
    let l = (c.len() - 1) as nat;
    if m.dom().contains(f) {
        assert forall|x: Seq<char>| c.to_set().contains(x) implies m.dom().contains(x) by {
            let i = choose|i: int| 0 <= i < c.len() && c[i] == x;
            if i > 0 {
                assert(parent_of(m, c[i - 1]) == Some(c[i]));
                assert(m.dom().contains(c[i - 1]));
            }
        }
        c.unique_seq_to_set();
        vstd::set_lib::lemma_len_subset(c.to_set(), m.dom());
        lemma_reaches_mono(m, f, l, m.dom().len());
    } else {
        assert(reaches_root_within(m, f, 0));
        lemma_reaches_mono(m, f, 0, m.dom().len());
    }
}


/// After `set_parent(c, p)`, `c` has the parent `p` and every other frame keeps
/// its parent.
proof fn lemma_parent_after_set(m: Map<Seq<char>, NodeModel>, c: Seq<char>, p: Seq<char>, k: Seq<char>)
    requires
        consistent(m),
        c != p,
    ensures
        parent_of(spec_set_parent(m, c, p), k) == if k == c {
            Some(p)
        } else {
            parent_of(m, k)
        },
{
    law_set_parent_links(m, c, p);
    let r = spec_set_parent(m, c, p);
    if k != c && !m.dom().contains(k) {
        if k == p {
            let m1 = with_node(m, p);
            assert(m1[p].parent is None);
        } else {
            assert(!r.dom().contains(k));
        }
    }
}

/// A frame whose way up does not pass `c` keeps that way after `set_parent(c, p)`.
proof fn lemma_way_up_kept(m: Map<Seq<char>, NodeModel>, c: Seq<char>, p: Seq<char>, f: Seq<char>, n: nat)
    requires
        consistent(m),
        c != p,
        reaches_root_within(m, f, n),
        !chain(m, f, n + 1).contains(c),
    ensures
        reaches_root_within(spec_set_parent(m, c, p), f, n),
        chain(spec_set_parent(m, c, p), f, n + 1) == chain(m, f, n + 1),
    decreases n,
{
    let r = spec_set_parent(m, c, p);
    assert(chain(m, f, n + 1)[0] == f);
    lemma_parent_after_set(m, c, p, f);
    match parent_of(m, f) {
        None => {},
        Some(q) => {
            let n1 = (n - 1) as nat;
            assert(chain(m, f, n + 1) == seq![f] + chain(m, q, n1 + 1));
            let cq = chain(m, q, n1 + 1);
            assert forall|j: int| 0 <= j < cq.len() implies #[trigger] cq[j] != c by {
                assert(chain(m, f, n + 1)[j + 1] == cq[j]);
            }
            assert(!cq.contains(c));
            lemma_way_up_kept(m, c, p, q, n1);
        },
    }
}

/// A frame that reaches a root keeps doing so after `set_parent(c, p)`, when
/// `p` reaches a root within `kp` steps without passing `c`.
proof fn lemma_still_rooted(
    m: Map<Seq<char>, NodeModel>,
    c: Seq<char>,
    p: Seq<char>,
    kp: nat,
    f: Seq<char>,
    n: nat,
)
    requires
        consistent(m),
        c != p,
        reaches_root_within(m, p, kp),
        !chain(m, p, kp + 1).contains(c),
        reaches_root_within(m, f, n),
    ensures
        reaches_root_within(spec_set_parent(m, c, p), f, n + kp + 1),
    decreases n,
{
    let r = spec_set_parent(m, c, p);
    lemma_parent_after_set(m, c, p, f);
    lemma_way_up_kept(m, c, p, p, kp);
    if f == c {
        lemma_reaches_mono(r, p, kp, n + kp);
    } else {
        match parent_of(m, f) {
            None => {},
            Some(q) => {
                lemma_still_rooted(m, c, p, kp, q, (n - 1) as nat);
            },
        }
    }
}

/// Setting the parent of `c` to a frame `p` that reaches a root without
/// passing `c` keeps every frame that reached a root doing so; `p` keeps its
/// way up, and `c`'s way up becomes `c` followed by `p`'s, one level deeper.
pub proof fn law_set_parent_keeps_roots(
    m: Map<Seq<char>, NodeModel>,
    c: Seq<char>,
    p: Seq<char>,
    f: Seq<char>,
)
    requires
        consistent(m),
        c != p,
        rooted(m, p),
        !root_path(m, p).contains(c),
    ensures
        rooted(m, f) ==> rooted(spec_set_parent(m, c, p), f),
        rooted(spec_set_parent(m, c, p), p),
        root_path(spec_set_parent(m, c, p), p) == root_path(m, p),
        rooted(spec_set_parent(m, c, p), c),
        root_path(spec_set_parent(m, c, p), c) == seq![c] + root_path(m, p),
        root_path(spec_set_parent(m, c, p), c).len() == root_path(m, p).len() + 1,
{
    let r = spec_set_parent(m, c, p);
    let kp = choose|n: nat| reaches_root_within(m, p, n);
    lemma_root_path_is_chain(m, p, kp);
    lemma_way_up_kept(m, c, p, p, kp);
    lemma_root_path_is_chain(r, p, kp);
    if rooted(m, f) {
        let n = choose|n: nat| reaches_root_within(m, f, n);
        lemma_still_rooted(m, c, p, kp, f, n);
    }
    lemma_parent_after_set(m, c, p, c);
    assert(reaches_root_within(r, c, kp + 1));
    lemma_root_path_is_chain(r, c, kp + 1);
    assert(chain(r, c, kp + 2) == seq![c] + chain(r, p, kp + 1));
}

/// In a tree where every frame reaches a root, setting the parent of `c` to a
/// frame `p` whose way up does not pass `c` leaves every frame reaching a root.
pub proof fn law_set_parent_keeps_acyclic(m: Map<Seq<char>, NodeModel>, c: Seq<char>, p: Seq<char>)
    requires
        consistent(m),
        forall|g: Seq<char>| rooted(m, g),
        c != p,
        !root_path(m, p).contains(c),
    ensures
        forall|g: Seq<char>| rooted(spec_set_parent(m, c, p), g),
{
    assert forall|g: Seq<char>| rooted(spec_set_parent(m, c, p), g) by {
        law_set_parent_keeps_roots(m, c, p, g);
    }
}

/// The common ancestor of two frames is their lowest shared frame: every frame
/// that lies on both paths to the root lies on the ancestor's own path to the
/// root.
pub proof fn law_common_ancestor_lowest(m: Map<Seq<char>, NodeModel>, a: Seq<char>, b: Seq<char>, y: Seq<char>)
    requires
        rooted(m, a),
        rooted(m, b),
        spec_common_ancestor(m, a, b) is Some,
        root_path(m, a).contains(y),
        root_path(m, b).contains(y),
    ensures
        root_path(m, spec_common_ancestor(m, a, b)->0).contains(y),
{
    let pa = root_path(m, a);
    let pb = root_path(m, b);
    lemma_first_in_index(pb, pa);
    let x = first_in(pb, pa)->0;
    let i = choose|i: int|
        0 <= i < pb.len() && pb[i] == x && pa.contains(pb[i]) && forall|j: int|
            0 <= j < i ==> !pa.contains(#[trigger] pb[j]);
    law_root_path_suffix(m, b, i);
    let jb = choose|jb: int| 0 <= jb < pb.len() && pb[jb] == y;
    if jb < i {
        assert(pa.contains(pb[jb]));
        assert(false);
    }
    assert(pb.subrange(i, pb.len() as int)[jb - i] == y);
}

/// The path between a frame and itself goes through no other frame: the frame
/// is its own common ancestor, and no frame lies before it on its way up.
pub proof fn law_path_between_same_frame(m: Map<Seq<char>, NodeModel>, f: Seq<char>)
    requires
        rooted(m, f),
    ensures
        spec_common_ancestor(m, f, f) == Some(f),
        prefix_before(root_path(m, f), f) == Seq::<Seq<char>>::empty(),
{
    law_root_path_shape(m, f);
    let p = root_path(m, f);
    assert(p.contains(p[0]));
    assert(first_in(p, p) == Some(p[0]));
}

/// Two frames that reach a root have a path between them exactly when they reach
/// the same root.
pub proof fn law_has_path_same_root(m: Map<Seq<char>, NodeModel>, a: Seq<char>, b: Seq<char>)
    requires
        rooted(m, a),
        rooted(m, b),
    ensures
        (spec_common_ancestor(m, a, b) is Some) == (root_path(m, a).last() == root_path(m, b).last()),
{
    let pa = root_path(m, a);
    let pb = root_path(m, b);
    law_root_path_shape(m, a);
    law_root_path_shape(m, b);
    law_common_ancestor_on_both_paths(m, a, b);
    if pa.last() == pb.last() {
        assert(pa.contains(pa.last()));
        assert(pb.contains(pb.last()));
    }
    if spec_common_ancestor(m, a, b) is Some {
        let x = spec_common_ancestor(m, a, b)->0;
        let ia = choose|ia: int| 0 <= ia < pa.len() && pa[ia] == x;
        let ib = choose|ib: int| 0 <= ib < pb.len() && pb[ib] == x;
        law_root_path_suffix(m, a, ia);
        law_root_path_suffix(m, b, ib);
        let sa = pa.subrange(ia, pa.len() as int);
        let sb = pb.subrange(ib, pb.len() as int);
        assert(sa.last() == pa.last());
        assert(sb.last() == pb.last());
    }
}

} // verus!
