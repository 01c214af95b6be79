//! Properties of transform histories and of the transform buffer that span
//! several operations.

use vstd::prelude::*;
use crate::frame::Timestamp;
use crate::frame_laws::{
    law_path_between_prefixes, law_root_path_shape, law_root_path_step, law_root_path_no_duplicates, law_set_parent_links,
};
use crate::frame_tree::{
    consistent, first_in, parent_of, prefix_before, root_path, rooted, spec_common_ancestor,
    spec_set_parent, NodeModel,
};
use crate::transform_buffer::{
    lookup_edges, lookup_outcome, plan_steps, edge_sample, sample_of, LookupOutcome, LookupStep,
    Sample,
};

verus! {

/// A history gives back, at a time, the transform last stored at that time.
pub proof fn law_history_read_after_write<T>(m: Map<i64, T>, t: Timestamp, tf: T)
    ensures
        sample_of(m.insert(t.0, tf), t.0) == Some(Sample::At(tf)),
{
}

/// The histories after storing `tf` for (`p`, `c`) at time `t`.
pub open spec fn stored<T>(
    h: Map<(Seq<char>, Seq<char>), Map<i64, T>>,
    p: Seq<char>,
    c: Seq<char>,
    t: i64,
    tf: T,
) -> Map<(Seq<char>, Seq<char>), Map<i64, T>> {
    h.insert(
        (p, c),
        (if h.dom().contains((p, c)) {
            h[(p, c)]
        } else {
            Map::<i64, T>::empty()
        }).insert(t, tf),
    )
}

/// After storing the transform `tf` from parent `p` to child `c` at time `t`,
/// the lookup between the two frames at `t` uses that transform alone:
/// inverted from `c` to `p`, as it is from `p` to `c`. This holds whenever
/// `c` then reaches a root (setting the parent made no cycle).
pub proof fn law_lookup_after_set<T>(
    m: Map<Seq<char>, NodeModel>,
    h: Map<(Seq<char>, Seq<char>), Map<i64, T>>,
    p: Seq<char>,
    c: Seq<char>,
    t: i64,
    tf: T,
)
    requires
        consistent(m),
        p != c,
        rooted(spec_set_parent(m, c, p), c),
    ensures
        lookup_outcome(spec_set_parent(m, c, p), stored(h, p, c, t, tf), p, c, t)
            == LookupOutcome::Steps(seq![LookupStep { sample: Sample::At(tf), invert: true }]),
        lookup_outcome(spec_set_parent(m, c, p), stored(h, p, c, t, tf), c, p, t)
            == LookupOutcome::Steps(seq![LookupStep { sample: Sample::At(tf), invert: false }]),
{
    let m2 = spec_set_parent(m, c, p);
    let h2 = stored(h, p, c, t, tf);
    law_set_parent_links(m, c, p);
    assert(parent_of(m2, c) == Some(p));
    law_root_path_step(m2, c, p);
    law_root_path_shape(m2, p);
    law_root_path_no_duplicates(m2, c);
    let rc = root_path(m2, c);
    let rp = root_path(m2, p);
    assert(rc[0] == c);
    assert(rc[1] == p);
    assert(rc.drop_first() =~= rp);
    assert(h2.dom().contains((p, c)));
    assert(h2[(p, c)].dom().contains(t));
    assert(sample_of(h2[(p, c)], t) == Some(Sample::At(tf)));
    // From `c` to `p`: the ancestor is `p`; one edge up from `c`.
    assert(rc.contains(p));
    assert(first_in(rp, rc) == Some(p));
    assert(spec_common_ancestor(m2, c, p) == Some(p));
    assert(prefix_before(rp, p) =~= Seq::<Seq<char>>::empty());
    assert(prefix_before(rc, p) =~= seq![c]) by {
        assert(prefix_before(rc.drop_first(), p) =~= Seq::<Seq<char>>::empty());
    }
    let es = lookup_edges(m2, c, p, p);
    assert(es =~= seq![(p, c, true)]);
    assert(edge_sample(h2, es[0], t) == Some(Sample::At(tf)));
    assert(plan_steps(h2, es, t, 0) == Ok::<Seq<LookupStep<T>>, Seq<char>>(Seq::empty()));
    assert(plan_steps(h2, es, t, 1) == Ok::<Seq<LookupStep<T>>, Seq<char>>(
        seq![LookupStep { sample: Sample::At(tf), invert: true }],
    )) by {
        assert(Seq::<LookupStep<T>>::empty().push(LookupStep { sample: Sample::At(tf), invert: true })
            =~= seq![LookupStep { sample: Sample::At(tf), invert: true }]);
    }
    // From `p` to `c`: `c` is not on the path of `p`, so the ancestor is `p`;
    // one edge down to `c`.
    assert(!rp.contains(c)) by {
        if rp.contains(c) {
            let j = choose|j: int| 0 <= j < rp.len() && rp[j] == c;
            assert(rc[j + 1] == c);
            assert(rc[0] == c);
        }
    }
    assert(rp.contains(p));
    assert(first_in(rc, rp) == first_in(rc.drop_first(), rp));
    assert(first_in(rc.drop_first(), rp) == Some(p));
    assert(spec_common_ancestor(m2, p, c) == Some(p));
    let es2 = lookup_edges(m2, p, c, p);
    assert(prefix_before(rc, p).reverse() =~= seq![c]) by {
        assert(prefix_before(rc.drop_first(), p) =~= Seq::<Seq<char>>::empty());
        assert(prefix_before(rc, p) =~= seq![c]);
    }
    assert(es2 =~= seq![(p, c, false)]);
    assert(edge_sample(h2, es2[0], t) == Some(Sample::At(tf)));
    assert(plan_steps(h2, es2, t, 0) == Ok::<Seq<LookupStep<T>>, Seq<char>>(Seq::empty()));
    assert(plan_steps(h2, es2, t, 1) == Ok::<Seq<LookupStep<T>>, Seq<char>>(
        seq![LookupStep { sample: Sample::At(tf), invert: false }],
    )) by {
        assert(Seq::<LookupStep<T>>::empty().push(LookupStep { sample: Sample::At(tf), invert: false })
            =~= seq![LookupStep { sample: Sample::At(tf), invert: false }]);
    }
}

/// Looking a frame up against itself needs no transform.
pub proof fn law_lookup_same_frame<T>(
    m: Map<Seq<char>, NodeModel>,
    h: Map<(Seq<char>, Seq<char>), Map<i64, T>>,
    f: Seq<char>,
    t: i64,
)
    ensures
        lookup_outcome(m, h, f, f, t) == LookupOutcome::<T>::Steps(Seq::empty()),
{
}

/// The frame a lookup step starts from: the child for a step taken upward
/// (inverted), the parent for one taken downward.
pub open spec fn step_from(e: (Seq<char>, Seq<char>, bool)) -> Seq<char> {
    if e.2 {
        e.1
    } else {
        e.0
    }
}

/// The frame a lookup step arrives at.
pub open spec fn step_to(e: (Seq<char>, Seq<char>, bool)) -> Seq<char> {
    if e.2 {
        e.0
    } else {
        e.1
    }
}

/// The edges `es`, each (parent, child, upward), make a walk through the tree
/// from `source` to `target`: each is an edge of the tree, every upward step
/// comes before every downward one, each step starts where the one before it
/// arrived, the first starts at `source` and the last arrives at `target`.
pub open spec fn tree_walk(
    tree: Map<Seq<char>, NodeModel>,
    es: Seq<(Seq<char>, Seq<char>, bool)>,
    source: Seq<char>,
    target: Seq<char>,
) -> bool {
    &&& forall|i: int| 0 <= i < es.len() ==> parent_of(tree, (#[trigger] es[i]).1) == Some(es[i].0)
    &&& forall|i: int, j: int| #![trigger es[i], es[j]] 0 <= i < j < es.len() && es[j].2 ==> es[i].2
    &&& forall|i: int| 0 <= i < es.len() - 1 ==> step_to(#[trigger] es[i]) == step_from(es[i + 1])
    &&& es.len() == 0 ==> source == target
    &&& es.len() > 0 ==> step_from(es[0]) == source && step_to(es[es.len() - 1]) == target
}

/// The edges a lookup combines go from the source up to the common ancestor and
/// down to the target, in the order in which they are walked.
pub proof fn law_lookup_edges_walk(
    tree: Map<Seq<char>, NodeModel>,
    source: Seq<char>,
    target: Seq<char>,
    anc: Seq<char>,
)
    requires
        rooted(tree, source),
        rooted(tree, target),
        spec_common_ancestor(tree, source, target) == Some(anc),
    ensures
        tree_walk(tree, lookup_edges(tree, source, target, anc), source, target),
{
    let rps = root_path(tree, source);
    let rpt = root_path(tree, target);
    let up = prefix_before(rps, anc);
    let dt = prefix_before(rpt, anc);
    let down = dt.reverse();
    let u = up.len() as int;
    let d = dt.len() as int;
    let es = lookup_edges(tree, source, target, anc);
    law_path_between_prefixes(tree, source, target, anc);
    law_root_path_shape(tree, source);
    law_root_path_shape(tree, target);
    assert forall|k: int| 0 <= k <= u implies rps[k] == (if k < u { up[k] } else { anc }) by {
        assert(up.push(anc)[k] == rps.take(u + 1)[k]);
    }
    assert forall|k: int| 0 <= k <= d implies rpt[k] == (if k < d { dt[k] } else { anc }) by {
        assert(dt.push(anc)[k] == rpt.take(d + 1)[k]);
    }
    assert(es.len() == u + d);
    assert forall|i: int| 0 <= i < es.len() implies parent_of(tree, (#[trigger] es[i]).1) == Some(es[i].0) by {
        if i < u {
            assert(es[i] == (if i + 1 < u { up[i + 1] } else { anc }, up[i], true));
            assert(parent_of(tree, rps[i]) == Some(rps[i + 1]));
        } else {
            let k = i - u;
            assert(es[i] == (if k == 0 { anc } else { down[k - 1] }, down[k], false));
            assert(down[k] == dt[d - 1 - k]);
            assert(parent_of(tree, rpt[d - 1 - k]) == Some(rpt[d - k]));
            if k > 0 {
                assert(down[k - 1] == dt[d - k]);
            }
        }
    }
    assert forall|i: int, j: int| #![trigger es[i], es[j]] 0 <= i < j < es.len() && es[j].2 implies es[i].2 by {
        if j >= u {
            assert(es[j].2 == false);
        }
    }
    assert forall|i: int| 0 <= i < es.len() - 1 implies step_to(#[trigger] es[i]) == step_from(es[i + 1]) by {
        if i + 1 < u {
            assert(es[i] == (up[i + 1], up[i], true));
            assert(es[i + 1] == (if i + 2 < u { up[i + 2] } else { anc }, up[i + 1], true));
        } else if i + 1 == u {
            assert(es[i] == (anc, up[i], true));
            assert(es[i + 1] == (anc, down[0], false));
        } else {
            let k = i - u;
            assert(es[i] == (if k == 0 { anc } else { down[k - 1] }, down[k], false));
            assert(es[i + 1] == (down[k], down[k + 1], false));
        }
    }
    if es.len() == 0 {
        assert(rps[0] == anc);
        assert(rpt[0] == anc);
    } else {
        if u > 0 {
            assert(es[0] == (if 1 < u { up[1] } else { anc }, up[0], true));
            assert(rps[0] == up[0]);
        } else {
            assert(rps[0] == anc);
            assert(es[0] == (anc, down[0], false));
        }
        if d > 0 {
            assert(es[es.len() - 1] == (if d - 1 == 0 { anc } else { down[d - 2] }, down[d - 1], false));
            assert(down[d - 1] == dt[0]);
            assert(rpt[0] == dt[0]);
        } else {
            assert(rpt[0] == anc);
            assert(es[es.len() - 1] == (anc, up[u - 1], true));
        }
    }
}

/// Planning the steps for edges `es` takes, in order, the sample of each edge
/// at `t`, inverted exactly for the upward edges; it fails at the first edge
/// without a sample, naming that edge's child frame.
pub proof fn law_plan_steps_follow_edges<T>(
    h: Map<(Seq<char>, Seq<char>), Map<i64, T>>,
    es: Seq<(Seq<char>, Seq<char>, bool)>,
    t: i64,
    n: nat,
)
    requires
        n <= es.len(),
    ensures
        plan_steps(h, es, t, n) matches Ok(steps) ==> {
            &&& steps.len() == n
            &&& forall|i: int| 0 <= i < n ==> edge_sample(h, #[trigger] es[i], t) == Some(steps[i].sample)
                && steps[i].invert == es[i].2
        },
        plan_steps(h, es, t, n) matches Err(c) ==> exists|i: int|
            0 <= i < n && edge_sample(h, #[trigger] es[i], t) is None && c == es[i].1 && forall|j: int|
                0 <= j < i ==> edge_sample(h, #[trigger] es[j], t) is Some,
    decreases n,
{
    if n > 0 {
        law_plan_steps_follow_edges(h, es, t, (n - 1) as nat);
        match plan_steps(h, es, t, (n - 1) as nat) {
            Err(c) => {},
            Ok(prev) => {
                let e = es[n - 1];
                match edge_sample(h, e, t) {
                    Some(smp) => {
                        let steps = prev.push(LookupStep { sample: smp, invert: e.2 });
                        assert forall|i: int| 0 <= i < n implies edge_sample(h, #[trigger] es[i], t) == Some(steps[i].sample)
                            && steps[i].invert == es[i].2 by {
                            if i < n - 1 {
                                assert(steps[i] == prev[i]);
                            }
                        }
                    },
                    None => {
                        assert(edge_sample(h, es[n - 1], t) is None);
                        assert forall|j: int| 0 <= j < n - 1 implies edge_sample(h, #[trigger] es[j], t) is Some by {
                            assert(edge_sample(h, es[j], t) == Some(prev[j].sample));
                        }
                    },
                }
            },
        }
    }
}

/// A lookup between two different frames that succeeds combines, in order, the
/// samples at `t` of the edges of the walk through the tree from the source up
/// to the common ancestor and down to the target, each inverted exactly when
/// it is walked upward.
pub proof fn law_lookup_steps_walk<T>(
    tree: Map<Seq<char>, NodeModel>,
    h: Map<(Seq<char>, Seq<char>), Map<i64, T>>,
    target: Seq<char>,
    source: Seq<char>,
    t: i64,
)
    requires
        rooted(tree, source),
        rooted(tree, target),
        target != source,
        lookup_outcome(tree, h, target, source, t) is Steps,
    ensures
        spec_common_ancestor(tree, source, target) is Some,
        ({
            let es = lookup_edges(tree, source, target, spec_common_ancestor(tree, source, target)->0);
            let steps = lookup_outcome(tree, h, target, source, t)->Steps_0;
            &&& tree_walk(tree, es, source, target)
            &&& steps.len() == es.len()
            &&& forall|i: int| 0 <= i < es.len() ==> edge_sample(h, #[trigger] es[i], t) == Some(steps[i].sample)
                && steps[i].invert == es[i].2
        }),
{
    let anc = spec_common_ancestor(tree, source, target)->0;
    let es = lookup_edges(tree, source, target, anc);
    law_lookup_edges_walk(tree, source, target, anc);
    law_plan_steps_follow_edges(h, es, t, es.len());
}

} // verus!
