//! Building node definitions from a dataflow description.
//!
//! A dataflow description lists nodes; a node has an `id`, may have an
//! `operator` (with a `python` or `rust` path, an `inputs` mapping from input
//! name to source and an `outputs` list) and may have `inputs` of its own. A
//! source names an output as `<node id>/<output name>`. This module takes the
//! description as read from its document, with each value present where the
//! document holds a string there, and works out each node's inputs, its
//! outputs and the nodes that receive each output.

use vstd::prelude::*;
use crate::protocol::{NodeDefinition, NodeInputDef, NodeOutputDef, NodeDefModel, string_texts};
use crate::text::str_eq;

verus! {

/// An entry of an `inputs` mapping: its key and its value, each present when
/// it is a string.
#[derive(Debug)]
pub struct InputEntry {
    pub name: Option<String>,
    pub source: Option<String>,
}

/// What a node's `operator` section holds.
#[derive(Debug)]
pub struct OperatorSpec {
    /// The `python` path, when it is a string
    pub python: Option<String>,
    /// The `rust` path, when it is a string
    pub rust: Option<String>,
    /// The `inputs` mapping (empty when there is none)
    pub inputs: Vec<InputEntry>,
    /// The `outputs` list, each item present when it is a string (empty when
    /// there is none)
    pub outputs: Vec<Option<String>>,
}

/// What the description holds for one node.
#[derive(Debug)]
pub struct NodeSpec {
    /// The `id`, when it is a string
    pub id: Option<String>,
    /// The `operator` section, when there is one
    pub operator: Option<OperatorSpec>,
    /// The node's own `inputs` mapping (empty when there is none)
    pub inputs: Vec<InputEntry>,
}

pub open spec fn opt_text(o: Option<String>) -> Option<Seq<char>> {
    match o {
        Some(s) => Some(s@),
        None => None,
    }
}

/// The value of an input entry.
pub open spec fn entry_model(e: InputEntry) -> (Option<Seq<char>>, Option<Seq<char>>) {
    (opt_text(e.name), opt_text(e.source))
}

pub open spec fn entries_model(es: Seq<InputEntry>) -> Seq<(Option<Seq<char>>, Option<Seq<char>>)> {
    es.map_values(|e: InputEntry| entry_model(e))
}

/// The value of an operator section.
pub struct OperatorModel {
    pub python: Option<Seq<char>>,
    pub rust: Option<Seq<char>>,
    pub inputs: Seq<(Option<Seq<char>>, Option<Seq<char>>)>,
    pub outputs: Seq<Option<Seq<char>>>,
}

/// The value of a node's description.
pub struct NodeSpecModel {
    pub id: Option<Seq<char>>,
    pub operator: Option<OperatorModel>,
    pub inputs: Seq<(Option<Seq<char>>, Option<Seq<char>>)>,
}

pub open spec fn operator_model(o: OperatorSpec) -> OperatorModel {
    OperatorModel {
        python: opt_text(o.python),
        rust: opt_text(o.rust),
        inputs: entries_model(o.inputs@),
        outputs: o.outputs@.map_values(|x: Option<String>| opt_text(x)),
    }
}

pub open spec fn node_model(n: NodeSpec) -> NodeSpecModel {
    NodeSpecModel {
        id: opt_text(n.id),
        operator: match n.operator {
            Some(o) => Some(operator_model(o)),
            None => None,
        },
        inputs: entries_model(n.inputs@),
    }
}

pub open spec fn nodes_model(ns: Seq<NodeSpec>) -> Seq<NodeSpecModel> {
    ns.map_values(|n: NodeSpec| node_model(n))
}

/// The entries of `es` whose name and source are both strings, in order.
pub open spec fn named_inputs(es: Seq<(Option<Seq<char>>, Option<Seq<char>>)>) -> Seq<
    (Seq<char>, Seq<char>),
>
    decreases es.len(),
{
    if es.len() == 0 {
        Seq::empty()
    } else {
        let prev = named_inputs(es.drop_last());
        match es.last() {
            (Some(a), Some(b)) => prev.push((a, b)),
            _ => prev,
        }
    }
}

/// `id`, once for each entry of `es` whose source is `full`.
pub open spec fn matches_of(
    es: Seq<(Option<Seq<char>>, Option<Seq<char>>)>,
    full: Seq<char>,
    id: Seq<char>,
) -> Seq<Seq<char>>
    decreases es.len(),
{
    if es.len() == 0 {
        Seq::empty()
    } else {
        let prev = matches_of(es.drop_last(), full, id);
        if es.last().1 == Some(full) {
            prev.push(id)
        } else {
            prev
        }
    }
}

/// The nodes among the first `n` that take the output `full` as an input, a
/// node once per such input: through its operator's inputs, then through its
/// own.
pub open spec fn destinations(nodes: Seq<NodeSpecModel>, full: Seq<char>, n: nat) -> Seq<Seq<char>>
    decreases n,
{
    if n == 0 {
        Seq::empty()
    } else {
        let prev = destinations(nodes, full, (n - 1) as nat);
        let node = nodes[n - 1];
        match node.id {
            Some(id) => prev + match node.operator {
                Some(op) => matches_of(op.inputs, full, id),
                None => Seq::empty(),
            } + matches_of(node.inputs, full, id),
            None => prev,
        }
    }
}

/// The name of the output `name` of node `id`, as sources write it.
pub open spec fn output_address(id: Seq<char>, name: Seq<char>) -> Seq<char> {
    id + "/"@ + name
}

/// The outputs among `outs` that are strings, each with the nodes that
/// receive it.
pub open spec fn outputs_of(nodes: Seq<NodeSpecModel>, id: Seq<char>, outs: Seq<Option<Seq<char>>>) -> Seq<
    (Seq<char>, Seq<Seq<char>>),
>
    decreases outs.len(),
{
    if outs.len() == 0 {
        Seq::empty()
    } else {
        let prev = outputs_of(nodes, id, outs.drop_last());
        match outs.last() {
            Some(name) => prev.push(
                (name, destinations(nodes, output_address(id, name), nodes.len())),
            ),
            None => prev,
        }
    }
}

/// The definition of a node with identifier `id` and description `node`.
pub open spec fn definition_of(nodes: Seq<NodeSpecModel>, id: Seq<char>, node: NodeSpecModel) -> NodeDefModel {
    match node.operator {
        Some(op) => NodeDefModel {
            id,
            inputs: named_inputs(op.inputs) + named_inputs(node.inputs),
            outputs: outputs_of(nodes, id, op.outputs),
            operator: match op.python {
                Some(p) => Some(p),
                None => op.rust,
            },
        },
        None => NodeDefModel {
            id,
            inputs: named_inputs(node.inputs),
            outputs: Seq::empty(),
            operator: None,
        },
    }
}

/// The definitions of the first `n` nodes that have an identifier, in order.
pub open spec fn definitions(nodes: Seq<NodeSpecModel>, n: nat) -> Seq<NodeDefModel>
    decreases n,
{
    if n == 0 {
        Seq::empty()
    } else {
        let prev = definitions(nodes, (n - 1) as nat);
        match nodes[n - 1].id {
            Some(id) => prev.push(definition_of(nodes, id, nodes[n - 1])),
            None => prev,
        }
    }
}

fn copy_text(s: &Option<String>) -> (r: Option<String>)
    ensures
        opt_text(r) == opt_text(*s),
{
    match s {
        Some(x) => Some(x.clone()),
        None => None,
    }
}

/// Appends to `out` the entries of `es` whose name and source are both
/// strings.
fn push_named_inputs(out: &mut Vec<NodeInputDef>, es: &Vec<InputEntry>)
    ensures
        final(out)@.map_values(|i: NodeInputDef| i@) == old(out)@.map_values(|i: NodeInputDef| i@)
            + named_inputs(entries_model(es@)),
{
    let ghost base = out@.map_values(|i: NodeInputDef| i@);
    let ghost em = entries_model(es@);
    let mut k: usize = 0;
    while k < es.len()
        invariant
            k <= es@.len(),
            em == entries_model(es@),
            out@.map_values(|i: NodeInputDef| i@) == base + named_inputs(em.take(k as int)),
        decreases es@.len() - k,
    {
        assert(em.take(k as int + 1).drop_last() =~= em.take(k as int));
        assert(em.take(k as int + 1).last() == entry_model(es@[k as int]));
        let ghost before = out@;
        match (&es[k].name, &es[k].source) {
            (Some(a), Some(b)) => {
                out.push(NodeInputDef { name: a.clone(), source: b.clone() });
                assert(out@.map_values(|i: NodeInputDef| i@) =~= before.map_values(
                    |i: NodeInputDef| i@,
                ).push((a@, b@)));
            },
            _ => {},
        }
        k = k + 1;
    }
    assert(em.take(k as int) =~= em);
}

/// Appends `id` to `out` once for each entry of `es` whose source is `full`.
fn push_matches(out: &mut Vec<String>, es: &Vec<InputEntry>, full: &str, id: &str)
    ensures
        string_texts(final(out)@) == string_texts(old(out)@) + matches_of(
            entries_model(es@),
            full@,
            id@,
        ),
{
    let ghost base = string_texts(out@);
    let ghost em = entries_model(es@);
    let mut k: usize = 0;
    while k < es.len()
        invariant
            k <= es@.len(),
            em == entries_model(es@),
            string_texts(out@) == base + matches_of(em.take(k as int), full@, id@),
        decreases es@.len() - k,
    {
        assert(em.take(k as int + 1).drop_last() =~= em.take(k as int));
        assert(em.take(k as int + 1).last() == entry_model(es@[k as int]));
        let ghost before = out@;
        match &es[k].source {
            Some(src) => {
                if str_eq(src.as_str(), full) {
                    out.push(id.to_owned());
                    assert(string_texts(out@) =~= string_texts(before).push(id@));
                }
            },
            None => {},
        }
        k = k + 1;
    }
    assert(em.take(k as int) =~= em);
}

/// The nodes that take the output `full` as an input, a node once per such
/// input.
pub fn matching_destinations(nodes: &Vec<NodeSpec>, full: &str) -> (r: Vec<String>)
    ensures
        string_texts(r@) == destinations(nodes_model(nodes@), full@, nodes@.len() as nat),
{
    let ghost nm = nodes_model(nodes@);
    let mut out: Vec<String> = Vec::new();
    let mut j: usize = 0;
    assert(string_texts(out@) =~= Seq::<Seq<char>>::empty());
    while j < nodes.len()
        invariant
            j <= nodes@.len(),
            nm == nodes_model(nodes@),
            string_texts(out@) == destinations(nm, full@, j as nat),
        decreases nodes@.len() - j,
    {
        let node = &nodes[j];
        assert(nm[j as int] == node_model(*node));
        match &node.id {
            Some(other_id) => {
                let ghost before = string_texts(out@);
                match &node.operator {
                    Some(op) => {
                        push_matches(&mut out, &op.inputs, full, other_id.as_str());
                    },
                    None => {},
                }
                push_matches(&mut out, &node.inputs, full, other_id.as_str());
                assert(string_texts(out@) =~= destinations(nm, full@, (j + 1) as nat));
            },
            None => {},
        }
        j = j + 1;
    }
    out
}

/// The outputs among `outs` that are strings, each with the nodes that
/// receive it.
fn node_outputs(nodes: &Vec<NodeSpec>, id: &str, outs: &Vec<Option<String>>) -> (r: Vec<
    NodeOutputDef,
>)
    ensures
        r@.map_values(|o: NodeOutputDef| o@) == outputs_of(
            nodes_model(nodes@),
            id@,
            outs@.map_values(|x: Option<String>| opt_text(x)),
        ),
{
    let ghost om = outs@.map_values(|x: Option<String>| opt_text(x));
    let mut out: Vec<NodeOutputDef> = Vec::new();
    let mut k: usize = 0;
    assert(out@.map_values(|o: NodeOutputDef| o@) =~= Seq::<(Seq<char>, Seq<Seq<char>>)>::empty());
    while k < outs.len()
        invariant
            k <= outs@.len(),
            om == outs@.map_values(|x: Option<String>| opt_text(x)),
            out@.map_values(|o: NodeOutputDef| o@) == outputs_of(
                nodes_model(nodes@),
                id@,
                om.take(k as int),
            ),
        decreases outs@.len() - k,
    {
        assert(om.take(k as int + 1).drop_last() =~= om.take(k as int));
        assert(om.take(k as int + 1).last() == opt_text(outs@[k as int]));
        let ghost before = out@;
        match &outs[k] {
            Some(name) => {
                let mut full = id.to_owned();
                full.append("/");
                full.append(name.as_str());
                let destinations = matching_destinations(nodes, full.as_str());
                out.push(NodeOutputDef { name: name.clone(), destinations });
                assert(out@.map_values(|o: NodeOutputDef| o@) =~= before.map_values(
                    |o: NodeOutputDef| o@,
                ).push(outputs_of(nodes_model(nodes@), id@, om.take(k as int + 1)).last()));
            },
            None => {},
        }
        k = k + 1;
    }
    assert(om.take(k as int) =~= om);
    out
}

/// Builds the definition of every node that has an identifier, in order: its
/// inputs (those of its operator, then its own, where name and source are
/// strings), its outputs with the nodes that receive each, and its operator
/// path (`python`, else `rust`).
pub fn build_node_definitions(nodes: &Vec<NodeSpec>) -> (r: Vec<NodeDefinition>)
    ensures
        r@.map_values(|d: NodeDefinition| d@) == definitions(
            nodes_model(nodes@),
            nodes@.len() as nat,
        ),
{
    let ghost nm = nodes_model(nodes@);
    let mut defs: Vec<NodeDefinition> = Vec::new();
    let mut k: usize = 0;
    assert(defs@.map_values(|d: NodeDefinition| d@) =~= Seq::<NodeDefModel>::empty());
    while k < nodes.len()
        invariant
            k <= nodes@.len(),
            nm == nodes_model(nodes@),
            defs@.map_values(|d: NodeDefinition| d@) == definitions(nm, k as nat),
        decreases nodes@.len() - k,
    {
        let node = &nodes[k];
        assert(nm[k as int] == node_model(*node));
        let ghost before = defs@;
        match &node.id {
            Some(id) => {
                let mut inputs: Vec<NodeInputDef> = Vec::new();
                let mut outputs: Vec<NodeOutputDef> = Vec::new();
                let mut operator: Option<String> = None;
                assert(inputs@.map_values(|i: NodeInputDef| i@) =~= Seq::<
                    (Seq<char>, Seq<char>),
                >::empty());
                match &node.operator {
                    Some(op) => {
                        operator = match &op.python {
                            Some(p) => Some(p.clone()),
                            None => copy_text(&op.rust),
                        };
                        push_named_inputs(&mut inputs, &op.inputs);
                        outputs = node_outputs(nodes, id.as_str(), &op.outputs);
                    },
                    None => {},
                }
                push_named_inputs(&mut inputs, &node.inputs);
                let def = NodeDefinition { id: id.clone(), inputs, outputs, operator };
                assert(def@ == definition_of(nm, id@, nm[k as int])) by {
                    assert(def@.outputs =~= definition_of(nm, id@, nm[k as int]).outputs);
                    assert(def@.inputs =~= definition_of(nm, id@, nm[k as int]).inputs);
                }
                defs.push(def);
                assert(defs@.map_values(|d: NodeDefinition| d@) =~= before.map_values(
                    |d: NodeDefinition| d@,
                ).push(definition_of(nm, id@, nm[k as int])));
            },
            None => {},
        }
        k = k + 1;
    }
    defs
}


/// The entries `es` hold one whose source is `full`.
pub open spec fn has_source(es: Seq<(Option<Seq<char>>, Option<Seq<char>>)>, full: Seq<char>) -> bool {
    exists|i: int| 0 <= i < es.len() && es[i].1 == Some(full)
}

/// The node takes the output `full` as an input, through its operator or
/// through its own inputs.
pub open spec fn consumes(node: NodeSpecModel, full: Seq<char>) -> bool {
    ||| (node.operator matches Some(op) && has_source(op.inputs, full))
    ||| has_source(node.inputs, full)
}

proof fn lemma_matches_of(
    es: Seq<(Option<Seq<char>>, Option<Seq<char>>)>,
    full: Seq<char>,
    id: Seq<char>,
    y: Seq<char>,
)
    ensures
        matches_of(es, full, id).contains(y) <==> (y == id && has_source(es, full)),
    decreases es.len(),
{
    if es.len() > 0 {
        let init = es.drop_last();
        lemma_matches_of(init, full, id, y);
        let prev = matches_of(init, full, id);
        if has_source(init, full) {
            let i = choose|i: int| 0 <= i < init.len() && init[i].1 == Some(full);
            assert(es[i] == init[i]);
        }
        if has_source(es, full) && !has_source(init, full) {
            let i = choose|i: int| 0 <= i < es.len() && es[i].1 == Some(full);
            if i < init.len() {
                assert(init[i] == es[i]);
            }
            assert(es.last().1 == Some(full));
        }
        if es.last().1 == Some(full) {
            assert(es[es.len() - 1].1 == Some(full));
            assert(prev.push(id)[prev.len() as int] == id);
            if prev.contains(y) {
                let j = choose|j: int| 0 <= j < prev.len() && prev[j] == y;
                assert(prev.push(id)[j] == y);
            }
            if prev.push(id).contains(y) {
                let j = choose|j: int| 0 <= j < prev.len() + 1 && prev.push(id)[j] == y;
                if j < prev.len() {
                    assert(prev[j] == y);
                }
            }
        } else {
            if has_source(es, full) {
                let i = choose|i: int| 0 <= i < es.len() && es[i].1 == Some(full);
                assert(i < init.len());
                assert(init[i] == es[i]);
            }
        }
    }
}

proof fn lemma_destinations(nodes: Seq<NodeSpecModel>, full: Seq<char>, x: Seq<char>, n: nat)
    requires
        n <= nodes.len(),
    ensures
        destinations(nodes, full, n).contains(x) <==> exists|j: int|
            0 <= j < n && nodes[j].id == Some(x) && consumes(nodes[j], full),
    decreases n,
{
    if n > 0 {
        lemma_destinations(nodes, full, x, (n - 1) as nat);
        let prev = destinations(nodes, full, (n - 1) as nat);
        let node = nodes[n - 1];
        match node.id {
            Some(id) => {
                let a = match node.operator {
                    Some(op) => matches_of(op.inputs, full, id),
                    None => Seq::empty(),
                };
                let b = matches_of(node.inputs, full, id);
                let all = prev + a + b;
                assert(destinations(nodes, full, n) == all);
                match node.operator {
                    Some(op) => {
                        lemma_matches_of(op.inputs, full, id, x);
                    },
                    None => {},
                }
                lemma_matches_of(node.inputs, full, id, x);
                assert(all.contains(x) <==> (prev.contains(x) || a.contains(x) || b.contains(x))) by {
                    if all.contains(x) {
                        let j = choose|j: int| 0 <= j < all.len() && all[j] == x;
                        if j < prev.len() {
                            assert(prev[j] == x);
                        } else if j < prev.len() + a.len() {
                            assert(a[j - prev.len()] == x);
                        } else {
                            assert(b[j - prev.len() - a.len()] == x);
                        }
                    }
                    if prev.contains(x) {
                        let j = choose|j: int| 0 <= j < prev.len() && prev[j] == x;
                        assert(all[j] == x);
                    }
                    if a.contains(x) {
                        let j = choose|j: int| 0 <= j < a.len() && a[j] == x;
                        assert(all[prev.len() + j] == x);
                    }
                    if b.contains(x) {
                        let j = choose|j: int| 0 <= j < b.len() && b[j] == x;
                        assert(all[prev.len() + a.len() + j] == x);
                    }
                }
            },
            None => {},
        }
        if exists|j: int| 0 <= j < n && nodes[j].id == Some(x) && consumes(nodes[j], full) {
            let j = choose|j: int| 0 <= j < n && nodes[j].id == Some(x) && consumes(nodes[j], full);
            if j < n - 1 {
                assert(exists|j2: int| 0 <= j2 < n - 1 && nodes[j2].id == Some(x) && consumes(
                    nodes[j2],
                    full,
                ));
            }
        }
    }
}

/// A node is listed as receiving an output exactly when it has an input whose
/// source is that output, through its operator or its own inputs.
pub proof fn law_destinations_are_consumers(
    nodes: Seq<NodeSpecModel>,
    full: Seq<char>,
    x: Seq<char>,
)
    ensures
        destinations(nodes, full, nodes.len()).contains(x) <==> exists|j: int|
            0 <= j < nodes.len() && nodes[j].id == Some(x) && consumes(nodes[j], full),
{
    lemma_destinations(nodes, full, x, nodes.len());
}

} // verus!
