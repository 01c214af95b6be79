//! Reading the node descriptions out of a dataflow document.
//!
//! The document is YAML. `serde_yaml` reads it into a tree of nodes, which
//! the library holds as a `YamlValue`; the walk from that tree to the node
//! descriptions of `crate::dataflow` is verified here: the `nodes` list, and
//! for each node its `id`, its `operator` section and its `inputs` mapping.
//! As in `serde_yaml`'s own accessors, a tagged node is read through its tag,
//! and a key is found only where it is written as a plain string.

use vstd::prelude::*;
use crate::dataflow::{
    InputEntry, NodeSpec, OperatorSpec, NodeSpecModel, OperatorModel, opt_text, entries_model, entry_model,
    node_model, nodes_model, build_node_definitions, definitions,
};
use crate::protocol::NodeDefinition;
use crate::text::str_eq;

verus! {

/// A node of a YAML document. A number is kept only as such: the library
/// never reads its value. A tagged node keeps the node it tags.
#[derive(Debug)]
pub enum YamlValue {
    Null,
    Bool(bool),
    Number,
    String(String),
    Sequence(Vec<YamlValue>),
    Mapping(Vec<(YamlValue, YamlValue)>),
    Tagged(Box<YamlValue>),
}

/// A node as `serde_yaml` reads it, carried through unread.
#[verifier::external_type_specification]
#[verifier::external_body]
pub struct ExYamlNode(serde_yaml::Value);

/// The tree that `serde_yaml` reads from `text`, where `text` is a YAML
/// document.
pub uninterp spec fn yaml_document(text: Seq<char>) -> Option<YamlValue>;

/// `serde_yaml::from_str` into a `serde_yaml::Value`, converted node by node
/// into the library's form: `Some` of the tree where the text is a YAML
/// document, `None` where the parser reports an error. What the tree holds is
/// named by `yaml_document` and not stated here.
#[verifier::external_body]
fn parse_yaml(content: &str) -> (r: Option<YamlValue>)
    ensures
        r == yaml_document(content@),
{
    serde_yaml::from_str::<serde_yaml::Value>(content).ok().map(|v| yaml_value(&v))
}

/// The conversion of `parse_yaml`: one arm per kind of node, the children
/// converted in their order.
#[verifier::external_body]
fn yaml_value(v: &serde_yaml::Value) -> (r: YamlValue) {
    match v {
        serde_yaml::Value::Null => YamlValue::Null,
        serde_yaml::Value::Bool(b) => YamlValue::Bool(*b),
        serde_yaml::Value::Number(_) => YamlValue::Number,
        serde_yaml::Value::String(s) => YamlValue::String(s.clone()),
        serde_yaml::Value::Sequence(items) => YamlValue::Sequence(items.iter().map(yaml_value).collect()),
        serde_yaml::Value::Mapping(m) => YamlValue::Mapping(m.iter().map(|(k, x)| (yaml_value(k), yaml_value(x))).collect()),
        serde_yaml::Value::Tagged(t) => YamlValue::Tagged(Box::new(yaml_value(&t.value))),
    }
}

/// The node that `v` tags, through any number of tags.
pub open spec fn untagged(v: YamlValue) -> YamlValue
    decreases v,
{
    match v {
        YamlValue::Tagged(inner) => untagged(*inner),
        _ => v,
    }
}

/// The value of the first entry of `es` whose key is the string `key`.
pub open spec fn entry_value(es: Seq<(YamlValue, YamlValue)>, key: Seq<char>) -> Option<YamlValue>
    decreases es.len(),
{
    if es.len() == 0 {
        None
    } else if es[0].0 matches YamlValue::String(s) && s@ == key {
        Some(es[0].1)
    } else {
        entry_value(es.drop_first(), key)
    }
}

pub open spec fn deref_opt(o: Option<&YamlValue>) -> Option<YamlValue> {
    match o {
        Some(x) => Some(*x),
        None => None,
    }
}

/// The value under `key` of the mapping that `v` is, if it is one.
pub open spec fn yaml_get(v: Option<YamlValue>, key: Seq<char>) -> Option<YamlValue> {
    match v {
        Some(x) => match untagged(x) {
            YamlValue::Mapping(es) => entry_value(es@, key),
            _ => None,
        },
        None => None,
    }
}

/// The text of `v`, where it is a string.
pub open spec fn yaml_text(v: Option<YamlValue>) -> Option<Seq<char>> {
    match v {
        Some(x) => match untagged(x) {
            YamlValue::String(s) => Some(s@),
            _ => None,
        },
        None => None,
    }
}

/// The entries of the mapping that `v` is, each key and value taken as text
/// where it is a string; none where `v` is no mapping.
pub open spec fn yaml_entries(v: Option<YamlValue>) -> Seq<(Option<Seq<char>>, Option<Seq<char>>)> {
    match v {
        Some(x) => match untagged(x) {
            YamlValue::Mapping(es) => es@.map_values(
                |e: (YamlValue, YamlValue)| (yaml_text(Some(e.0)), yaml_text(Some(e.1))),
            ),
            _ => Seq::empty(),
        },
        None => Seq::empty(),
    }
}

/// The items of the sequence that `v` is; none where `v` is no sequence.
pub open spec fn yaml_items(v: Option<YamlValue>) -> Seq<YamlValue> {
    match v {
        Some(x) => match untagged(x) {
            YamlValue::Sequence(items) => items@,
            _ => Seq::empty(),
        },
        None => Seq::empty(),
    }
}

/// What an `operator` section `op` describes.
pub open spec fn operator_of(op: YamlValue) -> OperatorModel {
    OperatorModel {
        python: yaml_text(yaml_get(Some(op), "python"@)),
        rust: yaml_text(yaml_get(Some(op), "rust"@)),
        inputs: yaml_entries(yaml_get(Some(op), "inputs"@)),
        outputs: yaml_items(yaml_get(Some(op), "outputs"@)).map_values(
            |o: YamlValue| yaml_text(Some(o)),
        ),
    }
}

/// What the document node `node` describes.
pub open spec fn node_of(node: YamlValue) -> NodeSpecModel {
    NodeSpecModel {
        id: yaml_text(yaml_get(Some(node), "id"@)),
        operator: match yaml_get(Some(node), "operator"@) {
            Some(op) => Some(operator_of(op)),
            None => None,
        },
        inputs: yaml_entries(yaml_get(Some(node), "inputs"@)),
    }
}

/// The node descriptions of a document: one for each item of its `nodes`
/// list, in order.
pub open spec fn document_nodes(doc: YamlValue) -> Seq<NodeSpecModel> {
    yaml_items(yaml_get(Some(doc), "nodes"@)).map_values(|n: YamlValue| node_of(n))
}

fn untag_ref(v: &YamlValue) -> (r: &YamlValue)
    ensures
        *r == untagged(*v),
    decreases v,
{
    match v {
        YamlValue::Tagged(inner) => untag_ref(inner),
        _ => v,
    }
}

fn entry_lookup<'a>(es: &'a Vec<(YamlValue, YamlValue)>, key: &str) -> (r: Option<&'a YamlValue>)
    ensures
        deref_opt(r) == entry_value(es@, key@),
{
    let mut i: usize = 0;
    assert(es@.subrange(0, es@.len() as int) =~= es@);
    while i < es.len()
        invariant
            i <= es@.len(),
            entry_value(es@, key@) == entry_value(es@.subrange(i as int, es@.len() as int), key@),
        decreases es@.len() - i,
    {
        let ghost rest = es@.subrange(i as int, es@.len() as int);
        assert(rest[0] == es@[i as int]);
        assert(rest.drop_first() =~= es@.subrange(i + 1, es@.len() as int));
        match &es[i].0 {
            YamlValue::String(s) => {
                if str_eq(s.as_str(), key) {
                    return Some(&es[i].1);
                }
            },
            _ => {},
        }
        i = i + 1;
    }
    assert(es@.subrange(i as int, es@.len() as int).len() == 0);
    None
}

fn get_key<'a>(v: Option<&'a YamlValue>, key: &str) -> (r: Option<&'a YamlValue>)
    ensures
        deref_opt(r) == yaml_get(deref_opt(v), key@),
{
    match v {
        Some(x) => match untag_ref(x) {
            YamlValue::Mapping(es) => entry_lookup(es, key),
            _ => None,
        },
        None => None,
    }
}

fn text_of(v: Option<&YamlValue>) -> (r: Option<String>)
    ensures
        opt_text(r) == yaml_text(deref_opt(v)),
{
    match v {
        Some(x) => match untag_ref(x) {
            YamlValue::String(s) => Some(s.clone()),
            _ => None,
        },
        None => None,
    }
}

fn entries_of(v: Option<&YamlValue>) -> (r: Vec<InputEntry>)
    ensures
        entries_model(r@) == yaml_entries(deref_opt(v)),
{
    let mut out: Vec<InputEntry> = Vec::new();
    match v {
        Some(x) => match untag_ref(x) {
            YamlValue::Mapping(es) => {
                let mut i: usize = 0;
                while i < es.len()
                    invariant
                        i <= es@.len(),
                        entries_model(out@) == es@.subrange(0, i as int).map_values(
                            |e: (YamlValue, YamlValue)| (yaml_text(Some(e.0)), yaml_text(Some(e.1))),
                        ),
                    decreases es@.len() - i,
                {
                    let name = text_of(Some(&es[i].0));
                    let source = text_of(Some(&es[i].1));
                    let ghost before = out@;
                    out.push(InputEntry { name, source });
                    assert(entries_model(out@) =~= es@.subrange(0, i + 1).map_values(
                            |e: (YamlValue, YamlValue)| (yaml_text(Some(e.0)), yaml_text(Some(e.1))),
                        )) by {
                        assert(out@ =~= before.push(InputEntry { name, source }));
                        assert(opt_text(name) == yaml_text(Some(es@[i as int].0)));
                        assert(opt_text(source) == yaml_text(Some(es@[i as int].1)));
                        assert(entries_model(out@) =~= entries_model(before).push(
                            entry_model(InputEntry { name, source }),
                        ));
                        assert(es@.subrange(0, i + 1) =~= es@.subrange(0, i as int).push(es@[i as int]));
                        assert(es@.subrange(0, i + 1).map_values(
                            |e: (YamlValue, YamlValue)| (yaml_text(Some(e.0)), yaml_text(Some(e.1))),
                        ) =~= es@.subrange(
                            0,
                            i as int,
                        ).map_values(
                            |e: (YamlValue, YamlValue)| (yaml_text(Some(e.0)), yaml_text(Some(e.1))),
                        ).push(entry_model(InputEntry { name, source })));
                    }
                    i = i + 1;
                }
                assert(es@.subrange(0, es@.len() as int) =~= es@);
            },
            _ => {},
        },
        None => {},
    }
    assert(entries_model(out@) =~= yaml_entries(deref_opt(v)));
    out
}

fn texts_of(v: Option<&YamlValue>) -> (r: Vec<Option<String>>)
    ensures
        r@.map_values(|x: Option<String>| opt_text(x)) == yaml_items(deref_opt(v)).map_values(
            |o: YamlValue| yaml_text(Some(o)),
        ),
{
    let mut out: Vec<Option<String>> = Vec::new();
    let ghost items = yaml_items(deref_opt(v));
    match v {
        Some(x) => match untag_ref(x) {
            YamlValue::Sequence(list) => {
                let mut i: usize = 0;
                while i < list.len()
                    invariant
                        i <= list@.len(),
                        items == list@,
                        out@.map_values(|x: Option<String>| opt_text(x)) == list@.subrange(
                            0,
                            i as int,
                        ).map_values(|o: YamlValue| yaml_text(Some(o))),
                    decreases list@.len() - i,
                {
                    let t = text_of(Some(&list[i]));
                    let ghost before = out@;
                    out.push(t);
                    assert(out@ =~= before.push(t));
                    assert(list@.subrange(0, i + 1) =~= list@.subrange(0, i as int).push(list@[i as int]));
                    assert(out@.map_values(|x: Option<String>| opt_text(x)) =~= before.map_values(
                        |x: Option<String>| opt_text(x),
                    ).push(opt_text(t)));
                    assert(list@.subrange(0, i + 1).map_values(|o: YamlValue| yaml_text(Some(o)))
                        =~= list@.subrange(0, i as int).map_values(|o: YamlValue| yaml_text(Some(o))).push(
                        yaml_text(Some(list@[i as int])),
                    ));
                    assert(out@.map_values(|x: Option<String>| opt_text(x)) =~= list@.subrange(
                        0,
                        i + 1,
                    ).map_values(|o: YamlValue| yaml_text(Some(o))));
                    i = i + 1;
                }
                assert(list@.subrange(0, list@.len() as int) =~= list@);
            },
            _ => {},
        },
        None => {},
    }
    assert(out@.map_values(|x: Option<String>| opt_text(x)) =~= items.map_values(
        |o: YamlValue| yaml_text(Some(o)),
    ));
    out
}

fn node_spec_of(node: &YamlValue) -> (r: NodeSpec)
    ensures
        node_model(r) == node_of(*node),
{
    let id = text_of(get_key(Some(node), "id"));
    let operator = match get_key(Some(node), "operator") {
        Some(op) => {
            let o = OperatorSpec {
                python: text_of(get_key(Some(op), "python")),
                rust: text_of(get_key(Some(op), "rust")),
                inputs: entries_of(get_key(Some(op), "inputs")),
                outputs: texts_of(get_key(Some(op), "outputs")),
            };
            Some(o)
        },
        None => None,
    };
    let inputs = entries_of(get_key(Some(node), "inputs"));
    let r = NodeSpec { id, operator, inputs };
    r
}

/// The node descriptions of the document `doc`: one for each item of its
/// `nodes` list, in order (none where it has no such list).
pub fn document_node_specs(doc: &YamlValue) -> (r: Vec<NodeSpec>)
    ensures
        nodes_model(r@) == document_nodes(*doc),
{
    let mut out: Vec<NodeSpec> = Vec::new();
    let ghost items = yaml_items(yaml_get(Some(*doc), "nodes"@));
    match get_key(Some(doc), "nodes") {
        Some(list_node) => match untag_ref(list_node) {
            YamlValue::Sequence(list) => {
                let mut i: usize = 0;
                while i < list.len()
                    invariant
                        i <= list@.len(),
                        items == list@,
                        nodes_model(out@) == list@.subrange(0, i as int).map_values(
                            |n: YamlValue| node_of(n),
                        ),
                    decreases list@.len() - i,
                {
                    let n = node_spec_of(&list[i]);
                    let ghost before = out@;
                    let ghost m = node_model(n);
                    out.push(n);
                    assert(out@ =~= before.push(n));
                    assert(list@.subrange(0, i + 1) =~= list@.subrange(0, i as int).push(list@[i as int]));
                    assert(nodes_model(out@) =~= nodes_model(before).push(m));
                    assert(list@.subrange(0, i + 1).map_values(|n: YamlValue| node_of(n)) =~= list@.subrange(
                        0,
                        i as int,
                    ).map_values(|n: YamlValue| node_of(n)).push(node_of(list@[i as int])));
                    assert(nodes_model(out@) =~= list@.subrange(0, i + 1).map_values(
                        |n: YamlValue| node_of(n),
                    ));
                    i = i + 1;
                }
                assert(list@.subrange(0, list@.len() as int) =~= list@);
            },
            _ => {},
        },
        None => {},
    }
    assert(nodes_model(out@) =~= document_nodes(*doc));
    out
}

/// The node descriptions of a dataflow document: `None` where `content` is
/// no YAML document, else one description for each item of its `nodes` list.
pub fn dataflow_nodes(content: &str) -> (r: Option<Vec<NodeSpec>>)
    ensures
        r is Some <==> yaml_document(content@) is Some,
        r is Some ==> nodes_model(r->0@) == document_nodes(yaml_document(content@)->0),
{
    match parse_yaml(content) {
        Some(doc) => Some(document_node_specs(&doc)),
        None => None,
    }
}

/// The node definitions that a dataflow document describes: `None` where
/// `content` is no YAML document, else those that `build_node_definitions`
/// makes of its node descriptions.
pub fn dataflow_definitions(content: &str) -> (r: Option<Vec<NodeDefinition>>)
    ensures
        r is Some <==> yaml_document(content@) is Some,
        r is Some ==> r->0@.map_values(|d: NodeDefinition| d@) == definitions(
            document_nodes(yaml_document(content@)->0),
            document_nodes(yaml_document(content@)->0).len(),
        ),
{
    match dataflow_nodes(content) {
        Some(nodes) => {
            let defs = build_node_definitions(&nodes);
            proof {
                assert(nodes_model(nodes@).len() == nodes@.len());
            }
            Some(defs)
        },
        None => None,
    }
}

} // verus!
