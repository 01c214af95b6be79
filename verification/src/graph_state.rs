//! The dataflow graph that the bridge reports: the nodes and edges that the
//! node definitions name, which input comes from which node, and when each
//! node was last active.

use vstd::prelude::*;
use crate::assoc::{assoc_find, assoc_map, assoc_put, assoc_wf, set_add};
use crate::protocol::{NodeDefModel, NodeDefinition, NodeInputDef};
use crate::text::{lemma_split_prefix_len, split_chars, split_on, split_prefix, str_eq, texts};

verus! {

/// The node whose inputs are mapped to their sources: the bridge itself.
pub open spec fn bridge_node() -> Seq<char> {
    "mviz_bridge"@
}

/// The value of a graph: its nodes, its edges (source node, source port,
/// target node, target port), and the source of each input of the bridge.
pub struct GraphModel {
    pub nodes: Set<Seq<char>>,
    pub edges: Set<(Seq<char>, Seq<char>, Seq<char>, Seq<char>)>,
    pub sources: Map<Seq<char>, (Seq<char>, Seq<char>)>,
}

/// The graph after reading an input `(name, source)` of `node`: a source
/// with a slash names a node and its output port, before and after the first
/// slash, and gives an edge (and, for the bridge, the input's source); any
/// other source names a node.
pub open spec fn with_input(g: GraphModel, node: Seq<char>, input: (Seq<char>, Seq<char>)) -> GraphModel {
    let name = input.0;
    let source = input.1;
    if source.contains('/') {
        let src = split_on(source, '/')[0];
        let port = split_on(source, '/')[1];
        GraphModel {
            nodes: g.nodes.insert(src),
            edges: g.edges.insert((src, port, node, name)),
            sources: if node == bridge_node() {
                g.sources.insert(name, (src, port))
            } else {
                g.sources
            },
        }
    } else {
        GraphModel { nodes: g.nodes.insert(source), ..g }
    }
}

/// The graph after reading the first `n` inputs of `node`.
pub open spec fn with_inputs(
    g: GraphModel,
    node: Seq<char>,
    inputs: Seq<(Seq<char>, Seq<char>)>,
    n: nat,
) -> GraphModel
    decreases n,
{
    if n == 0 {
        g
    } else {
        with_input(with_inputs(g, node, inputs, (n - 1) as nat), node, inputs[n - 1])
    }
}

/// The graph after reading a node definition: the node, then its inputs.
pub open spec fn with_definition(g: GraphModel, d: NodeDefModel) -> GraphModel {
    with_inputs(GraphModel { nodes: g.nodes.insert(d.id), ..g }, d.id, d.inputs, d.inputs.len())
}

/// The graph after reading the first `n` definitions.
pub open spec fn with_definitions(g: GraphModel, ds: Seq<NodeDefModel>, n: nat) -> GraphModel
    decreases n,
{
    if n == 0 {
        g
    } else {
        with_definition(with_definitions(g, ds, (n - 1) as nat), ds[n - 1])
    }
}

/// The activity after an input `input_id` arrives at `time`: the bridge is
/// active, and so is the input's source node, known from the definitions or
/// else read before the first slash of the input's id.
pub open spec fn with_activity(
    activity: Map<Seq<char>, u64>,
    sources: Map<Seq<char>, (Seq<char>, Seq<char>)>,
    input_id: Seq<char>,
    time: u64,
) -> Map<Seq<char>, u64> {
    let a = activity.insert(bridge_node(), time);
    if sources.dom().contains(input_id) {
        a.insert(sources[input_id].0, time)
    } else if input_id.contains('/') {
        a.insert(split_on(input_id, '/')[0], time)
    } else {
        a
    }
}

/// A text with the separator in it splits into at least two pieces.
pub(crate) proof fn lemma_split_two(s: Seq<char>, sep: char, n: nat)
    requires
        n <= s.len(),
        s.take(n as int).contains(sep),
    ensures
        split_prefix(s, sep, n).len() >= 2,
    decreases n,
{
    lemma_split_prefix_len(s, sep, (n - 1) as nat);
    if s[n - 1] != sep {
        let j = choose|j: int| 0 <= j < n && s.take(n as int)[j] == sep;
        assert(s.take(n as int - 1)[j] == sep);
        lemma_split_two(s, sep, (n - 1) as nat);
    }
}

/// Whether `s` holds the character `c`.
pub(crate) fn has_char(s: &str, c: char) -> (r: bool)
    ensures
        r == s@.contains(c),
{
    let n = s.unicode_len();
    let mut i: usize = 0;
    while i < n
        invariant
            n == s@.len(),
            i <= n,
            forall|j: int| 0 <= j < i ==> s@[j] != c,
        decreases n - i,
    {
        if s.get_char(i) == c {
            assert(s@[i as int] == c);
            return true;
        }
        i = i + 1;
    }
    false
}

/// The value of an edge.
pub open spec fn edge_view(e: (String, String, String, String)) -> (
    Seq<char>,
    Seq<char>,
    Seq<char>,
    Seq<char>,
) {
    (e.0@, e.1@, e.2@, e.3@)
}

/// The value of a source.
pub open spec fn pair_view(p: (String, String)) -> (Seq<char>, Seq<char>) {
    (p.0@, p.1@)
}

/// The dataflow graph and the activity of its nodes.
#[derive(Debug)]
pub struct GraphState {
    nodes: Vec<String>,
    edges: Vec<(String, String, String, String)>,
    /// Last activity time per node (a double-precision number of seconds, as its bits)
    node_activity: Vec<(String, u64)>,
    input_source_map: Vec<(String, (String, String))>,
}

impl GraphState {
    /// The graph.
    pub closed spec fn spec_graph(&self) -> GraphModel {
        GraphModel {
            nodes: texts(self.nodes@).to_set(),
            edges: self.edges@.map_values(|e: (String, String, String, String)| edge_view(e)).to_set(),
            sources: assoc_map(self.input_source_map@).map_values(
                |p: (String, String)| pair_view(p),
            ),
        }
    }

    /// When each node was last active.
    pub closed spec fn spec_activity(&self) -> Map<Seq<char>, u64> {
        assoc_map(self.node_activity@)
    }

    /// No node or edge is listed twice, and no key twice.
    pub closed spec fn wf(&self) -> bool {
        &&& texts(self.nodes@).no_duplicates()
        &&& self.edges@.map_values(|e: (String, String, String, String)| edge_view(e)).no_duplicates()
        &&& assoc_wf(self.node_activity@)
        &&& assoc_wf(self.input_source_map@)
    }

    /// An empty graph with no activity.
    pub fn new() -> (r: GraphState)
        ensures
            r.wf(),
            r.spec_graph().nodes == Set::<Seq<char>>::empty(),
            r.spec_graph().edges == Set::<(Seq<char>, Seq<char>, Seq<char>, Seq<char>)>::empty(),
            r.spec_graph().sources == Map::<Seq<char>, (Seq<char>, Seq<char>)>::empty(),
            r.spec_activity() == Map::<Seq<char>, u64>::empty(),
    {
        let r = GraphState {
            nodes: Vec::new(),
            edges: Vec::new(),
            node_activity: Vec::new(),
            input_source_map: Vec::new(),
        };
        assert(texts(r.nodes@).to_set() =~= Set::<Seq<char>>::empty());
        assert(r.edges@.map_values(|e: (String, String, String, String)| edge_view(e)).to_set()
            =~= Set::<(Seq<char>, Seq<char>, Seq<char>, Seq<char>)>::empty());
        assert(assoc_map(r.input_source_map@).map_values(|p: (String, String)| pair_view(p))
            =~= Map::<Seq<char>, (Seq<char>, Seq<char>)>::empty());
        r
    }

    /// Add an edge unless it is there.
    fn add_edge(&mut self, from_node: &str, from_port: &str, to_node: &str, to_port: &str)
        requires
            old(self).wf(),
        ensures
            final(self).wf(),
            final(self).spec_graph() == (GraphModel {
                edges: old(self).spec_graph().edges.insert(
                    (from_node@, from_port@, to_node@, to_port@),
                ),
                ..old(self).spec_graph()
            }),
            final(self).spec_activity() == old(self).spec_activity(),
    {
        let ghost e = (from_node@, from_port@, to_node@, to_port@);
        let ghost s0 = self.edges@.map_values(|x: (String, String, String, String)| edge_view(x));
        let mut i: usize = 0;
        while i < self.edges.len()
            invariant
                i <= self.edges@.len(),
                s0 == self.edges@.map_values(|x: (String, String, String, String)| edge_view(x)),
                e == (from_node@, from_port@, to_node@, to_port@),
                self.wf(),
                forall|j: int| 0 <= j < i ==> s0[j] != e,
            decreases self.edges@.len() - i,
        {
            assert(s0[i as int] == edge_view(self.edges@[i as int]));
            let a = str_eq(self.edges[i].0.as_str(), from_node);
            let b = str_eq(self.edges[i].1.as_str(), from_port);
            let c = str_eq(self.edges[i].2.as_str(), to_node);
            let d = str_eq(self.edges[i].3.as_str(), to_port);
            let same = a && b && c && d;
            assert(same == (s0[i as int] == e));
            if same {
                proof {
                    assert(s0[i as int] == e);
                    assert(s0.to_set() =~= s0.to_set().insert(e));
                }
                return;
            }
            i = i + 1;
        }
        self.edges.push((from_node.to_owned(), from_port.to_owned(), to_node.to_owned(), to_port.to_owned()));
        proof {
            let s1 = self.edges@.map_values(|x: (String, String, String, String)| edge_view(x));
            assert(s1 =~= s0.push(e));
            assert forall|y| s1.contains(y) <==> (s0.contains(y) || y == e) by {
                if s1.contains(y) {
                    let j = choose|j: int| 0 <= j < s1.len() && s1[j] == y;
                    if j < s0.len() {
                        assert(s0[j] == y);
                    }
                }
                if s0.contains(y) {
                    let j = choose|j: int| 0 <= j < s0.len() && s0[j] == y;
                    assert(s1[j] == y);
                }
                if y == e {
                    assert(s1[s0.len() as int] == y);
                }
            }
            assert(s1.to_set() =~= s0.to_set().insert(e));
        }
    }

    /// Read an input of `node`.
    fn add_input(&mut self, node: &str, input: &NodeInputDef)
        requires
            old(self).wf(),
        ensures
            final(self).wf(),
            final(self).spec_graph() == with_input(old(self).spec_graph(), node@, input@),
            final(self).spec_activity() == old(self).spec_activity(),
    {
        let source = input.source.as_str();
        if has_char(source, '/') {
            let parts = split_chars(source, '/');
            proof {
                assert(source@.take(source@.len() as int) =~= source@);
                lemma_split_two(source@, '/', source@.len());
            }
            let src = parts[0].as_str();
            let port = parts[1].as_str();
            proof {
                assert(texts(parts@)[0] == src@);
                assert(texts(parts@)[1] == port@);
            }
            let ghost g0 = self.spec_graph();
            set_add(&mut self.nodes, src);
            self.add_edge(src, port, node, input.name.as_str());
            if str_eq(node, "mviz_bridge") {
                let ghost m0 = assoc_map(self.input_source_map@);
                assoc_put(
                    &mut self.input_source_map,
                    input.name.as_str(),
                    (src.to_owned(), port.to_owned()),
                );
                proof {
                    assert(assoc_map(self.input_source_map@).map_values(
                        |p: (String, String)| pair_view(p),
                    ) =~= m0.map_values(|p: (String, String)| pair_view(p)).insert(
                        input.name@,
                        (src@, port@),
                    ));
                }
            }
        } else {
            set_add(&mut self.nodes, source);
        }
    }

    /// Read the node definitions: every node, every source node, and every
    /// edge they name, and the sources of the bridge's inputs.
    pub fn init_from_definitions(&mut self, definitions: &[NodeDefinition])
        requires
            old(self).wf(),
        ensures
            final(self).wf(),
            final(self).spec_graph() == with_definitions(
                old(self).spec_graph(),
                definitions@.map_values(|d: NodeDefinition| d@),
                definitions@.len(),
            ),
            final(self).spec_activity() == old(self).spec_activity(),
    {
        let ghost ds = definitions@.map_values(|d: NodeDefinition| d@);
        let mut i: usize = 0;
        while i < definitions.len()
            invariant
                i <= definitions@.len(),
                ds == definitions@.map_values(|d: NodeDefinition| d@),
                self.wf(),
                self.spec_graph() == with_definitions(old(self).spec_graph(), ds, i as nat),
                self.spec_activity() == old(self).spec_activity(),
            decreases definitions@.len() - i,
        {
            let def = &definitions[i];
            let ghost d = def@;
            let ghost g0 = self.spec_graph();
            set_add(&mut self.nodes, def.id.as_str());
            let ghost g1 = GraphModel { nodes: g0.nodes.insert(d.id), ..g0 };
            assert(self.spec_graph() == g1);
            let mut j: usize = 0;
            while j < def.inputs.len()
                invariant
                    j <= def.inputs@.len(),
                    d == def@,
                    self.wf(),
                    self.spec_graph() == with_inputs(g1, d.id, d.inputs, j as nat),
                    self.spec_activity() == old(self).spec_activity(),
                decreases def.inputs@.len() - j,
            {
                self.add_input(def.id.as_str(), &def.inputs[j]);
                assert(d.inputs[j as int] == def.inputs@[j as int]@);
                j = j + 1;
            }
            assert(ds[i as int] == d);
            i = i + 1;
        }
    }

    /// Note that input `input_id` arrived at `time` (a double-precision
    /// number of seconds, as its bits).
    pub fn record_input(&mut self, input_id: &str, time: u64)
        requires
            old(self).wf(),
        ensures
            final(self).wf(),
            final(self).spec_activity() == with_activity(
                old(self).spec_activity(),
                old(self).spec_graph().sources,
                input_id@,
                time,
            ),
            final(self).spec_graph() == old(self).spec_graph(),
    {
        assoc_put(&mut self.node_activity, "mviz_bridge", time);
        match assoc_find(&self.input_source_map, input_id) {
            Some(k) => {
                let src = self.input_source_map[k].1.0.as_str().to_owned();
                assoc_put(&mut self.node_activity, src.as_str(), time);
            },
            None => {
                if has_char(input_id, '/') {
                    let parts = split_chars(input_id, '/');
                    proof {
                        assert(input_id@.take(input_id@.len() as int) =~= input_id@);
                        lemma_split_two(input_id@, '/', input_id@.len());
                        assert(texts(parts@)[0] == parts@[0]@);
                    }
                    assoc_put(&mut self.node_activity, parts[0].as_str(), time);
                }
            },
        }
    }

    /// The nodes, each once.
    pub fn nodes(&self) -> (r: &[String])
        ensures
            texts(r@).to_set() == self.spec_graph().nodes,
    {
        self.nodes.as_slice()
    }

    /// The edges (source node, source port, target node, target port), each once.
    pub fn edges(&self) -> (r: &[(String, String, String, String)])
        ensures
            r@.map_values(|e: (String, String, String, String)| edge_view(e)).to_set()
                == self.spec_graph().edges,
    {
        self.edges.as_slice()
    }

    /// When `node` was last active, as the bits of a double-precision number
    /// of seconds; zero (the bits of 0.0) if it never was.
    pub fn last_seen(&self, node: &str) -> (r: u64)
        requires
            self.wf(),
        ensures
            r == if self.spec_activity().dom().contains(node@) {
                self.spec_activity()[node@]
            } else {
                0
            },
    {
        match assoc_find(&self.node_activity, node) {
            Some(k) => self.node_activity[k].1,
            None => 0,
        }
    }
}


/// Every edge joins two nodes of the graph.
pub open spec fn edges_join_nodes(g: GraphModel) -> bool {
    forall|e: (Seq<char>, Seq<char>, Seq<char>, Seq<char>)|
        #[trigger] g.edges.contains(e) ==> g.nodes.contains(e.0) && g.nodes.contains(e.2)
}

/// Reading inputs of a node of the graph keeps every edge between nodes.
proof fn lemma_inputs_join(
    g: GraphModel,
    node: Seq<char>,
    inputs: Seq<(Seq<char>, Seq<char>)>,
    n: nat,
)
    requires
        edges_join_nodes(g),
        g.nodes.contains(node),
        n <= inputs.len(),
    ensures
        edges_join_nodes(with_inputs(g, node, inputs, n)),
        with_inputs(g, node, inputs, n).nodes.contains(node),
        g.nodes.subset_of(with_inputs(g, node, inputs, n).nodes),
    decreases n,
{
    if n > 0 {
        lemma_inputs_join(g, node, inputs, (n - 1) as nat);
    }
}

/// Reading node definitions keeps every edge between two nodes of the graph:
/// an edge's source and target are always among the nodes.
pub proof fn law_definitions_keep_edges_between_nodes(
    g: GraphModel,
    ds: Seq<NodeDefModel>,
    n: nat,
)
    requires
        edges_join_nodes(g),
        n <= ds.len(),
    ensures
        edges_join_nodes(with_definitions(g, ds, n)),
    decreases n,
{
    if n > 0 {
        law_definitions_keep_edges_between_nodes(g, ds, (n - 1) as nat);
        let h = with_definitions(g, ds, (n - 1) as nat);
        let d = ds[n - 1];
        let h1 = GraphModel { nodes: h.nodes.insert(d.id), ..h };
        lemma_inputs_join(h1, d.id, d.inputs, d.inputs.len());
    }
}

/// Every node that a definition names ends up in the graph.
pub proof fn law_definitions_name_nodes(g: GraphModel, ds: Seq<NodeDefModel>, n: nat, k: int)
    requires
        n <= ds.len(),
        0 <= k < n,
    ensures
        with_definitions(g, ds, n).nodes.contains(ds[k].id),
    decreases n,
{
    if k < n - 1 {
        law_definitions_name_nodes(g, ds, (n - 1) as nat, k);
        let h = with_definitions(g, ds, (n - 1) as nat);
        let d = ds[n - 1];
        let h1 = GraphModel { nodes: h.nodes.insert(d.id), ..h };
        lemma_inputs_grow(h1, d.id, d.inputs, d.inputs.len());
    } else {
        let h = with_definitions(g, ds, (n - 1) as nat);
        let d = ds[n - 1];
        let h1 = GraphModel { nodes: h.nodes.insert(d.id), ..h };
        lemma_inputs_grow(h1, d.id, d.inputs, d.inputs.len());
    }
}

/// Reading inputs only adds nodes.
proof fn lemma_inputs_grow(
    g: GraphModel,
    node: Seq<char>,
    inputs: Seq<(Seq<char>, Seq<char>)>,
    n: nat,
)
    ensures
        g.nodes.subset_of(with_inputs(g, node, inputs, n).nodes),
    decreases n,
{
    if n > 0 {
        lemma_inputs_grow(g, node, inputs, (n - 1) as nat);
    }
}

} // verus!
