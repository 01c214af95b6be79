//! The dataflow graph as the graph panel shows it: the nodes and edges last
//! reported, and the text drawing of them.

use vstd::prelude::*;
use vstd::utf8::encode_utf8;
use crate::bridge::nat_digits;
use crate::text::{decimal_text, str_eq};

verus! {

/// A node as the panel shows it.
#[derive(Clone, Debug)]
pub struct GraphDisplayNode {
    pub id: String,
    pub is_active: bool,
}

/// An edge as the panel shows it.
#[derive(Clone, Debug)]
pub struct GraphDisplayEdge {
    pub from_node: String,
    pub from_port: String,
    pub to_node: String,
    pub to_port: String,
}

/// `s` written `n` times.
pub open spec fn repeat_text(s: Seq<char>, n: nat) -> Seq<char>
    decreases n,
{
    if n == 0 {
        Seq::empty()
    } else {
        repeat_text(s, (n - 1) as nat) + s
    }
}

/// `s` padded on the right with spaces to `w` characters, as `{:<w$}` does.
pub open spec fn padded(s: Seq<char>, w: nat) -> Seq<char> {
    if s.len() < w {
        s + repeat_text(" "@, (w - s.len()) as nat)
    } else {
        s
    }
}

/// The width of a node's name in its box: its length in bytes, at least 8.
pub open spec fn name_width(id: Seq<char>) -> nat {
    if encode_utf8(id).len() > 8 {
        encode_utf8(id).len()
    } else {
        8
    }
}

/// The lines drawn above a node for the first `n` edges that end at it.
pub open spec fn incoming_lines(edges: Seq<GraphDisplayEdge>, id: Seq<char>, n: nat) -> Seq<char>
    decreases n,
{
    if n == 0 {
        Seq::empty()
    } else {
        let e = edges[n - 1];
        incoming_lines(edges, id, (n - 1) as nat) + if e.to_node@ == id {
            "     "@ + e.from_node@ + " / "@ + e.from_port@ + "\n"@ + "           ↓\n"@
        } else {
            Seq::empty()
        }
    }
}

/// The number of the first `n` edges that start at the node `id`.
pub open spec fn outgoing_count(edges: Seq<GraphDisplayEdge>, id: Seq<char>, n: nat) -> nat
    decreases n,
{
    if n == 0 {
        0
    } else {
        outgoing_count(edges, id, (n - 1) as nat) + if edges[n - 1].from_node@ == id {
            1nat
        } else {
            0nat
        }
    }
}

/// The box of a node: its status, its name padded to the box, and a mark
/// if it is selected.
pub open spec fn node_box(node: GraphDisplayNode, selected: Option<Seq<char>>) -> Seq<char> {
    let w = name_width(node.id@);
    let border = repeat_text("─"@, w + 8);
    let icon = if node.is_active {
        "🟢"@
    } else {
        "⚪"@
    };
    let status = if node.is_active {
        "RUN"@
    } else {
        "---"@
    };
    let mark = if selected == Some(node.id@) {
        " ◀"@
    } else {
        Seq::empty()
    };
    "  ┌"@ + border + "┐\n"@ + ("  │ "@ + icon + " "@ + padded(node.id@, w) + " ["@ + status + "]"@
        + mark + " │\n"@) + ("  └"@ + border + "┘\n"@)
}

/// The line counting the outputs of a node, when it has any.
pub open spec fn outgoing_part(edges: Seq<GraphDisplayEdge>, id: Seq<char>) -> Seq<char> {
    let out = outgoing_count(edges, id, edges.len());
    if out > 0 {
        "     ↓ "@ + nat_digits(out) + " output(s)\n"@
    } else {
        Seq::empty()
    }
}

/// The drawing of one node: the edges coming in, its box, and how many
/// outputs leave it.
pub open spec fn node_block(
    node: GraphDisplayNode,
    edges: Seq<GraphDisplayEdge>,
    selected: Option<Seq<char>>,
) -> Seq<char> {
    incoming_lines(edges, node.id@, edges.len()) + node_box(node, selected) + outgoing_part(
        edges,
        node.id@,
    ) + "\n"@
}

/// The drawings of the first `n` nodes.
pub open spec fn nodes_text(
    nodes: Seq<GraphDisplayNode>,
    edges: Seq<GraphDisplayEdge>,
    selected: Option<Seq<char>>,
    n: nat,
) -> Seq<char>
    decreases n,
{
    if n == 0 {
        Seq::empty()
    } else {
        nodes_text(nodes, edges, selected, (n - 1) as nat) + node_block(nodes[n - 1], edges, selected)
    }
}

/// What the panel shows before any graph arrives.
pub open spec fn waiting_text() -> Seq<char> {
    "Waiting for dataflow graph...\n\nConnect to a running Dora dataflow to see the node graph."@
}

/// The drawing of a graph: each node in turn, then a line counting nodes
/// and edges; or, with no nodes, the waiting text.
pub open spec fn graph_text(
    nodes: Seq<GraphDisplayNode>,
    edges: Seq<GraphDisplayEdge>,
    selected: Option<Seq<char>>,
) -> Seq<char> {
    if nodes.len() == 0 {
        waiting_text()
    } else {
        nodes_text(nodes, edges, selected, nodes.len()) + "━━━ "@ + nat_digits(nodes.len())
            + " nodes, "@ + nat_digits(edges.len()) + " edges ━━━"@
    }
}

/// `s` written `n` times.
fn repeat_str(s: &str, n: usize) -> (r: String)
    ensures
        r@ == repeat_text(s@, n as nat),
{
    let mut out = String::new();
    let mut i: usize = 0;
    while i < n
        invariant
            i <= n,
            out@ == repeat_text(s@, i as nat),
        decreases n - i,
    {
        out.append(s);
        i = i + 1;
    }
    out
}

/// The graph panel's state.
#[derive(Debug)]
pub struct DataflowGraphWidget {
    nodes: Vec<GraphDisplayNode>,
    edges: Vec<GraphDisplayEdge>,
    selected_node: Option<String>,
    /// When the graph was last updated (a double-precision number, as its bits)
    last_update: u64,
}

impl DataflowGraphWidget {
    /// The nodes, in order.
    pub closed spec fn spec_nodes(&self) -> Seq<GraphDisplayNode> {
        self.nodes@
    }

    /// The edges, in order.
    pub closed spec fn spec_edges(&self) -> Seq<GraphDisplayEdge> {
        self.edges@
    }

    /// The selected node.
    pub closed spec fn spec_selected(&self) -> Option<Seq<char>> {
        match self.selected_node {
            Some(s) => Some(s@),
            None => None,
        }
    }

    /// When the graph was last updated, as bits.
    pub closed spec fn spec_last_update(&self) -> u64 {
        self.last_update
    }

    /// An empty panel.
    pub fn new() -> (r: DataflowGraphWidget)
        ensures
            r.spec_nodes() == Seq::<GraphDisplayNode>::empty(),
            r.spec_edges() == Seq::<GraphDisplayEdge>::empty(),
            r.spec_selected() is None,
            r.spec_last_update() == 0,
    {
        DataflowGraphWidget {
            nodes: Vec::new(),
            edges: Vec::new(),
            selected_node: None,
            last_update: 0,
        }
    }

    /// Take the nodes (id, active) and edges (from node, from port, to node,
    /// to port) of a graph update received at `timestamp`.
    pub fn update_from_graph_update(
        &mut self,
        nodes: Vec<(String, bool)>,
        edges: Vec<(String, String, String, String)>,
        timestamp: u64,
    )
        ensures
            final(self).spec_nodes().len() == nodes@.len(),
            forall|i: int|
                0 <= i < nodes@.len() ==> (#[trigger] final(self).spec_nodes()[i]).id@
                    == nodes@[i].0@ && final(self).spec_nodes()[i].is_active == nodes@[i].1,
            final(self).spec_edges().len() == edges@.len(),
            forall|i: int|
                0 <= i < edges@.len() ==> {
                    let e = #[trigger] final(self).spec_edges()[i];
                    &&& e.from_node@ == edges@[i].0@
                    &&& e.from_port@ == edges@[i].1@
                    &&& e.to_node@ == edges@[i].2@
                    &&& e.to_port@ == edges@[i].3@
                },
            final(self).spec_selected() == old(self).spec_selected(),
            final(self).spec_last_update() == timestamp,
    {
        let mut ns: Vec<GraphDisplayNode> = Vec::new();
        let mut i: usize = 0;
        while i < nodes.len()
            invariant
                i <= nodes@.len(),
                ns@.len() == i,
                forall|k: int|
                    0 <= k < i ==> (#[trigger] ns@[k]).id@ == nodes@[k].0@ && ns@[k].is_active
                        == nodes@[k].1,
            decreases nodes@.len() - i,
        {
            ns.push(GraphDisplayNode { id: nodes[i].0.as_str().to_owned(), is_active: nodes[i].1 });
            i = i + 1;
        }
        let mut es: Vec<GraphDisplayEdge> = Vec::new();
        let mut j: usize = 0;
        while j < edges.len()
            invariant
                j <= edges@.len(),
                es@.len() == j,
                forall|k: int|
                    0 <= k < j ==> {
                        let e = #[trigger] es@[k];
                        &&& e.from_node@ == edges@[k].0@
                        &&& e.from_port@ == edges@[k].1@
                        &&& e.to_node@ == edges@[k].2@
                        &&& e.to_port@ == edges@[k].3@
                    },
            decreases edges@.len() - j,
        {
            es.push(
                GraphDisplayEdge {
                    from_node: edges[j].0.as_str().to_owned(),
                    from_port: edges[j].1.as_str().to_owned(),
                    to_node: edges[j].2.as_str().to_owned(),
                    to_port: edges[j].3.as_str().to_owned(),
                },
            );
            j = j + 1;
        }
        self.nodes = ns;
        self.edges = es;
        self.last_update = timestamp;
    }

    /// The selected node, if any.
    pub fn selected_node(&self) -> (r: Option<&str>)
        ensures
            match r {
                Some(s) => self.spec_selected() == Some(s@),
                None => self.spec_selected() is None,
            },
    {
        match &self.selected_node {
            Some(s) => Some(s.as_str()),
            None => None,
        }
    }

    /// When the graph was last updated, as bits.
    pub fn last_update(&self) -> (r: u64)
        ensures
            r == self.spec_last_update(),
    {
        self.last_update
    }

    /// Forget the graph.
    pub fn clear(&mut self)
        ensures
            final(self).spec_nodes() == Seq::<GraphDisplayNode>::empty(),
            final(self).spec_edges() == Seq::<GraphDisplayEdge>::empty(),
            final(self).spec_selected() is None,
            final(self).spec_last_update() == 0,
    {
        self.nodes = Vec::new();
        self.edges = Vec::new();
        self.selected_node = None;
        self.last_update = 0;
    }

    /// Whether `id` is the selected node.
    fn is_selected(&self, id: &str) -> (r: bool)
        ensures
            r == (self.spec_selected() == Some(id@)),
    {
        match &self.selected_node {
            Some(s) => str_eq(s.as_str(), id),
            None => false,
        }
    }

    /// The lines drawn above a node for the edges that end at it.
    fn incoming_text(&self, id: &str) -> (r: String)
        ensures
            r@ == incoming_lines(self.spec_edges(), id@, self.spec_edges().len()),
    {
        let mut text = String::new();
        let mut k: usize = 0;
        while k < self.edges.len()
            invariant
                k <= self.edges@.len(),
                text@ == incoming_lines(self.edges@, id@, k as nat),
            decreases self.edges@.len() - k,
        {
            let e = &self.edges[k];
            if str_eq(e.to_node.as_str(), id) {
                let ghost before = text@;
                text.append("     ");
                text.append(e.from_node.as_str());
                text.append(" / ");
                text.append(e.from_port.as_str());
                text.append("\n");
                text.append("           ↓\n");
                assert(text@ =~= before + ("     "@ + e.from_node@ + " / "@ + e.from_port@ + "\n"@
                    + "           ↓\n"@));
            } else {
                assert(text@ =~= text@ + Seq::<char>::empty());
            }
            k = k + 1;
        }
        text
    }

    /// The box of a node.
    fn box_text(&self, node: &GraphDisplayNode) -> (r: String)
        requires
            encode_utf8(node.id@).len() + 8 <= usize::MAX,
        ensures
            r@ == node_box(*node, self.spec_selected()),
    {
        let id = node.id.as_str();
        let bytes = id.len();
        let w: usize = if bytes > 8 {
            bytes
        } else {
            8
        };
        let border = repeat_str("─", w + 8);
        let mut top = "  ┌".to_owned();
        top.append(border.as_str());
        top.append("┐\n");
        let mut mid = "  │ ".to_owned();
        mid.append(
            if node.is_active {
                "🟢"
            } else {
                "⚪"
            },
        );
        mid.append(" ");
        mid.append(id);
        let chars = id.unicode_len();
        if chars < w {
            mid.append(repeat_str(" ", w - chars).as_str());
        }
        mid.append(" [");
        mid.append(
            if node.is_active {
                "RUN"
            } else {
                "---"
            },
        );
        mid.append("]");
        if self.is_selected(id) {
            mid.append(" ◀");
        }
        mid.append(" │\n");
        let mut bottom = "  └".to_owned();
        bottom.append(border.as_str());
        bottom.append("┘\n");
        proof {
            reveal_strlit("");
        }
        let mut text = top;
        text.append(mid.as_str());
        text.append(bottom.as_str());
        text
    }

    /// The line counting the outputs of the node `id`, when it has any.
    fn outgoing_text(&self, id: &str) -> (r: String)
        ensures
            r@ == outgoing_part(self.spec_edges(), id@),
    {
        let mut out: usize = 0;
        let mut j: usize = 0;
        while j < self.edges.len()
            invariant
                j <= self.edges@.len(),
                out == outgoing_count(self.edges@, id@, j as nat),
                out <= j,
            decreases self.edges@.len() - j,
        {
            if str_eq(self.edges[j].from_node.as_str(), id) {
                out = out + 1;
            }
            j = j + 1;
        }
        if out > 0 {
            let mut text = "     ↓ ".to_owned();
            text.append(decimal_text(out as u64).as_str());
            text.append(" output(s)\n");
            text
        } else {
            String::new()
        }
    }

    /// The drawing of one node.
    fn node_text(&self, node: &GraphDisplayNode) -> (r: String)
        requires
            encode_utf8(node.id@).len() + 8 <= usize::MAX,
        ensures
            r@ == node_block(*node, self.spec_edges(), self.spec_selected()),
    {
        let mut text = self.incoming_text(node.id.as_str());
        text.append(self.box_text(node).as_str());
        text.append(self.outgoing_text(node.id.as_str()).as_str());
        text.append("\n");
        text
    }

    /// The drawing of the graph: each node with the edges coming in, its
    /// status and outputs, then a line counting nodes and edges; with no
    /// nodes, a note that the graph is awaited.
    pub fn format_visual_graph(&self) -> (r: String)
        requires
            forall|i: int|
                0 <= i < self.spec_nodes().len() ==> encode_utf8(
                    (#[trigger] self.spec_nodes()[i]).id@,
                ).len() + 8 <= usize::MAX,
        ensures
            r@ == graph_text(self.spec_nodes(), self.spec_edges(), self.spec_selected()),
    {
        if self.nodes.len() == 0 {
            return "Waiting for dataflow graph...\n\nConnect to a running Dora dataflow to see the node graph.".to_owned();
        }
        let mut text = String::new();
        let mut i: usize = 0;
        while i < self.nodes.len()
            invariant
                i <= self.nodes@.len(),
                forall|k: int|
                    0 <= k < self.spec_nodes().len() ==> encode_utf8(
                        (#[trigger] self.spec_nodes()[k]).id@,
                    ).len() + 8 <= usize::MAX,
                text@ == nodes_text(self.nodes@, self.edges@, self.spec_selected(), i as nat),
            decreases self.nodes@.len() - i,
        {
            assert(self.spec_nodes()[i as int] == self.nodes@[i as int]);
            let block = self.node_text(&self.nodes[i]);
            text.append(block.as_str());
            i = i + 1;
        }
        text.append("━━━ ");
        text.append(decimal_text(self.nodes.len() as u64).as_str());
        text.append(" nodes, ");
        text.append(decimal_text(self.edges.len() as u64).as_str());
        text.append(" edges ━━━");
        text
    }
}

} // verus!
