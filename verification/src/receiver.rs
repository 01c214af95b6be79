//! The decisions of the message receiver: which topic to subscribe to, where
//! the data of a topic is shown, what kind of message arrived, and which
//! nodes have been seen.

use vstd::prelude::*;
use crate::text::{str_eq, starts_with};
use crate::wire::{le_u32, read_u32};

verus! {

/// The topic that covers every topic under `prefix`.
pub fn subscription_topic(prefix: &str) -> (r: String)
    ensures
        r@ == prefix@ + "/**"@,
{
    let mut t = prefix.to_owned();
    t.append("/**");
    t
}

/// The entity path of the topic `key`: what follows `<prefix>/`, or the whole
/// topic when it does not start so.
pub open spec fn entity_path_of(key: Seq<char>, prefix: Seq<char>) -> Seq<char> {
    let p = prefix + "/"@;
    if p.len() <= key.len() && key.take(p.len() as int) == p {
        key.skip(p.len() as int)
    } else {
        key
    }
}

/// The entity path of the topic `key`.
pub fn topic_entity_path(key: &str, prefix: &str) -> (r: String)
    ensures
        r@ == entity_path_of(key@, prefix@),
{
    let mut p = prefix.to_owned();
    p.append("/");
    if starts_with(key, p.as_str()) {
        let n = key.unicode_len();
        let k = p.as_str().unicode_len();
        let rest = key.substring_char(k, n);
        assert(key@.subrange(0, k as int) == key@.take(k as int));
        assert(rest@ =~= key@.skip(k as int));
        rest.to_owned()
    } else {
        key.to_owned()
    }
}

/// What a received message carries, by its type.
#[derive(Debug, Clone, Copy, PartialEq, Eq, Structural)]
pub enum MessageKind {
    /// A system log entry
    Log,
    /// The definition of a node
    NodeDefinition,
    /// An update of the dataflow graph
    GraphUpdate,
    /// Data to visualize
    Visualization,
}

/// The kind of a message of type `t`.
pub open spec fn kind_of_type(t: Seq<char>) -> MessageKind {
    if t == "log"@ {
        MessageKind::Log
    } else if t == "node_definition"@ {
        MessageKind::NodeDefinition
    } else if t == "graph_update"@ {
        MessageKind::GraphUpdate
    } else {
        MessageKind::Visualization
    }
}

/// The kind of a message of type `msg_type`.
pub fn message_kind(msg_type: &str) -> (r: MessageKind)
    ensures
        r == kind_of_type(msg_type@),
{
    if str_eq(msg_type, "log") {
        MessageKind::Log
    } else if str_eq(msg_type, "node_definition") {
        MessageKind::NodeDefinition
    } else if str_eq(msg_type, "graph_update") {
        MessageKind::GraphUpdate
    } else {
        MessageKind::Visualization
    }
}

/// The nodes seen so far, each once.
#[derive(Debug)]
pub struct NodeRegistry {
    /// Node identifiers in the order they were first seen
    nodes: Vec<String>,
}

impl View for NodeRegistry {
    type V = Set<Seq<char>>;

    closed spec fn view(&self) -> Set<Seq<char>> {
        self.nodes@.map_values(|s: String| s@).to_set()
    }
}

impl NodeRegistry {
    /// No identifier appears twice.
    pub closed spec fn wf(&self) -> bool {
        self.nodes@.map_values(|s: String| s@).no_duplicates()
    }

    /// A registry that has seen no node.
    pub fn new() -> (r: NodeRegistry)
        ensures
            r.wf(),
            r@ == Set::<Seq<char>>::empty(),
    {
        let r = NodeRegistry { nodes: Vec::new() };
        assert(r@ =~= Set::<Seq<char>>::empty());
        r
    }

    /// Whether the node `id` has been seen.
    pub fn contains(&self, id: &str) -> (r: bool)
        ensures
            r == self@.contains(id@),
    {
        let ghost ts = self.nodes@.map_values(|s: String| s@);
        let mut i: usize = 0;
        while i < self.nodes.len()
            invariant
                i <= self.nodes@.len(),
                ts == self.nodes@.map_values(|s: String| s@),
                forall|j: int| 0 <= j < i ==> ts[j] != id@,
            decreases self.nodes@.len() - i,
        {
            if str_eq(self.nodes[i].as_str(), id) {
                assert(ts[i as int] == id@);
                return true;
            }
            i = i + 1;
        }
        proof {
            if ts.contains(id@) {
                let j = choose|j: int| 0 <= j < ts.len() && ts[j] == id@;
            }
        }
        false
    }

    /// Records that the node `id` has been seen; true when it had not been
    /// seen before.
    pub fn discover(&mut self, id: &str) -> (r: bool)
        requires
            old(self).wf(),
        ensures
            final(self).wf(),
            r == !old(self)@.contains(id@),
            final(self)@ == old(self)@.insert(id@),
    {
        if self.contains(id) {
            assert(self@ =~= self@.insert(id@));
            return false;
        }
        let ghost ts = self.nodes@.map_values(|s: String| s@);
        self.nodes.push(id.to_owned());
        proof {
            let ts2 = self.nodes@.map_values(|s: String| s@);
            assert(ts2 =~= ts.push(id@));
            assert forall|a: int, b: int| 0 <= a < ts2.len() && 0 <= b < ts2.len() && a != b implies ts2[a] != ts2[b] by {
                if a == ts.len() {
                    assert(ts.contains(ts2[b]) || b == ts.len());
                } else if b == ts.len() {
                    assert(ts[a] == ts2[a]);
                    assert(ts.contains(ts2[a]));
                }
            }
            assert forall|x: Seq<char>| #[trigger] ts2.to_set().contains(x) <==> ts.to_set().insert(
                id@,
            ).contains(x) by {
                if ts2.contains(x) {
                    let j = choose|j: int| 0 <= j < ts2.len() && ts2[j] == x;
                    if j < ts.len() {
                        assert(ts[j] == x);
                    }
                }
                if ts.contains(x) {
                    let j = choose|j: int| 0 <= j < ts.len() && ts[j] == x;
                    assert(ts2[j] == x);
                }
                if x == id@ {
                    assert(ts2[ts.len() as int] == x);
                }
            }
            assert(self@ =~= old(self)@.insert(id@));
        }
        true
    }

    /// The nodes seen, in the order they were first seen.
    pub fn nodes(&self) -> (r: Vec<String>)
        ensures
            r@.map_values(|s: String| s@).to_set() == self@,
    {
        let mut out: Vec<String> = Vec::new();
        let mut i: usize = 0;
        while i < self.nodes.len()
            invariant
                i <= self.nodes@.len(),
                out@.len() == i,
                out@.map_values(|s: String| s@) == self.nodes@.map_values(|s: String| s@).take(
                    i as int,
                ),
            decreases self.nodes@.len() - i,
        {
            let ghost before = out@;
            let c = self.nodes[i].clone();
            assert(c@ == self.nodes@[i as int]@);
            out.push(c);
            assert forall|j: int| 0 <= j < i implies out@[j]@ == before[j]@ by {
                assert(out@[j] == before[j]);
            }
            assert(out@.map_values(|s: String| s@) =~= self.nodes@.map_values(|s: String| s@).take(
                i as int + 1,
            ));
            i = i + 1;
        }
        assert(self.nodes@.map_values(|s: String| s@).take(i as int) =~= self.nodes@.map_values(
            |s: String| s@,
        ));
        out
    }
}


/// The points of a binary point payload: consecutive (x, y, z) triples of
/// little-endian single-precision values, kept as bit patterns; a trailing
/// partial triple is left out.
pub open spec fn xyz_points(b: Seq<u8>) -> Seq<(u32, u32, u32)> {
    Seq::new(
        (b.len() / 12) as nat,
        |i: int|
            (
                le_u32(b, 12 * i) as u32,
                le_u32(b, 12 * i + 4) as u32,
                le_u32(b, 12 * i + 8) as u32,
            ),
    )
}

/// Parse a binary point payload of `xyz_f32` format; `count` is the number of
/// points announced, used only to reserve room.
pub fn parse_points_xyz_f32(binary: &[u8], count: u32) -> (r: Vec<(u32, u32, u32)>)
    ensures
        r@ == xyz_points(binary@),
{
    let n = binary.len();
    let m = n / 12;
    let mut points: Vec<(u32, u32, u32)> = Vec::new();
    let mut i: usize = 0;
    while i < m
        invariant
            n == binary@.len(),
            m == n / 12,
            i <= m,
            points@ == xyz_points(binary@).take(i as int),
        decreases m - i,
    {
        assert(12 * i + 12 <= n);
        let x = read_u32(binary, 12 * i);
        let y = read_u32(binary, 12 * i + 4);
        let z = read_u32(binary, 12 * i + 8);
        points.push((x, y, z));
        assert(points@ =~= xyz_points(binary@).take(i as int + 1));
        i = i + 1;
    }
    assert(xyz_points(binary@).take(i as int) =~= xyz_points(binary@));
    points
}

} // verus!
