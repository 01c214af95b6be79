//! The decisions of the dataflow bridge for each input it receives: which
//! node it came from, what is logged, and where its values are published.

use vstd::prelude::*;
use crate::assoc::{assoc_find, assoc_map, assoc_put, assoc_wf, lemma_assoc_map};
use crate::bridge::nat_digits;
use crate::graph_state::{has_char, lemma_split_two, with_activity, GraphState};
use crate::text::{decimal_text, split_chars, split_on, str_eq, texts};

verus! {

/// How the values of an input are shown.
#[derive(Debug, Clone, Copy, PartialEq, Eq, Structural)]
pub enum BridgeRoute {
    /// The input did not carry single-precision numbers
    NotFloat,
    /// Points from a point cloud
    PointCloud,
    /// A pose: the robot's body and trajectory
    Pose,
    /// A vehicle pose: the vehicle's body and trajectory
    VehiclePose,
    /// Odometry: the sensor pose, trajectory and position
    Odometry,
    /// The planner's waypoints
    Waypoints,
    /// A trajectory
    Trajectory,
    /// The planner's target
    Target,
    /// Accelerometer arrows from an inertial unit
    Imu,
    /// Box markers
    MarkerBoxes,
    /// Arrow markers
    MarkerArrows,
    /// Line markers
    MarkerLines,
    /// The vehicle's steering
    VehicleState,
    /// Any other input of three values per point
    GenericPoints,
    /// Nothing is shown
    Skip,
}

/// How many points a trajectory of `n` values holds: seven values per point
/// when `n` divides by seven, else three.
pub open spec fn trajectory_points(n: nat) -> nat {
    if n % 7 == 0 {
        n / 7
    } else {
        n / 3
    }
}

/// The route of an input `id` carrying `len` numbers (none when it carried no
/// single-precision numbers), tried in order; an id that matches but whose
/// length does not falls through to the next cases.
pub open spec fn route_of(id: Seq<char>, len: Option<nat>) -> BridgeRoute {
    match len {
        None => BridgeRoute::NotFloat,
        Some(n) => if id == "pointcloud"@ || id == "lidar"@ || id == "scan"@ || id == "points"@ {
            if n < 3 {
                BridgeRoute::Skip
            } else {
                BridgeRoute::PointCloud
            }
        } else if (id == "pose"@ || id == "robot_pose"@ || id == "amcl_pose"@) && n == 7 {
            BridgeRoute::Pose
        } else if (id == "sim_pose"@ || id == "vehicle_pose"@) && n >= 3 {
            BridgeRoute::VehiclePose
        } else if (id == "odom_pose"@ || id == "odom"@) && n >= 7 {
            BridgeRoute::Odometry
        } else if (id == "waypoints"@ || id == "path"@) && n >= 4 {
            BridgeRoute::Waypoints
        } else if id == "trajectory"@ && n >= 6 {
            if trajectory_points(n) < 2 {
                BridgeRoute::Skip
            } else {
                BridgeRoute::Trajectory
            }
        } else if (id == "target_point"@ || id == "target"@ || id == "goal"@) && n >= 2 {
            BridgeRoute::Target
        } else if (id == "imu_msg"@ || id == "imu"@) && n >= 9 {
            BridgeRoute::Imu
        } else if id == "markers"@ && n == 10 {
            BridgeRoute::MarkerBoxes
        } else if id == "markers"@ && n == 6 {
            BridgeRoute::MarkerArrows
        } else if id == "markers"@ && n >= 6 && n % 3 == 0 {
            BridgeRoute::MarkerLines
        } else if (id == "sim_state"@ || id == "vehicle_state"@) && n >= 7 {
            BridgeRoute::VehicleState
        } else if n >= 3 && n % 3 == 0 {
            BridgeRoute::GenericPoints
        } else {
            BridgeRoute::Skip
        },
    }
}

/// The entity path under which a route's message is published, for the
/// routes that publish one message there; the pose routes publish their own
/// body and trajectory.
pub open spec fn route_path(route: BridgeRoute, id: Seq<char>) -> Option<Seq<char>> {
    match route {
        BridgeRoute::PointCloud => Some("world/pointcloud"@),
        BridgeRoute::Odometry => Some("world/sensor/position"@),
        BridgeRoute::Waypoints => Some("world/planner/waypoints"@),
        BridgeRoute::Trajectory => Some("world/trajectory"@),
        BridgeRoute::Target => Some("world/planner/target"@),
        BridgeRoute::Imu => Some("world/imu/accelerometer"@),
        BridgeRoute::MarkerBoxes => Some("world/markers"@),
        BridgeRoute::MarkerArrows => Some("world/markers/arrows"@),
        BridgeRoute::MarkerLines => Some("world/markers/lines"@),
        BridgeRoute::VehicleState => Some("metrics/steering"@),
        BridgeRoute::GenericPoints => Some("world/"@ + id),
        _ => None,
    }
}

/// The node an input came from: its id before the first slash.
pub open spec fn source_node_of(id: Seq<char>) -> Seq<char> {
    split_on(id, '/')[0]
}

/// The node and output whose activity an input shows: before and after the
/// first slash, or the id itself for both when it has none.
pub open spec fn io_source_of(id: Seq<char>) -> (Seq<char>, Seq<char>) {
    if id.contains('/') {
        (split_on(id, '/')[0], split_on(id, '/')[1])
    } else {
        (id, id)
    }
}

/// The route of input `id` carrying `len` numbers.
fn route_for(id: &str, len: Option<usize>) -> (r: BridgeRoute)
    ensures
        r == route_of(
            id@,
            match len {
                Some(n) => Some(n as nat),
                None => None,
            },
        ),
{
    let n = match len {
        Some(n) => n,
        None => {
            return BridgeRoute::NotFloat;
        },
    };
    if str_eq(id, "pointcloud") || str_eq(id, "lidar") || str_eq(id, "scan") || str_eq(id, "points") {
        if n < 3 {
            BridgeRoute::Skip
        } else {
            BridgeRoute::PointCloud
        }
    } else if (str_eq(id, "pose") || str_eq(id, "robot_pose") || str_eq(id, "amcl_pose")) && n == 7 {
        BridgeRoute::Pose
    } else if (str_eq(id, "sim_pose") || str_eq(id, "vehicle_pose")) && n >= 3 {
        BridgeRoute::VehiclePose
    } else if (str_eq(id, "odom_pose") || str_eq(id, "odom")) && n >= 7 {
        BridgeRoute::Odometry
    } else if (str_eq(id, "waypoints") || str_eq(id, "path")) && n >= 4 {
        BridgeRoute::Waypoints
    } else if str_eq(id, "trajectory") && n >= 6 {
        let points = if n % 7 == 0 {
            n / 7
        } else {
            n / 3
        };
        if points < 2 {
            BridgeRoute::Skip
        } else {
            BridgeRoute::Trajectory
        }
    } else if (str_eq(id, "target_point") || str_eq(id, "target") || str_eq(id, "goal")) && n >= 2 {
        BridgeRoute::Target
    } else if (str_eq(id, "imu_msg") || str_eq(id, "imu")) && n >= 9 {
        BridgeRoute::Imu
    } else if str_eq(id, "markers") && n == 10 {
        BridgeRoute::MarkerBoxes
    } else if str_eq(id, "markers") && n == 6 {
        BridgeRoute::MarkerArrows
    } else if str_eq(id, "markers") && n >= 6 && n % 3 == 0 {
        BridgeRoute::MarkerLines
    } else if (str_eq(id, "sim_state") || str_eq(id, "vehicle_state")) && n >= 7 {
        BridgeRoute::VehicleState
    } else if n >= 3 && n % 3 == 0 {
        BridgeRoute::GenericPoints
    } else {
        BridgeRoute::Skip
    }
}

/// The entity path of a route's message, for the routes with one.
fn path_for(route: BridgeRoute, id: &str) -> (r: Option<String>)
    ensures
        match r {
            Some(p) => route_path(route, id@) == Some(p@),
            None => route_path(route, id@) is None,
        },
{
    match route {
        BridgeRoute::PointCloud => Some("world/pointcloud".to_owned()),
        BridgeRoute::Odometry => Some("world/sensor/position".to_owned()),
        BridgeRoute::Waypoints => Some("world/planner/waypoints".to_owned()),
        BridgeRoute::Trajectory => Some("world/trajectory".to_owned()),
        BridgeRoute::Target => Some("world/planner/target".to_owned()),
        BridgeRoute::Imu => Some("world/imu/accelerometer".to_owned()),
        BridgeRoute::MarkerBoxes => Some("world/markers".to_owned()),
        BridgeRoute::MarkerArrows => Some("world/markers/arrows".to_owned()),
        BridgeRoute::MarkerLines => Some("world/markers/lines".to_owned()),
        BridgeRoute::VehicleState => Some("metrics/steering".to_owned()),
        BridgeRoute::GenericPoints => {
            let mut p = "world/".to_owned();
            p.append(id);
            Some(p)
        },
        _ => None,
    }
}

/// How long after the last publication the node definitions are published
/// again, in nanoseconds.
pub const DEFINITIONS_REPUBLISH_NANOS: u64 = 3_000_000_000;

/// How long after the last publication the graph is published again, in
/// nanoseconds.
pub const GRAPH_PUBLISH_NANOS: u64 = 2_000_000_000;

/// Which periodic publications are due before the bridge handles an event:
/// the node definitions (when there are any) and the graph, given the
/// nanoseconds since each was last published.
pub fn periodic_publications(definitions_known: bool, since_definitions: u64, since_graph: u64) -> (r: (
    bool,
    bool,
))
    ensures
        r.0 == (definitions_known && since_definitions >= DEFINITIONS_REPUBLISH_NANOS),
        r.1 == (since_graph >= GRAPH_PUBLISH_NANOS),
{
    (definitions_known && since_definitions >= DEFINITIONS_REPUBLISH_NANOS, since_graph >= GRAPH_PUBLISH_NANOS)
}

/// What the bridge does for one input.
#[derive(Debug)]
pub struct BridgeAction {
    /// The node the input came from
    pub source_node: String,
    /// How many inputs that node has sent, this one included
    pub source_count: u64,
    /// Log that the first message came from that node
    pub first_message: bool,
    /// Log how many messages that node has sent (every hundredth)
    pub status_log: bool,
    /// The node and output whose activity is shown
    pub io_node: String,
    pub io_output: String,
    /// How the values are shown
    pub route: BridgeRoute,
    /// Where the message is published, for the routes with one
    pub entity_path: Option<String>,
    /// Log the values of this route (poses every fiftieth from a node,
    /// waypoints every hundredth)
    pub route_log: bool,
    /// Log the number of inputs so far (every hundredth, once published)
    pub progress_log: bool,
}

/// The bridge's state between inputs.
#[derive(Debug)]
pub struct BridgeState {
    frame_count: u64,
    node_counts: Vec<(String, u64)>,
    graph: GraphState,
}

impl BridgeState {
    /// The number of inputs received.
    pub closed spec fn spec_frame_count(&self) -> u64 {
        self.frame_count
    }

    /// The number of inputs from each node.
    pub closed spec fn spec_node_counts(&self) -> Map<Seq<char>, u64> {
        assoc_map(self.node_counts@)
    }

    /// The dataflow graph.
    pub closed spec fn spec_graph(&self) -> GraphState {
        self.graph
    }

    /// Counts are listed once per node and none exceeds the inputs received;
    /// the graph is well formed.
    pub closed spec fn wf(&self) -> bool {
        &&& assoc_wf(self.node_counts@)
        &&& forall|i: int| 0 <= i < self.node_counts@.len() ==> #[trigger] self.node_counts@[i].1
            <= self.frame_count
        &&& self.graph.wf()
    }

    /// A state with no input yet, over the graph `graph`.
    pub fn new(graph: GraphState) -> (r: BridgeState)
        requires
            graph.wf(),
        ensures
            r.wf(),
            r.spec_frame_count() == 0,
            r.spec_node_counts() == Map::<Seq<char>, u64>::empty(),
            r.spec_graph() == graph,
    {
        BridgeState { frame_count: 0, node_counts: Vec::new(), graph }
    }

    /// The dataflow graph.
    pub fn graph(&self) -> (r: &GraphState)
        ensures
            *r == self.spec_graph(),
    {
        &self.graph
    }

    /// The message logged when the bridge stops.
    pub fn stop_message(&self) -> (r: String)
        ensures
            r@ == "Bridge stopping after "@ + nat_digits(self.spec_frame_count() as nat)
                + " total frames"@,
    {
        let mut m = "Bridge stopping after ".to_owned();
        m.append(decimal_text(self.frame_count).as_str());
        m.append(" total frames");
        m
    }

    /// Handle input `input_id` received at `time` (the bits of a
    /// double-precision number of seconds), carrying `payload_len`
    /// single-precision numbers, or none when it carried other data: count it
    /// for the bridge and for its source node, note it in the graph, and
    /// decide what is logged and where its values go.
    pub fn bridge_step(&mut self, input_id: &str, payload_len: Option<usize>, time: u64) -> (r:
        BridgeAction)
        requires
            old(self).wf(),
            old(self).spec_frame_count() < u64::MAX,
        ensures
            final(self).wf(),
            final(self).spec_frame_count() == old(self).spec_frame_count() + 1,
            r.source_node@ == source_node_of(input_id@),
            r.source_count == (if old(self).spec_node_counts().dom().contains(
                source_node_of(input_id@),
            ) {
                old(self).spec_node_counts()[source_node_of(input_id@)] + 1
            } else {
                1
            }),
            final(self).spec_node_counts() == old(self).spec_node_counts().insert(
                source_node_of(input_id@),
                r.source_count,
            ),
            r.first_message == (r.source_count == 1),
            r.status_log == (r.source_count % 100 == 0),
            (r.io_node@, r.io_output@) == io_source_of(input_id@),
            r.route == route_of(
                input_id@,
                match payload_len {
                    Some(n) => Some(n as nat),
                    None => None,
                },
            ),
            match r.entity_path {
                Some(p) => route_path(r.route, input_id@) == Some(p@),
                None => route_path(r.route, input_id@) is None,
            },
            r.route_log == match r.route {
                BridgeRoute::Pose | BridgeRoute::VehiclePose => r.source_count % 50 == 1,
                BridgeRoute::Waypoints => r.source_count % 100 == 1,
                _ => false,
            },
            r.progress_log == (route_path(r.route, input_id@) is Some
                && final(self).spec_frame_count() % 100 == 0),
            final(self).spec_graph().spec_graph() == old(self).spec_graph().spec_graph(),
            final(self).spec_graph().spec_activity() == with_activity(
                old(self).spec_graph().spec_activity(),
                old(self).spec_graph().spec_graph().sources,
                input_id@,
                time,
            ),
    {
        self.frame_count = self.frame_count + 1;
        self.graph.record_input(input_id, time);
        let pieces = split_chars(input_id, '/');
        let source = pieces[0].as_str().to_owned();
        proof {
            lemma_assoc_map(self.node_counts@);
            assert(texts(pieces@)[0] == pieces@[0]@);
        }
        let count: u64 = match assoc_find(&self.node_counts, source.as_str()) {
            Some(i) => self.node_counts[i].1 + 1,
            None => 1,
        };
        let ghost before = self.node_counts@;
        assoc_put(&mut self.node_counts, source.as_str(), count);
        proof {
            lemma_assoc_map(self.node_counts@);
            assert forall|i: int| 0 <= i < self.node_counts@.len() implies #[trigger] self.node_counts@[i].1
                <= self.frame_count by {
                let k = self.node_counts@[i].0@;
                assert(assoc_map(self.node_counts@)[k] == self.node_counts@[i].1);
                assert(assoc_map(self.node_counts@).dom().contains(k));
                if k != source@ {
                    assert(assoc_map(before).dom().contains(k));
                    lemma_assoc_map(before);
                    let j = choose|j: int| 0 <= j < before.len() && before[j].0@ == k;
                    assert(assoc_map(before)[before[j].0@] == before[j].1);
                }
            }
        }
        let (io_node, io_output) = if has_char(input_id, '/') {
            proof {
                assert(input_id@.take(input_id@.len() as int) =~= input_id@);
                lemma_split_two(input_id@, '/', input_id@.len());
                assert(texts(pieces@)[1] == pieces@[1]@);
            }
            (pieces[0].as_str().to_owned(), pieces[1].as_str().to_owned())
        } else {
            (input_id.to_owned(), input_id.to_owned())
        };
        let route = route_for(input_id, payload_len);
        let entity_path = path_for(route, input_id);
        let route_log = match route {
            BridgeRoute::Pose | BridgeRoute::VehiclePose => count % 50 == 1,
            BridgeRoute::Waypoints => count % 100 == 1,
            _ => false,
        };
        let progress_log = entity_path.is_some() && self.frame_count % 100 == 0;
        BridgeAction {
            source_node: source,
            source_count: count,
            first_message: count == 1,
            status_log: count % 100 == 0,
            io_node,
            io_output,
            route,
            entity_path,
            route_log,
            progress_log,
        }
    }
}

} // verus!
