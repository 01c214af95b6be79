//! The decisions of the dataflow receiver: how each event of the dataflow
//! changes the sensor state and which messages go to the user interface.
//!
//! The receiver runs a loop: it waits for an event, hands it to
//! [`DoraLoop::handle_event`], sends the messages that come back and stops
//! when told to. Values arrive as single-precision numbers; they are held
//! here as their bit patterns.

use vstd::prelude::*;
use crate::text::str_eq;

verus! {

/// Vehicle pose (x, y, heading, speed).
#[derive(Debug, Clone, Copy, PartialEq, Eq, Structural, Default)]
pub struct VehiclePose {
    pub x: u32,
    pub y: u32,
    pub theta: u32,
    pub velocity: u32,
}

/// Vehicle state (steering, acceleration, yaw rate).
#[derive(Debug, Clone, Copy, PartialEq, Eq, Structural, Default)]
pub struct VehicleState {
    pub steering: u32,
    pub acceleration: u32,
    pub yaw_rate: u32,
}

/// IMU reading (acceleration and angular rate, each x, y, z).
#[derive(Debug, Clone, Copy, Default)]
pub struct ImuData {
    pub accel: (u32, u32, u32),
    pub gyro: (u32, u32, u32),
}

/// Sensor data received from the dataflow.
#[derive(Debug, Default)]
pub struct DoraData {
    /// Vehicle pose
    pub pose: Option<VehiclePose>,
    /// Vehicle state
    pub state: Option<VehicleState>,
    /// IMU data
    pub imu: Option<ImuData>,
    /// Target point from the planner
    pub target: Option<(u32, u32)>,
    /// Waypoints from the planner
    pub waypoints: Option<Vec<(u32, u32)>>,
    /// Frame count
    pub frame_count: u64,
}

/// The value of a [`DoraData`].
pub struct DataModel {
    pub pose: Option<VehiclePose>,
    pub state: Option<VehicleState>,
    pub imu: Option<ImuData>,
    pub target: Option<(u32, u32)>,
    pub waypoints: Option<Seq<(u32, u32)>>,
    pub frame_count: u64,
}

impl View for DoraData {
    type V = DataModel;

    open spec fn view(&self) -> DataModel {
        DataModel {
            pose: self.pose,
            state: self.state,
            imu: self.imu,
            target: self.target,
            waypoints: match self.waypoints {
                Some(w) => Some(w@),
                None => None,
            },
            frame_count: self.frame_count,
        }
    }
}

impl DoraData {
    /// A copy of the data.
    pub fn snapshot(&self) -> (r: DoraData)
        ensures
            r@ == self@,
    {
        let waypoints = match &self.waypoints {
            Some(w) => {
                let mut out: Vec<(u32, u32)> = Vec::new();
                let mut i: usize = 0;
                while i < w.len()
                    invariant
                        i <= w@.len(),
                        out@ == w@.take(i as int),
                    decreases w@.len() - i,
                {
                    out.push(w[i]);
                    assert(out@ =~= w@.take(i as int + 1));
                    i = i + 1;
                }
                assert(out@ =~= w@);
                Some(out)
            },
            None => None,
        };
        DoraData {
            pose: self.pose,
            state: self.state,
            imu: self.imu,
            target: self.target,
            waypoints,
            frame_count: self.frame_count,
        }
    }
}

/// Message sent from the receiver to the user interface.
#[derive(Debug)]
pub enum DoraMessage {
    /// New sensor data received
    Data(DoraData),
    /// Connected to the dataflow
    Connected,
    /// Disconnected, or an error
    Disconnected(String),
    /// Status update
    Status(String),
}

/// An event of the dataflow.
pub enum DoraEvent {
    /// An input arrived; `values` holds its numbers when it is an array of
    /// single-precision values, and is `None` otherwise.
    Input { id: String, values: Option<Vec<u32>> },
    /// The dataflow asks the node to stop.
    Stop,
    /// Any other event.
    Other,
}

/// The waypoints held by `v`: consecutive pairs, a trailing odd value left out.
pub open spec fn pairs(v: Seq<u32>) -> Seq<(u32, u32)> {
    Seq::new((v.len() / 2) as nat, |k: int| (v[2 * k], v[2 * k + 1]))
}

/// The sensor state after the input `id` brought the values `v`.
pub open spec fn apply_input(d: DataModel, id: Seq<char>, v: Seq<u32>) -> DataModel {
    if id == "sim_pose"@ {
        if v.len() >= 4 {
            DataModel {
                pose: Some(VehiclePose { x: v[0], y: v[1], theta: v[2], velocity: v[3] }),
                ..d
            }
        } else {
            d
        }
    } else if id == "sim_state"@ {
        if v.len() >= 7 {
            DataModel {
                state: Some(VehicleState { steering: v[4], acceleration: v[5], yaw_rate: v[6] }),
                ..d
            }
        } else {
            d
        }
    } else if id == "imu_msg"@ {
        if v.len() >= 9 {
            DataModel {
                imu: Some(ImuData { accel: (v[6], v[7], v[8]), gyro: (v[3], v[4], v[5]) }),
                ..d
            }
        } else {
            d
        }
    } else if id == "target_point"@ {
        if v.len() >= 2 {
            DataModel { target: Some((v[0], v[1])), ..d }
        } else {
            d
        }
    } else if id == "waypoints"@ {
        if v.len() >= 2 {
            DataModel { waypoints: Some(pairs(v)), ..d }
        } else {
            d
        }
    } else {
        d
    }
}

/// The waypoints held by `values`.
fn waypoint_pairs(values: &Vec<u32>) -> (r: Vec<(u32, u32)>)
    ensures
        r@ == pairs(values@),
{
    let mut out: Vec<(u32, u32)> = Vec::new();
    let n = values.len();
    let m = n / 2;
    let mut k: usize = 0;
    while k < m
        invariant
            n == values@.len(),
            m == n / 2,
            k <= m,
            out@ == pairs(values@).take(k as int),
        decreases m - k,
    {
        assert(2 * k + 1 < n);
        out.push((values[2 * k], values[2 * k + 1]));
        assert(out@ =~= pairs(values@).take(k as int + 1));
        k = k + 1;
    }
    assert(out@ =~= pairs(values@));
    out
}

/// What one event asks of the loop: the messages to send, and whether to stop.
pub struct Step {
    pub messages: Vec<DoraMessage>,
    pub stop: bool,
}

/// The state of the receiver loop.
pub struct DoraLoop {
    /// The sensor data gathered so far
    pub data: DoraData,
    /// Inputs received so far
    pub frame_count: u64,
}

/// The messages sent once the node has started.
pub open spec fn is_connected_messages(m: Seq<DoraMessage>) -> bool {
    &&& m.len() == 2
    &&& m[0] is Connected
    &&& m[1] matches DoraMessage::Status(s) && s@ == "Dora node connected"@
}

impl DoraLoop {
    /// A loop with no data yet.
    pub fn new() -> (r: DoraLoop)
        ensures
            r.frame_count == 0,
            r.data@ == (DataModel {
                pose: None,
                state: None,
                imu: None,
                target: None,
                waypoints: None,
                frame_count: 0,
            }),
    {
        DoraLoop {
            data: DoraData {
                pose: None,
                state: None,
                imu: None,
                target: None,
                waypoints: None,
                frame_count: 0,
            },
            frame_count: 0,
        }
    }

    /// The messages sent when the node has started.
    pub fn connected_messages() -> (r: Vec<DoraMessage>)
        ensures
            is_connected_messages(r@),
    {
        let mut v: Vec<DoraMessage> = Vec::new();
        v.push(DoraMessage::Connected);
        v.push(DoraMessage::Status("Dora node connected".to_string()));
        v
    }

    /// The messages sent when the node could not start, for the reason
    /// `reason`; the loop does not run then.
    pub fn failed_messages(reason: &str) -> (r: Vec<DoraMessage>)
        ensures
            r@.len() == 2,
            r@[0] matches DoraMessage::Disconnected(s) && s@ == "Failed to init Dora: "@ + reason@,
            r@[1] matches DoraMessage::Status(s) && s@ == "Failed to init Dora: "@ + reason@,
    {
        let mut msg = "Failed to init Dora: ".to_string();
        msg.append(reason);
        let mut v: Vec<DoraMessage> = Vec::new();
        v.push(DoraMessage::Disconnected(msg.clone()));
        v.push(DoraMessage::Status(msg));
        v
    }

    /// The message sent when the loop has ended.
    pub fn finished_message() -> (r: DoraMessage)
        ensures
            r matches DoraMessage::Disconnected(s) && s@ == "Dora loop ended"@,
    {
        DoraMessage::Disconnected("Dora loop ended".to_string())
    }

    /// Handles one event.
    ///
    /// An input counts as a frame whatever it holds; one that is an array of
    /// values updates the data by its name, and every third frame the data
    /// is sent. A stop request is answered with a status and ends the loop.
    pub fn handle_event(&mut self, event: &DoraEvent) -> (r: Step)
        requires
            old(self).frame_count < u64::MAX,
        ensures
            match event {
                DoraEvent::Input { id, values } => {
                    let n = (old(self).frame_count + 1) as u64;
                    let d1 = match values {
                        Some(v) => apply_input(old(self).data@, id@, v@),
                        None => old(self).data@,
                    };
                    &&& !r.stop
                    &&& final(self).frame_count == n
                    &&& (values is Some && n % 3 == 0) ==> {
                        &&& final(self).data@ == (DataModel { frame_count: n, ..d1 })
                        &&& r.messages@.len() == 1
                        &&& r.messages@[0] matches DoraMessage::Data(d) && d@ == final(self).data@
                    }
                    &&& !(values is Some && n % 3 == 0) ==> {
                        &&& final(self).data@ == d1
                        &&& r.messages@.len() == 0
                    }
                },
                DoraEvent::Stop => {
                    &&& r.stop
                    &&& r.messages@.len() == 1
                    &&& r.messages@[0] matches DoraMessage::Status(s) && s@ == "Dora stopped"@
                    &&& final(self).data@ == old(self).data@
                    &&& final(self).frame_count == old(self).frame_count
                },
                DoraEvent::Other => {
                    &&& !r.stop
                    &&& r.messages@.len() == 0
                    &&& final(self).data@ == old(self).data@
                    &&& final(self).frame_count == old(self).frame_count
                },
            },
    {
        match event {
            DoraEvent::Input { id, values } => {
                self.frame_count = self.frame_count + 1;
                let values = match values {
                    Some(v) => v,
                    None => {
                        return Step { messages: Vec::new(), stop: false };
                    },
                };
                let ghost d1 = apply_input(old(self).data@, id@, values@);
                let id = id.as_str();
                if str_eq(id, "sim_pose") {
                    if values.len() >= 4 {
                        self.data.pose = Some(
                            VehiclePose {
                                x: values[0],
                                y: values[1],
                                theta: values[2],
                                velocity: values[3],
                            },
                        );
                    }
                } else if str_eq(id, "sim_state") {
                    if values.len() >= 7 {
                        self.data.state = Some(
                            VehicleState {
                                steering: values[4],
                                acceleration: values[5],
                                yaw_rate: values[6],
                            },
                        );
                    }
                } else if str_eq(id, "imu_msg") {
                    if values.len() >= 9 {
                        self.data.imu = Some(
                            ImuData {
                                accel: (values[6], values[7], values[8]),
                                gyro: (values[3], values[4], values[5]),
                            },
                        );
                    }
                } else if str_eq(id, "target_point") {
                    if values.len() >= 2 {
                        self.data.target = Some((values[0], values[1]));
                    }
                } else if str_eq(id, "waypoints") {
                    let waypoints = waypoint_pairs(values);
                    assert(waypoints@.len() > 0 <==> values@.len() >= 2);
                    if waypoints.len() > 0 {
                        self.data.waypoints = Some(waypoints);
                    }
                }
                assert(self.data@ == d1);
                let mut messages: Vec<DoraMessage> = Vec::new();
                if self.frame_count % 3 == 0 {
                    self.data.frame_count = self.frame_count;
                    messages.push(DoraMessage::Data(self.data.snapshot()));
                }
                Step { messages, stop: false }
            },
            DoraEvent::Stop => {
                let mut messages: Vec<DoraMessage> = Vec::new();
                messages.push(DoraMessage::Status("Dora stopped".to_string()));
                Step { messages, stop: true }
            },
            DoraEvent::Other => Step { messages: Vec::new(), stop: false },
        }
    }
}

} // verus!
