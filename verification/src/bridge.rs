//! Viewer connection settings and the entity paths under which data is logged.

use vstd::prelude::*;
use crate::text::decimal_text;

verus! {

/// Configuration for the viewer connection.
#[derive(Debug, Clone)]
pub struct RerunConfig {
    /// Application/recording ID
    pub recording_id: String,
    /// Optional TCP address to connect to existing viewer
    pub connect_addr: Option<String>,
    /// Whether to spawn a new viewer window
    pub spawn_viewer: bool,
}

impl Default for RerunConfig {
    fn default() -> (r: Self)
        ensures
            r.recording_id@ == "dviz"@,
            r.connect_addr is None,
            r.spawn_viewer,
    {
        RerunConfig { recording_id: "dviz".to_owned(), connect_addr: None, spawn_viewer: true }
    }
}

impl RerunConfig {
    /// Default settings with the given recording ID.
    pub fn new(recording_id: &str) -> (r: RerunConfig)
        ensures
            r.recording_id@ == recording_id@,
            r.connect_addr is None,
            r.spawn_viewer,
    {
        RerunConfig { recording_id: recording_id.to_owned(), connect_addr: None, spawn_viewer: true }
    }

    /// The same settings with `spawn` deciding whether a viewer is spawned.
    pub fn with_spawn(self, spawn: bool) -> (r: RerunConfig)
        ensures
            r.recording_id == self.recording_id,
            r.connect_addr == self.connect_addr,
            r.spawn_viewer == spawn,
    {
        let mut c = self;
        c.spawn_viewer = spawn;
        c
    }

    /// The same settings connecting to the viewer at `addr`.
    pub fn with_connect_addr(self, addr: &str) -> (r: RerunConfig)
        ensures
            r.recording_id == self.recording_id,
            (r.connect_addr matches Some(a) && a@ == addr@),
            r.spawn_viewer == self.spawn_viewer,
    {
        let mut c = self;
        c.connect_addr = Some(addr.to_owned());
        c
    }
}


/// The character of the decimal digit `d`.
pub open spec fn digit_char(d: nat) -> char {
    (('0' as u32) + d) as char
}

/// The decimal digits of `n`, most significant first.
pub open spec fn nat_digits(n: nat) -> Seq<char>
    decreases n,
{
    if n < 10 {
        seq![digit_char(n)]
    } else {
        nat_digits(n / 10) + seq![digit_char(n % 10)]
    }
}

/// The decimal text of `i`, with a leading `-` when it is negative.
pub open spec fn decimal(i: int) -> Seq<char> {
    if i < 0 {
        seq!['-'] + nat_digits((-i) as nat)
    } else {
        nat_digits(i as nat)
    }
}

/// The decimal text of `i`, with a leading `-` when it is negative, as
/// `i32::to_string` writes it.
fn int_text(i: i32) -> (r: String)
    ensures
        r@ == decimal(i as int),
{
    if i < 0 {
        let magnitude: u64 = (0i64 - (i as i64)) as u64;
        let mut out = "-".to_owned();
        out.append(decimal_text(magnitude).as_str());
        proof {
            reveal_strlit("-");
        }
        out
    } else {
        decimal_text(i as u64)
    }
}

/// The entity path of a marker under `base_path`.
pub open spec fn marker_path(base_path: Seq<char>, ns: Seq<char>, id: i32) -> Seq<char> {
    if ns.len() == 0 {
        base_path + "/marker_"@ + decimal(id as int)
    } else {
        base_path + "/"@ + ns + "/marker_"@ + decimal(id as int)
    }
}

/// Logs markers to the viewer.
#[derive(Debug, Clone, Copy)]
pub struct MarkerCoreAdapter;

impl MarkerCoreAdapter {
    /// The entity path of the marker with namespace `ns` and identifier `id`:
    /// `<base>/marker_<id>`, or `<base>/<ns>/marker_<id>` when the namespace
    /// is not empty.
    pub fn entity_path(base_path: &str, ns: &str, id: i32) -> (r: String)
        ensures
            r@ == marker_path(base_path@, ns@, id),
    {
        let mut p = base_path.to_owned();
        if !ns.is_empty() {
            p.append("/");
            p.append(ns);
        }
        p.append("/marker_");
        let digits = int_text(id);
        p.append(digits.as_str());
        p
    }
}

/// Logs transforms and frame axes to the viewer.
#[derive(Debug, Clone, Copy)]
pub struct TransformCoreAdapter;

impl TransformCoreAdapter {
    /// The entity path of a frame under `base_path`: `<base>/<frame>`.
    pub fn frame_path(base_path: &str, frame: &str) -> (r: String)
        ensures
            r@ == base_path@ + "/"@ + frame@,
    {
        let mut p = base_path.to_owned();
        p.append("/");
        p.append(frame);
        p
    }

    /// The entity paths of a frame's three axes: `<path>/x`, `<path>/y`,
    /// `<path>/z`.
    pub fn axis_paths(entity_path: &str) -> (r: (String, String, String))
        ensures
            r.0@ == entity_path@ + "/x"@,
            r.1@ == entity_path@ + "/y"@,
            r.2@ == entity_path@ + "/z"@,
    {
        let mut x = entity_path.to_owned();
        x.append("/x");
        let mut y = entity_path.to_owned();
        y.append("/y");
        let mut z = entity_path.to_owned();
        z.append("/z");
        (x, y, z)
    }
}


/// The trajectory after recording `p`: the point is appended, and the oldest
/// point dropped when there are then more than `max`.
pub open spec fn record_point<P>(t: Seq<P>, p: P, max: nat) -> Seq<P> {
    if t.push(p).len() > max {
        t.push(p).drop_first()
    } else {
        t.push(p)
    }
}

/// Logs poses; keeps the trajectory of the latest positions.
#[derive(Debug)]
pub struct PoseAdapter {
    /// Recent positions (x, y, z as single-precision bit patterns), oldest first
    trajectory: Vec<(u32, u32, u32)>,
    /// How many positions are kept
    max_trajectory_points: usize,
}

impl PoseAdapter {
    /// The recorded positions, oldest first.
    pub closed spec fn spec_trajectory(&self) -> Seq<(u32, u32, u32)> {
        self.trajectory@
    }

    /// How many positions are kept.
    pub closed spec fn spec_max(&self) -> nat {
        self.max_trajectory_points as nat
    }

    /// A pose adapter keeping up to `max_trajectory_points` positions.
    pub fn new(max_trajectory_points: usize) -> (r: PoseAdapter)
        ensures
            r.spec_trajectory() == Seq::<(u32, u32, u32)>::empty(),
            r.spec_max() == max_trajectory_points,
    {
        PoseAdapter { trajectory: Vec::new(), max_trajectory_points }
    }

    /// Record a position in the trajectory.
    pub fn record_position(&mut self, point: (u32, u32, u32))
        ensures
            final(self).spec_trajectory() == record_point(
                old(self).spec_trajectory(),
                point,
                old(self).spec_max(),
            ),
            final(self).spec_max() == old(self).spec_max(),
    {
        self.trajectory.push(point);
        if self.trajectory.len() > self.max_trajectory_points {
            self.trajectory.remove(0);
            assert(self.trajectory@ =~= old(self).trajectory@.push(point).drop_first());
        }
    }

    /// The recorded positions, oldest first.
    pub fn trajectory(&self) -> (r: &Vec<(u32, u32, u32)>)
        ensures
            r@ == self.spec_trajectory(),
    {
        &self.trajectory
    }

    /// Clear the trajectory buffer.
    pub fn clear_trajectory(&mut self)
        ensures
            final(self).spec_trajectory() == Seq::<(u32, u32, u32)>::empty(),
            final(self).spec_max() == old(self).spec_max(),
    {
        self.trajectory.clear();
    }
}

impl Default for PoseAdapter {
    fn default() -> (r: Self)
        ensures
            r.spec_trajectory() == Seq::<(u32, u32, u32)>::empty(),
            r.spec_max() == 1000,
    {
        PoseAdapter::new(1000)
    }
}

/// Recording a position never leaves more than the kept number of positions,
/// once there were no more before; the position just recorded is the newest
/// unless none are kept.
pub proof fn law_trajectory_bounded<P>(t: Seq<P>, p: P, max: nat)
    requires
        t.len() <= max,
    ensures
        record_point(t, p, max).len() <= max,
        max > 0 ==> record_point(t, p, max).last() == p,
{
}

} // verus!
