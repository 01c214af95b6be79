//! Choices made by the grid, laser scan, robot model and point cloud
//! displays, and the queue of point clouds that decay over time.

use std::path::PathBuf;
use vstd::prelude::*;
use crate::color::{Axis, Color};
use crate::frame::{Timestamp, duration_nanos, duration_as_nanos, duration_from_nanos};
use std::time::Duration;

verus! {

/// A path on the file system, carried through unread.
#[verifier::external_type_specification]
#[verifier::external_body]
pub struct ExPathBuf(PathBuf);

/// Grid plane orientation.
#[derive(Debug, Clone, Copy, PartialEq, Eq, Structural, Default)]
pub enum GridPlane {
    /// XY plane (Z up)
    #[default]
    XY,
    /// XZ plane (Y up)
    XZ,
    /// YZ plane (X up)
    YZ,
}

impl GridPlane {
    /// The axis along the plane's normal.
    pub fn normal_axis(&self) -> (r: Axis)
        ensures
            r == match *self {
                GridPlane::XY => Axis::Z,
                GridPlane::XZ => Axis::Y,
                GridPlane::YZ => Axis::X,
            },
    {
        match self {
            GridPlane::XY => Axis::Z,
            GridPlane::XZ => Axis::Y,
            GridPlane::YZ => Axis::X,
        }
    }

    /// The two axes that span the plane.
    pub fn basis_axes(&self) -> (r: (Axis, Axis))
        ensures
            r == match *self {
                GridPlane::XY => (Axis::X, Axis::Y),
                GridPlane::XZ => (Axis::X, Axis::Z),
                GridPlane::YZ => (Axis::Y, Axis::Z),
            },
    {
        match self {
            GridPlane::XY => (Axis::X, Axis::Y),
            GridPlane::XZ => (Axis::X, Axis::Z),
            GridPlane::YZ => (Axis::Y, Axis::Z),
        }
    }
}

/// Color modes for laser scan visualization.
#[derive(Debug, Clone, Copy)]
pub enum LaserScanColorMode {
    /// Flat color
    Flat(Color),
    /// Color by range (distance)
    Range,
    /// Color by intensity
    Intensity,
    /// Color by angle
    Angle,
}

/// Source of a robot description.
#[derive(Debug)]
pub enum RobotSource {
    /// No robot loaded
    NoRobot,
    /// Load from a URDF file
    File(PathBuf),
    /// Load from URDF text
    String(String),
}


/// A queued point cloud: the cloud, when it was received, and the suffix of
/// its entity path.
#[derive(Debug)]
pub struct QueuedCloud<C> {
    pub cloud: C,
    pub receive_time: Timestamp,
    pub entity_suffix: usize,
}

/// The value of a queued cloud.
pub open spec fn queued_view<C>(q: QueuedCloud<C>) -> (C, i64, usize) {
    (q.cloud, q.receive_time.0, q.entity_suffix)
}

/// The queue after adding a cloud: the oldest clouds are dropped until there
/// is room for one more, then it is appended.
pub open spec fn spec_add<C>(q: Seq<(C, i64, usize)>, e: (C, i64, usize), size: nat) -> Seq<
    (C, i64, usize),
> {
    if q.len() >= size {
        q.skip(q.len() - size + 1).push(e)
    } else {
        q.push(e)
    }
}

/// How many clouds at the front of `q` are older than `decay` nanoseconds
/// at `now`.
pub open spec fn stale_prefix<C>(q: Seq<(C, i64, usize)>, now: i64, decay: int) -> nat
    decreases q.len(),
{
    if q.len() > 0 && now - q[0].1 > decay {
        1 + stale_prefix(q.drop_first(), now, decay)
    } else {
        0
    }
}

/// The queue after pruning at `now`: without decay only the latest cloud
/// stays; with decay, the clouds at the front older than the decay go.
pub open spec fn spec_prune<C>(q: Seq<(C, i64, usize)>, now: i64, decay: int) -> Seq<(C, i64, usize)> {
    if decay == 0 {
        if q.len() > 1 {
            q.skip(q.len() - 1)
        } else {
            q
        }
    } else {
        q.skip(stale_prefix(q, now, decay) as int)
    }
}

/// Point clouds queued for display as they decay.
#[derive(Debug)]
pub struct CloudQueue<C> {
    clouds: Vec<QueuedCloud<C>>,
    /// Counter for unique entity paths
    entity_counter: usize,
    /// Maximum queue size
    queue_size: usize,
    /// Decay time (zero: only the latest cloud is shown)
    decay_time: Duration,
}

impl<C> CloudQueue<C> {
    /// The queued clouds, oldest first.
    pub closed spec fn spec_clouds(&self) -> Seq<(C, i64, usize)> {
        self.clouds@.map_values(|q: QueuedCloud<C>| queued_view(q))
    }

    /// The next entity suffix.
    pub closed spec fn spec_counter(&self) -> usize {
        self.entity_counter
    }

    /// The maximum number of queued clouds.
    pub closed spec fn spec_size(&self) -> usize {
        self.queue_size
    }

    /// The decay time.
    pub closed spec fn spec_decay(&self) -> Duration {
        self.decay_time
    }

    /// The maximum number of queued clouds.
    pub fn queue_size(&self) -> (r: usize)
        ensures
            r == self.spec_size(),
    {
        self.queue_size
    }

    /// The decay time.
    pub fn decay_time(&self) -> (r: Duration)
        ensures
            r == self.spec_decay(),
    {
        self.decay_time
    }

    /// Set the maximum number of queued clouds; the clouds already queued stay.
    pub fn set_queue_size(&mut self, size: usize)
        ensures
            final(self).spec_size() == size,
            final(self).spec_decay() == old(self).spec_decay(),
            final(self).spec_clouds() == old(self).spec_clouds(),
            final(self).spec_counter() == old(self).spec_counter(),
    {
        self.queue_size = size;
    }

    /// Set the decay time.
    pub fn set_decay_time(&mut self, duration: Duration)
        ensures
            final(self).spec_decay() == duration,
            final(self).spec_size() == old(self).spec_size(),
            final(self).spec_clouds() == old(self).spec_clouds(),
            final(self).spec_counter() == old(self).spec_counter(),
    {
        self.decay_time = duration;
    }

    /// An empty queue of at most `queue_size` clouds, with no decay.
    pub fn new(queue_size: usize) -> (r: Self)
        ensures
            r.spec_clouds() == Seq::<(C, i64, usize)>::empty(),
            r.spec_counter() == 0,
            r.spec_size() == queue_size,
            duration_nanos(r.spec_decay()) == 0,
    {
        let r = CloudQueue {
            clouds: Vec::new(),
            entity_counter: 0,
            queue_size,
            decay_time: duration_from_nanos(0),
        };
        assert(r.spec_clouds() =~= Seq::<(C, i64, usize)>::empty());
        r
    }

    /// The number of queued clouds.
    pub fn len(&self) -> (r: usize)
        ensures
            r == self.spec_clouds().len(),
    {
        self.clouds.len()
    }

    /// The queued clouds, oldest first.
    pub fn clouds(&self) -> (r: &Vec<QueuedCloud<C>>)
        ensures
            r@.map_values(|q: QueuedCloud<C>| queued_view(q)) == self.spec_clouds(),
    {
        &self.clouds
    }

    /// Add a point cloud received at `now`, dropping the oldest ones to make
    /// room.
    pub fn add_cloud(&mut self, cloud: C, now: Timestamp)
        requires
            old(self).spec_size() > 0,
        ensures
            final(self).spec_clouds() == spec_add(
                old(self).spec_clouds(),
                (cloud, now.0, old(self).spec_counter()),
                old(self).spec_size() as nat,
            ),
            final(self).spec_counter() == if old(self).spec_counter() == usize::MAX {
                0
            } else {
                (old(self).spec_counter() + 1) as usize
            },
            final(self).spec_size() == old(self).spec_size(),
            final(self).spec_decay() == old(self).spec_decay(),
    {
        let ghost q0 = self.spec_clouds();
        let suffix = self.entity_counter;
        self.entity_counter = self.entity_counter.wrapping_add(1);
        let ghost mut dropped: int = 0;
        while self.clouds.len() >= self.queue_size
            invariant
                self.queue_size == old(self).queue_size,
                self.queue_size > 0,
                self.decay_time == old(self).decay_time,
                self.entity_counter == (if old(self).spec_counter() == usize::MAX {
                    0
                } else {
                    (old(self).spec_counter() + 1) as usize
                }),
                0 <= dropped <= q0.len(),
                self.spec_clouds() == q0.skip(dropped),
                dropped > 0 ==> q0.len() - dropped >= self.queue_size - 1,
                dropped == 0 || q0.len() >= self.queue_size,
            decreases self.clouds@.len(),
        {
            let ghost prev = self.spec_clouds();
            let ghost prev_raw = self.clouds@;
            self.clouds.remove(0);
            proof {
                assert(prev.len() == prev_raw.len());
                assert(self.spec_clouds() =~= prev.drop_first());
                dropped = dropped + 1;
                assert(prev.drop_first() =~= q0.skip(dropped));
            }
        }
        let ghost before = self.spec_clouds();
        self.clouds.push(QueuedCloud { cloud, receive_time: now, entity_suffix: suffix });
        proof {
            assert(self.spec_clouds() =~= before.push((cloud, now.0, suffix)));
            if q0.len() >= self.queue_size {
                assert(dropped == q0.len() - self.queue_size + 1);
            } else {
                assert(dropped == 0);
                assert(q0.skip(0) =~= q0);
            }
        }
    }

    /// Clear the queue and add a single cloud received at `now`.
    pub fn set_cloud(&mut self, cloud: C, now: Timestamp)
        requires
            old(self).spec_size() > 0,
        ensures
            final(self).spec_clouds() == seq![(cloud, now.0, old(self).spec_counter())],
            final(self).spec_size() == old(self).spec_size(),
            final(self).spec_decay() == old(self).spec_decay(),
    {
        self.clouds.clear();
        assert(self.spec_clouds() =~= Seq::<(C, i64, usize)>::empty());
        self.add_cloud(cloud, now);
        assert(spec_add(Seq::<(C, i64, usize)>::empty(), (cloud, now.0, old(self).spec_counter()), self.queue_size as nat) =~= seq![(cloud, now.0, old(self).spec_counter())]);
    }

    /// Prune the clouds at `now`: without decay only the latest stays;
    /// otherwise those older than the decay time go, from the front.
    pub fn prune_old_clouds(&mut self, now: Timestamp)
        ensures
            final(self).spec_clouds() == spec_prune(
                old(self).spec_clouds(),
                now.0,
                duration_nanos(old(self).spec_decay()) as int,
            ),
            final(self).spec_size() == old(self).spec_size(),
            final(self).spec_decay() == old(self).spec_decay(),
            final(self).spec_counter() == old(self).spec_counter(),
    {
        let ghost q0 = self.spec_clouds();
        let decay = duration_as_nanos(&self.decay_time);
        if decay == 0 {
            let ghost mut k: int = 0;
            while self.clouds.len() > 1
                invariant
                    self.queue_size == old(self).queue_size,
                    self.decay_time == old(self).decay_time,
                    self.entity_counter == old(self).entity_counter,
                    0 <= k <= q0.len(),
                    self.spec_clouds() == q0.skip(k),
                    k > 0 ==> q0.len() - k >= 1,
                decreases self.clouds@.len(),
            {
                let ghost prev = self.spec_clouds();
                let ghost prev_raw = self.clouds@;
                self.clouds.remove(0);
                proof {
                    assert(prev.len() == prev_raw.len());
                    assert(self.spec_clouds() =~= prev.drop_first());
                    k = k + 1;
                    assert(prev.drop_first() =~= q0.skip(k));
                }
            }
            proof {
                if q0.len() > 1 {
                    assert(k == q0.len() - 1);
                } else {
                    assert(q0.skip(0) =~= q0);
                }
            }
            return;
        }
        let ghost mut k: int = 0;
        loop
            invariant
                self.queue_size == old(self).queue_size,
                self.decay_time == old(self).decay_time,
                self.entity_counter == old(self).entity_counter,
                decay == duration_nanos(self.decay_time),
                decay != 0,
                0 <= k <= q0.len(),
                self.spec_clouds() == q0.skip(k),
                stale_prefix(q0, now.0, decay as int) == k + stale_prefix(q0.skip(k), now.0, decay as int),
            ensures
                self.spec_clouds() == q0.skip(stale_prefix(q0, now.0, decay as int) as int),
            decreases self.clouds@.len(),
        {
            if self.clouds.len() == 0 {
                break;
            }
            let age = now.0 as i128 - self.clouds[0].receive_time.0 as i128;
            if age > 0 && age as u128 > decay {
                proof {
                    let r = q0.skip(k);
                    assert(r[0] == queued_view(self.clouds@[0]));
                    assert(r.drop_first() =~= q0.skip(k + 1));
                }
                self.clouds.remove(0);
                proof {
                    k = k + 1;
                    assert(self.spec_clouds() =~= q0.skip(k));
                }
            } else {
                proof {
                    let r = q0.skip(k);
                    assert(r[0] == queued_view(self.clouds@[0]));
                }
                break;
            }
        }
    }
}


/// The total number of points in the queued clouds.
pub open spec fn points_in<T>(q: Seq<(Vec<T>, i64, usize)>) -> nat
    decreases q.len(),
{
    if q.len() == 0 {
        0
    } else {
        points_in(q.drop_last()) + q.last().0@.len()
    }
}

impl<T> CloudQueue<Vec<T>> {
    /// The total number of points across all queued clouds.
    pub fn total_points(&self) -> (r: usize)
        requires
            points_in(self.spec_clouds()) <= usize::MAX,
        ensures
            r == points_in(self.spec_clouds()),
    {
        let mut total: usize = 0;
        let mut i: usize = 0;
        while i < self.clouds.len()
            invariant
                i <= self.clouds@.len(),
                self.spec_clouds().len() == self.clouds@.len(),
                points_in(self.spec_clouds()) <= usize::MAX,
                total == points_in(self.spec_clouds().take(i as int)),
            decreases self.clouds@.len() - i,
        {
            proof {
                let q = self.spec_clouds();
                assert(q.take(i as int + 1).drop_last() =~= q.take(i as int));
                lemma_points_in_prefix(q, i as int + 1);
            }
            total = total + self.clouds[i].cloud.len();
            i = i + 1;
        }
        proof {
            assert(self.spec_clouds().take(i as int) =~= self.spec_clouds());
        }
        total
    }
}

/// The points of a prefix are no more than those of the whole queue.
proof fn lemma_points_in_prefix<T>(q: Seq<(Vec<T>, i64, usize)>, n: int)
    requires
        0 <= n <= q.len(),
    ensures
        points_in(q.take(n)) <= points_in(q),
    decreases q.len() - n,
{
    if n < q.len() {
        lemma_points_in_prefix(q, n + 1);
        assert(q.take(n + 1).drop_last() =~= q.take(n));
    } else {
        assert(q.take(n) =~= q);
    }
}

/// Adding a cloud to a queue that is not over its size leaves it within its
/// size, with the cloud added as the newest; pruning without decay keeps the
/// newest cloud alone.
pub proof fn law_queue_bounded<C>(
    q: Seq<(C, i64, usize)>,
    e: (C, i64, usize),
    size: nat,
    now: i64,
    decay: int,
)
    requires
        size > 0,
    ensures
        q.len() <= size ==> spec_add(q, e, size).len() <= size,
        spec_add(q, e, size).last() == e,
        q.len() > 0 && decay == 0 ==> spec_prune(q, now, decay).len() == 1 && spec_prune(
            q,
            now,
            decay,
        ).last() == q.last(),
{
    if q.len() > 0 && decay == 0 && q.len() > 1 {
        assert(q.skip(q.len() - 1).last() == q.last());
    }
}

} // verus!
