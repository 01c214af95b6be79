//! Frame identifiers and timestamps.

use std::time::{Duration, SystemTime};
use vstd::prelude::*;

verus! {

// ---------------------------------------------------------------------------
// FrameId
// ---------------------------------------------------------------------------

/// Identifier of a coordinate frame: the frame's name.
#[derive(Debug, Hash, Default)]
pub struct FrameId(pub String);

impl View for FrameId {
    type V = Seq<char>;

    open spec fn view(&self) -> Seq<char> {
        self.0@
    }
}

impl FrameId {
    /// Creates a frame identifier holding `id`.
    pub fn new(id: &str) -> (r: FrameId)
        ensures
            r@ == id@,
    {
        FrameId(id.to_owned())
    }

    /// The frame's name.
    pub fn as_str(&self) -> (r: &str)
        ensures
            r@ == self@,
    {
        self.0.as_str()
    }

    /// Whether the name is empty.
    pub fn is_empty(&self) -> (r: bool)
        ensures
            r == (self@.len() == 0),
    {
        self.0.as_str().is_empty()
    }

    /// The frame's name as an owned string.
    pub fn to_string(&self) -> (r: String)
        ensures
            r@ == self@,
    {
        self.0.clone()
    }
}

impl Clone for FrameId {
    fn clone(&self) -> (r: Self)
        ensures
            r@ == self@,
    {
        FrameId(self.0.clone())
    }
}

impl PartialEq for FrameId {
    fn eq(&self, other: &Self) -> (r: bool) {
        self.0 == other.0
    }
}

impl vstd::std_specs::cmp::PartialEqSpecImpl for FrameId {
    open spec fn obeys_eq_spec() -> bool {
        true
    }

    open spec fn eq_spec(&self, other: &Self) -> bool {
        self@ == other@
    }
}

impl Eq for FrameId {
}

impl From<&str> for FrameId {
    fn from(s: &str) -> (r: Self)
        ensures
            r@ == s@,
    {
        FrameId(s.to_owned())
    }
}


impl vstd::std_specs::convert::FromSpecImpl<&str> for FrameId {
    /// A `String` cannot be built from a `&str` in a specification, so no value
    /// is given here; the conversion itself states that the name is kept.
    open spec fn obeys_from_spec() -> bool {
        false
    }

    open spec fn from_spec(s: &str) -> Self {
        arbitrary()
    }
}

impl From<String> for FrameId {
    fn from(s: String) -> (r: Self) {
        FrameId(s)
    }
}

impl vstd::std_specs::convert::FromSpecImpl<String> for FrameId {
    open spec fn obeys_from_spec() -> bool {
        true
    }

    open spec fn from_spec(s: String) -> Self {
        FrameId(s)
    }
}

// ---------------------------------------------------------------------------
// Timestamp
// ---------------------------------------------------------------------------

/// The number of nanoseconds that `std::time::Duration::as_nanos` reports for `d`.
pub uninterp spec fn duration_nanos(d: Duration) -> u128;

/// `Duration::as_nanos`: the total number of whole nanoseconds in `d`. The value is
/// named by `duration_nanos`; nothing more is claimed of it.
#[verifier::external_body]
pub(crate) fn duration_as_nanos(d: &Duration) -> (r: u128)
    ensures
        r == duration_nanos(*d),
{
    d.as_nanos()
}

/// `Duration::from_nanos`: a duration of exactly `n` nanoseconds, so that
/// `as_nanos` gives `n` back, as the standard library documents.
#[verifier::external_body]
pub(crate) fn duration_from_nanos(n: u64) -> (r: Duration)
    ensures
        duration_nanos(r) == n,
{
    Duration::from_nanos(n)
}

/// A point in time of the system clock.
#[verifier::external_type_specification]
#[verifier::external_body]
pub struct ExSystemTime(SystemTime);

/// `SystemTime::now`: the current time of the system clock. Nothing is claimed of it.
#[verifier::external_body]
fn system_time_now() -> SystemTime {
    SystemTime::now()
}

/// `SystemTime::duration_since(UNIX_EPOCH)`: the time elapsed since the Unix epoch,
/// or none when the clock is before the epoch. Nothing is claimed of the value.
#[verifier::external_body]
fn elapsed_since_epoch(t: &SystemTime) -> Option<Duration> {
    t.duration_since(std::time::UNIX_EPOCH).ok()
}

/// Timestamp in nanoseconds since epoch.
#[derive(Debug, Clone, Copy, PartialEq, Eq, PartialOrd, Ord, Hash, Default)]
pub struct Timestamp(pub i64);

impl Timestamp {
    /// Create timestamp from nanoseconds.
    pub fn from_nanos(nanos: i64) -> (r: Timestamp)
        ensures
            r.0 == nanos,
    {
        Timestamp(nanos)
    }

    /// Create timestamp from a duration; the nanosecond count is cut to 64 bits
    /// as an `as` conversion does.
    pub fn from_duration(duration: Duration) -> (r: Timestamp)
        ensures
            r.0 == duration_nanos(duration) as i64,
    {
        let n = duration_as_nanos(&duration);
        Timestamp(n as i64)
    }

    /// The timestamp of a clock reading `elapsed` since the Unix epoch: its
    /// nanoseconds cut to 64 bits, or the epoch itself when the clock was
    /// before it (`None`).
    pub fn from_elapsed(elapsed: Option<Duration>) -> (r: Timestamp)
        ensures
            r.0 == match elapsed {
                Some(d) => duration_nanos(d) as i64,
                None => 0,
            },
    {
        match elapsed {
            Some(d) => Timestamp::from_duration(d),
            None => Timestamp(0),
        }
    }

    /// Get current time; the epoch itself when the clock is before it.
    /// Whatever the clock reads, the result is the epoch or the nanoseconds of
    /// some duration, cut to 64 bits.
    pub fn now() -> (r: Timestamp)
        ensures
            r.0 == 0 || exists|d: Duration| r.0 == #[trigger] duration_nanos(d) as i64,
    {
        let t = system_time_now();
        let elapsed = elapsed_since_epoch(&t);
        let r = Timestamp::from_elapsed(elapsed);
        proof {
            match elapsed {
                Some(d) => {
                    assert(r.0 == duration_nanos(d) as i64);
                },
                None => {},
            }
        }
        r
    }

    /// Convert to nanoseconds.
    pub fn as_nanos(&self) -> (r: i64)
        ensures
            r == self.0,
    {
        self.0
    }

    /// Convert to a duration; none when the timestamp is negative.
    pub fn as_duration(&self) -> (r: Option<Duration>)
        ensures
            self.0 >= 0 <==> r is Some,
            r matches Some(d) ==> duration_nanos(d) == self.0,
    {
        if self.0 >= 0 {
            Some(duration_from_nanos(self.0 as u64))
        } else {
            None
        }
    }
}

} // verus!
