//! Parsing of IMU messages from their ROS1 wire form.
//!
//! After the header come the orientation quaternion (x, y, z, w), its
//! covariance (9 values), the angular velocity (x, y, z), its covariance,
//! the linear acceleration (x, y, z) and its covariance; every value is a
//! little-endian double. Values are kept as their IEEE-754 bit patterns.

use vstd::prelude::*;
use crate::errors::RosBagError;
use crate::wire::{
    le_u64, read_u64, header_fits, header_end, header_stamp, header_frame, string_bytes,
    read_header, RosTime,
};

verus! {

/// Parsed IMU data; every value is a double held as its bit pattern.
#[derive(Debug, Clone, Copy, Default)]
pub struct ImuData {
    /// Length in bytes of the frame name
    pub frame_id_len: usize,
    /// Timestamp
    pub timestamp: RosTime,
    /// Orientation quaternion (x, y, z, w)
    pub orientation: [u64; 4],
    /// Angular velocity (x, y, z) in rad/s
    pub angular_velocity: [u64; 3],
    /// Linear acceleration (x, y, z) in m/s^2
    pub linear_acceleration: [u64; 3],
}

/// The `n` doubles of `s` that start at `off`, as bit patterns.
pub open spec fn doubles_at(s: Seq<u8>, off: int, n: nat) -> Seq<u64> {
    Seq::new(n, |i: int| le_u64(s, off + 8 * i) as u64)
}

/// Where the orientation starts.
pub open spec fn orientation_at(s: Seq<u8>) -> int {
    header_end(s)
}

/// Where the angular velocity starts: past the orientation and its covariance.
pub open spec fn angular_velocity_at(s: Seq<u8>) -> int {
    header_end(s) + 32 + 72
}

/// Where the linear acceleration starts: past the angular velocity and its
/// covariance.
pub open spec fn linear_acceleration_at(s: Seq<u8>) -> int {
    angular_velocity_at(s) + 24 + 72
}

/// Every value that is read lies within the message.
pub open spec fn imu_fits(s: Seq<u8>) -> bool {
    header_fits(s) && linear_acceleration_at(s) + 24 <= s.len()
}

/// Reads three doubles starting at `off`.
fn read_doubles3(data: &[u8], off: usize) -> (r: [u64; 3])
    requires
        off + 24 <= data@.len(),
    ensures
        r@ == doubles_at(data@, off as int, 3),
{
    let _n = data.len();
    let r = [read_u64(data, off), read_u64(data, off + 8), read_u64(data, off + 16)];
    assert(r@ =~= doubles_at(data@, off as int, 3));
    r
}

/// Parses IMU messages and remembers the frame and stamp of the last one.
pub struct ImuProcessor {
    /// Frame ID of the last processed message
    pub frame_id: String,
    /// Timestamp of the last processed message
    pub timestamp: RosTime,
}

impl ImuProcessor {
    /// Create a new IMU processor.
    pub fn new() -> (r: Self)
        ensures
            r.frame_id@ == Seq::<char>::empty(),
            r.timestamp == (RosTime { sec: 0, nsec: 0 }),
    {
        ImuProcessor { frame_id: String::new(), timestamp: RosTime { sec: 0, nsec: 0 } }
    }

    /// Whether `parse` reads `data` to its end: either it is refused as too
    /// short, or every value read lies within it.
    pub fn can_parse(data: &[u8]) -> (r: bool)
        ensures
            r == (data@.len() < 100 || imu_fits(data@)),
    {
        let n = data.len();
        if n < 100 {
            return true;
        }
        let flen = crate::wire::read_u32(data, 12) as usize;
        flen <= n - 16 && n - 16 - flen >= 224
    }

    /// Parse an IMU message from its serialized bytes.
    pub fn parse(&mut self, data: &[u8]) -> (r: Result<ImuData, RosBagError>)
        requires
            data@.len() < 100 || imu_fits(data@),
        ensures
            data@.len() < 100 ==> {
                &&& r matches Err(RosBagError::ParseError(m)) && m@ == "Data too short for Imu message"@
                &&& *final(self) == *old(self)
            },
            data@.len() >= 100 ==> {
                &&& final(self).frame_id@ == header_frame(data@)
                &&& final(self).timestamp == header_stamp(data@)
                &&& r matches Ok(d) && {
                    &&& d.frame_id_len == string_bytes(data@, 12).len()
                    &&& d.timestamp == header_stamp(data@)
                    &&& d.orientation@ == doubles_at(data@, orientation_at(data@), 4)
                    &&& d.angular_velocity@ == doubles_at(data@, angular_velocity_at(data@), 3)
                    &&& d.linear_acceleration@ == doubles_at(
                        data@,
                        linear_acceleration_at(data@),
                        3,
                    )
                }
            },
    {
        if data.len() < 100 {
            return Err(RosBagError::ParseError("Data too short for Imu message".to_string()));
        }
        let header = read_header(data);
        self.timestamp = header.stamp;
        self.frame_id = header.frame_id;
        let h = header.end;
        let frame_id_len = h - 16;
        let orientation = [
            read_u64(data, h),
            read_u64(data, h + 8),
            read_u64(data, h + 16),
            read_u64(data, h + 24),
        ];
        assert(orientation@ =~= doubles_at(data@, h as int, 4));
        let angular_velocity = read_doubles3(data, h + 104);
        let linear_acceleration = read_doubles3(data, h + 200);
        Ok(
            ImuData {
                frame_id_len,
                timestamp: self.timestamp,
                orientation,
                angular_velocity,
                linear_acceleration,
            },
        )
    }
}

impl Default for ImuProcessor {
    fn default() -> (r: Self)
        ensures
            r.frame_id@ == Seq::<char>::empty(),
            r.timestamp == (RosTime { sec: 0, nsec: 0 }),
    {
        ImuProcessor::new()
    }
}

/// The values of an IMU message follow its header in the order the message
/// type lays them out, each a little-endian double: the orientation
/// quaternion (four), its covariance (nine), the angular velocity (three), its
/// covariance (nine), then the linear acceleration (three).
pub proof fn law_imu_layout(s: Seq<u8>, i: int)
    requires
        0 <= i < 4,
    ensures
        orientation_at(s) == header_end(s),
        angular_velocity_at(s) == orientation_at(s) + 8 * 4 + 8 * 9,
        linear_acceleration_at(s) == angular_velocity_at(s) + 8 * 3 + 8 * 9,
        doubles_at(s, orientation_at(s), 4)[i] == le_u64(s, orientation_at(s) + 8 * i),
        i < 3 ==> doubles_at(s, angular_velocity_at(s), 3)[i] == le_u64(s, angular_velocity_at(s) + 8 * i),
        i < 3 ==> doubles_at(s, linear_acceleration_at(s), 3)[i] == le_u64(
            s,
            linear_acceleration_at(s) + 8 * i,
        ),
{
}

} // verus!
