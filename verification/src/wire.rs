//! Reading the ROS1 wire format: little-endian integers, length-prefixed
//! strings and the standard message header.
//!
//! A ROS1 message header is laid out as
//! `seq: u32 | stamp.sec: u32 | stamp.nsec: u32 | frame_id: string`,
//! and a string is a `u32` byte count followed by that many bytes.

use vstd::prelude::*;
use vstd::utf8::{valid_utf8, decode_utf8};

verus! {

/// The little-endian `u32` held by the four bytes of `s` that start at `off`.
pub open spec fn le_u32(s: Seq<u8>, off: int) -> int {
    s[off] as int + 256 * (s[off + 1] as int) + 65536 * (s[off + 2] as int) + 16777216 * (
    s[off + 3] as int)
}

/// The little-endian `u64` held by the eight bytes of `s` that start at `off`.
pub open spec fn le_u64(s: Seq<u8>, off: int) -> int {
    le_u32(s, off) + 4294967296 * le_u32(s, off + 4)
}

/// Reads the little-endian `u32` at `off`.
pub fn read_u32(data: &[u8], off: usize) -> (r: u32)
    requires
        off + 4 <= data@.len(),
    ensures
        r == le_u32(data@, off as int),
{
    let b0 = data[off] as u32;
    let b1 = data[off + 1] as u32;
    let b2 = data[off + 2] as u32;
    let b3 = data[off + 3] as u32;
    b0 + 256 * b1 + 65536 * b2 + 16777216 * b3
}

/// Reads the little-endian `u64` at `off`.
pub fn read_u64(data: &[u8], off: usize) -> (r: u64)
    requires
        off + 8 <= data@.len(),
    ensures
        r == le_u64(data@, off as int),
{
    let _n = data.len();
    let lo = read_u32(data, off) as u64;
    let hi = read_u32(data, off + 4) as u64;
    lo + 4294967296 * hi
}

/// What `String::from_utf8_lossy` gives for the bytes `b`.
pub uninterp spec fn utf8_lossy(b: Seq<u8>) -> Seq<char>;

/// `String::from_utf8_lossy`, made owned: the text of `bytes`, with each
/// invalid sequence replaced by U+FFFD. The result is named by `utf8_lossy`;
/// the standard library documents that valid UTF-8 comes back unchanged, which
/// is stated. Nothing is claimed of the replacement itself.
#[verifier::external_body]
pub(crate) fn lossy_string(bytes: &[u8]) -> (r: String)
    ensures
        r@ == utf8_lossy(bytes@),
        valid_utf8(bytes@) ==> r@ == decode_utf8(bytes@),
{
    String::from_utf8_lossy(bytes).into_owned()
}

/// A length-prefixed string starting at `off` lies within `s`.
pub open spec fn string_fits(s: Seq<u8>, off: int) -> bool {
    &&& 0 <= off
    &&& off + 4 <= s.len()
    &&& off + 4 + le_u32(s, off) <= s.len()
}

/// The offset just past the length-prefixed string starting at `off`.
pub open spec fn string_end(s: Seq<u8>, off: int) -> int {
    off + 4 + le_u32(s, off)
}

/// The bytes of the length-prefixed string starting at `off`.
pub open spec fn string_bytes(s: Seq<u8>, off: int) -> Seq<u8> {
    s.subrange(off + 4, string_end(s, off))
}

/// Reads the length-prefixed string at `off`; gives its text and the offset
/// just past it.
pub fn read_string(data: &[u8], off: usize) -> (r: (String, usize))
    requires
        string_fits(data@, off as int),
    ensures
        r.0@ == utf8_lossy(string_bytes(data@, off as int)),
        r.1 == string_end(data@, off as int),
{
    let _n = data.len();
    let len = read_u32(data, off) as usize;
    let start = off + 4;
    let end = start + len;
    let text = lossy_string(&data[start..end]);
    (text, end)
}

/// A ROS time: whole seconds and nanoseconds.
#[derive(Debug, Clone, Copy, PartialEq, Eq, Structural, Default)]
pub struct RosTime {
    pub sec: u32,
    pub nsec: u32,
}

/// The header's frame name lies within `s` (its stamp then does too).
pub open spec fn header_fits(s: Seq<u8>) -> bool {
    string_fits(s, 12)
}

/// The header's stamp.
pub open spec fn header_stamp(s: Seq<u8>) -> RosTime {
    RosTime { sec: le_u32(s, 4) as u32, nsec: le_u32(s, 8) as u32 }
}

/// The header's frame name.
pub open spec fn header_frame(s: Seq<u8>) -> Seq<char> {
    utf8_lossy(string_bytes(s, 12))
}

/// The offset just past the header.
pub open spec fn header_end(s: Seq<u8>) -> int {
    string_end(s, 12)
}

/// A message header read from the wire.
pub struct Header {
    pub stamp: RosTime,
    pub frame_id: String,
    /// Offset just past the header
    pub end: usize,
}

/// Reads the header at the start of a message.
pub fn read_header(data: &[u8]) -> (r: Header)
    requires
        header_fits(data@),
    ensures
        r.stamp == header_stamp(data@),
        r.frame_id@ == header_frame(data@),
        r.end == header_end(data@),
{
    let sec = read_u32(data, 4);
    let nsec = read_u32(data, 8);
    let (frame_id, end) = read_string(data, 12);
    Header { stamp: RosTime { sec, nsec }, frame_id, end }
}

} // verus!
