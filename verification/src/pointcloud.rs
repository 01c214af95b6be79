//! Parsing of PointCloud2 messages from their ROS1 wire form.
//!
//! After the header come `height: u32`, `width: u32`, the field descriptions
//! (a `u32` count, then for each a name string, `offset: u32`,
//! `datatype: u8` and `count: u32`), `is_bigendian: u8`, `point_step: u32`,
//! `row_step: u32` and the point bytes (a `u32` length, then the bytes).
//! Coordinates are read as little-endian single-precision values; this
//! library keeps them as their bit patterns.

use vstd::prelude::*;
use crate::errors::RosBagError;
use crate::text::str_eq;
use crate::wire::{
    le_u32, read_u32, lossy_string, utf8_lossy, string_fits, string_end, string_bytes,
    header_fits, header_end, header_stamp, header_frame, read_header, RosTime,
};

verus! {

/// A single point. `x`, `y`, `z` and `intensity` are single-precision values
/// held as their IEEE-754 bit patterns.
#[derive(Debug, Clone, Copy, PartialEq, Eq, Structural, Default)]
pub struct Point {
    pub x: u32,
    pub y: u32,
    pub z: u32,
    pub intensity: u32,
    pub ring: u16,
}

/// The bit pattern is a single-precision NaN: all exponent bits set and a
/// non-zero fraction.
pub open spec fn is_nan_bits(b: u32) -> bool {
    (b & 0x7f80_0000u32) == 0x7f80_0000u32 && (b & 0x007f_ffffu32) != 0u32
}

/// Whether the single-precision value with bit pattern `b` is NaN.
pub fn f32_bits_is_nan(b: u32) -> (r: bool)
    ensures
        r == is_nan_bits(b),
{
    (b & 0x7f80_0000u32) == 0x7f80_0000u32 && (b & 0x007f_ffffu32) != 0u32
}

/// What a point field is used for, by its name.
#[derive(Debug, Clone, Copy, PartialEq, Eq, Structural)]
pub enum FieldRole {
    X,
    Y,
    Z,
    Intensity,
    Other,
}

/// The role of the field named `name`.
pub open spec fn role_of(name: Seq<char>) -> FieldRole {
    if name == "x"@ {
        FieldRole::X
    } else if name == "y"@ {
        FieldRole::Y
    } else if name == "z"@ {
        FieldRole::Z
    } else if name == "intensity"@ {
        FieldRole::Intensity
    } else {
        FieldRole::Other
    }
}

/// The role of the field named `name`.
pub fn field_role(name: &str) -> (r: FieldRole)
    ensures
        r == role_of(name@),
{
    if str_eq(name, "x") {
        FieldRole::X
    } else if str_eq(name, "y") {
        FieldRole::Y
    } else if str_eq(name, "z") {
        FieldRole::Z
    } else if str_eq(name, "intensity") {
        FieldRole::Intensity
    } else {
        FieldRole::Other
    }
}

// ---------------------------------------------------------------------------
// The message layout
// ---------------------------------------------------------------------------

/// The field description starting at `o` lies within `s`.
pub open spec fn field_fits(s: Seq<u8>, o: int) -> bool {
    string_fits(s, o) && string_end(s, o) + 9 <= s.len()
}

/// The offset just past the field description starting at `o`.
pub open spec fn field_end(s: Seq<u8>, o: int) -> int {
    string_end(s, o) + 9
}

/// The role of the field described at `o`.
pub open spec fn field_role_at(s: Seq<u8>, o: int) -> FieldRole {
    role_of(utf8_lossy(string_bytes(s, o)))
}

/// The byte offset within a point of the field described at `o`.
pub open spec fn field_offset_at(s: Seq<u8>, o: int) -> u32 {
    le_u32(s, string_end(s, o)) as u32
}

/// The offset just past the first `k` field descriptions from `start`, if
/// they all lie within `s`.
pub open spec fn fields_end(s: Seq<u8>, start: int, k: nat) -> Option<int>
    decreases k,
{
    if k == 0 {
        Some(start)
    } else {
        match fields_end(s, start, (k - 1) as nat) {
            Some(o) => if field_fits(s, o) {
                Some(field_end(s, o))
            } else {
                None
            },
            None => None,
        }
    }
}

/// The offset of the last of the first `k` fields that has role `role`.
pub open spec fn last_offset(s: Seq<u8>, start: int, k: nat, role: FieldRole) -> Option<u32>
    decreases k,
{
    if k == 0 {
        None
    } else {
        match fields_end(s, start, (k - 1) as nat) {
            Some(o) => if field_role_at(s, o) == role {
                Some(field_offset_at(s, o))
            } else {
                last_offset(s, start, (k - 1) as nat, role)
            },
            None => None,
        }
    }
}

/// Once a field description falls outside `s`, so do all the later ones.
proof fn lemma_fields_end_none(s: Seq<u8>, start: int, j: nat, k: nat)
    requires
        j <= k,
        fields_end(s, start, j) is None,
    ensures
        fields_end(s, start, k) is None,
    decreases k - j,
{
    if j < k {
        lemma_fields_end_none(s, start, j, (k - 1) as nat);
    }
}

pub open spec fn or_zero(o: Option<u32>) -> u32 {
    match o {
        Some(v) => v,
        None => 0,
    }
}

/// Where the field descriptions start.
pub open spec fn fields_start(s: Seq<u8>) -> int {
    header_end(s) + 12
}

/// How many field descriptions the message announces.
pub open spec fn num_fields(s: Seq<u8>) -> nat {
    le_u32(s, header_end(s) + 8) as nat
}

/// The offset just past the field descriptions.
pub open spec fn after_fields(s: Seq<u8>) -> int {
    fields_end(s, fields_start(s), num_fields(s))->Some_0
}

/// Everything before the points lies within `s`, the point bytes too.
pub open spec fn cloud_header_fits(s: Seq<u8>) -> bool {
    &&& header_fits(s)
    &&& header_end(s) + 12 <= s.len()
    &&& fields_end(s, fields_start(s), num_fields(s)) is Some
    &&& after_fields(s) + 13 <= s.len()
    &&& after_fields(s) + 13 + le_u32(s, after_fields(s) + 9) <= s.len()
}

/// What the message says of its points' layout.
pub struct CloudLayout {
    pub height: u32,
    pub width: u32,
    pub x_offset: u32,
    pub y_offset: u32,
    pub z_offset: u32,
    pub intensity_offset: u32,
    pub has_intensity: bool,
    pub point_step: u32,
    /// Where the point bytes start in the message
    pub data_start: usize,
    /// How many point bytes there are
    pub data_len: u32,
}

/// The layout of the message `s` (meaningful where `cloud_header_fits(s)`).
pub open spec fn spec_layout(s: Seq<u8>) -> CloudLayout {
    let h = header_end(s);
    let st = fields_start(s);
    let k = num_fields(s);
    let f = after_fields(s);
    CloudLayout {
        height: le_u32(s, h) as u32,
        width: le_u32(s, h + 4) as u32,
        x_offset: or_zero(last_offset(s, st, k, FieldRole::X)),
        y_offset: or_zero(last_offset(s, st, k, FieldRole::Y)),
        z_offset: or_zero(last_offset(s, st, k, FieldRole::Z)),
        intensity_offset: or_zero(last_offset(s, st, k, FieldRole::Intensity)),
        has_intensity: last_offset(s, st, k, FieldRole::Intensity) is Some,
        point_step: le_u32(s, f + 1) as u32,
        data_start: (f + 13) as usize,
        data_len: le_u32(s, f + 9) as u32,
    }
}

impl CloudLayout {
    /// `height * width`, the points announced.
    pub open spec fn num_points(self) -> int {
        self.height * self.width
    }

    /// How many points are read: the announced ones, as far as whole points
    /// fit in the point bytes.
    pub open spec fn count(self) -> int {
        if self.point_step == 0 {
            self.num_points()
        } else if self.num_points() <= self.data_len / self.point_step {
            self.num_points()
        } else {
            (self.data_len / self.point_step) as int
        }
    }

    /// The largest field offset that is read within a point.
    pub open spec fn widest(self) -> int {
        let a = if self.x_offset >= self.y_offset {
            self.x_offset
        } else {
            self.y_offset
        };
        let b = if a >= self.z_offset {
            a
        } else {
            self.z_offset
        };
        let c = if self.has_intensity {
            self.intensity_offset
        } else {
            0
        };
        if b >= c {
            b as int
        } else {
            c as int
        }
    }

    /// Every value read from the points lies within the point bytes.
    pub open spec fn readable(self) -> bool {
        self.count() == 0 || (self.count() - 1) * self.point_step + self.widest() + 4
            <= self.data_len
    }

    /// The `i`-th point of the point bytes `pd`.
    pub open spec fn point_at(self, pd: Seq<u8>, i: int) -> Point {
        let b = i * self.point_step;
        Point {
            x: le_u32(pd, b + self.x_offset) as u32,
            y: le_u32(pd, b + self.y_offset) as u32,
            z: le_u32(pd, b + self.z_offset) as u32,
            intensity: if self.has_intensity {
                le_u32(pd, b + self.intensity_offset) as u32
            } else {
                0
            },
            ring: 0,
        }
    }

    /// The points among the first `n` of `pd` whose coordinates are not NaN,
    /// in order.
    pub open spec fn kept(self, pd: Seq<u8>, n: nat) -> Seq<Point>
        decreases n,
    {
        if n == 0 {
            Seq::empty()
        } else {
            let prev = self.kept(pd, (n - 1) as nat);
            let p = self.point_at(pd, n - 1);
            if keeps(p) {
                prev.push(p)
            } else {
                prev
            }
        }
    }
}

/// A point is kept when none of its coordinates is NaN.
pub open spec fn keeps(p: Point) -> bool {
    !is_nan_bits(p.x) && !is_nan_bits(p.y) && !is_nan_bits(p.z)
}

/// The message can be read to its end: its layout lies within it, the point
/// count fits in 32 bits and every value read lies within the point bytes.
pub open spec fn cloud_fits(s: Seq<u8>) -> bool {
    &&& cloud_header_fits(s)
    &&& spec_layout(s).num_points() <= u32::MAX
    &&& spec_layout(s).readable()
}

/// The point bytes of the message `s`.
pub open spec fn point_bytes(s: Seq<u8>) -> Seq<u8> {
    let l = spec_layout(s);
    s.subrange(l.data_start as int, l.data_start + l.data_len)
}

/// The points that parsing the message `s` gives.
pub open spec fn cloud_points(s: Seq<u8>) -> Seq<Point> {
    let l = spec_layout(s);
    l.kept(point_bytes(s), l.count() as nat)
}

/// Reads the layout of a message; `None` where some part of it before the
/// points, or the point bytes, fall outside `data`.
pub fn read_layout(data: &[u8]) -> (r: Option<CloudLayout>)
    ensures
        match r {
            Some(l) => cloud_header_fits(data@) && l == spec_layout(data@),
            None => !cloud_header_fits(data@),
        },
{
    let n = data.len();
    let ghost s = data@;
    if n < 16 {
        return None;
    }
    let flen = read_u32(data, 12) as usize;
    if flen > n - 16 {
        return None;
    }
    let h = 16 + flen;
    assert(h == header_end(s));
    if n - h < 12 {
        return None;
    }
    let height = read_u32(data, h);
    let width = read_u32(data, h + 4);
    let k = read_u32(data, h + 8);
    let st = h + 12;
    let ghost gst = st as int;
    let mut o = st;
    let mut x_off: Option<u32> = None;
    let mut y_off: Option<u32> = None;
    let mut z_off: Option<u32> = None;
    let mut i_off: Option<u32> = None;
    let mut j: u32 = 0;
    while j < k
        invariant
            n == s.len(),
            s == data@,
            header_fits(s),
            h == header_end(s),
            h + 12 <= n,
            k == num_fields(s),
            gst == fields_start(s),
            st == gst,
            j <= k,
            o <= n,
            fields_end(s, gst, j as nat) == Some(o as int),
            x_off == last_offset(s, gst, j as nat, FieldRole::X),
            y_off == last_offset(s, gst, j as nat, FieldRole::Y),
            z_off == last_offset(s, gst, j as nat, FieldRole::Z),
            i_off == last_offset(s, gst, j as nat, FieldRole::Intensity),
        decreases k - j,
    {
        if n - o < 4 {
            proof {
                lemma_fields_end_none(s, gst, (j + 1) as nat, k as nat);
            }
            return None;
        }
        let name_len = read_u32(data, o) as usize;
        if name_len > n - o - 4 {
            proof {
                lemma_fields_end_none(s, gst, (j + 1) as nat, k as nat);
            }
            return None;
        }
        let ne = o + 4 + name_len;
        if n - ne < 9 {
            proof {
                lemma_fields_end_none(s, gst, (j + 1) as nat, k as nat);
            }
            return None;
        }
        let name = lossy_string(&data[o + 4..ne]);
        let fo = read_u32(data, ne);
        match field_role(name.as_str()) {
            FieldRole::X => {
                x_off = Some(fo);
            },
            FieldRole::Y => {
                y_off = Some(fo);
            },
            FieldRole::Z => {
                z_off = Some(fo);
            },
            FieldRole::Intensity => {
                i_off = Some(fo);
            },
            FieldRole::Other => {},
        }
        o = ne + 9;
        j = j + 1;
    }
    if n - o < 13 {
        return None;
    }
    let ps = read_u32(data, o + 1);
    let dl = read_u32(data, o + 9);
    if dl as usize > n - o - 13 {
        return None;
    }
    let has_intensity = i_off.is_some();
    let x_offset = match x_off {
        Some(v) => v,
        None => 0,
    };
    let y_offset = match y_off {
        Some(v) => v,
        None => 0,
    };
    let z_offset = match z_off {
        Some(v) => v,
        None => 0,
    };
    let intensity_offset = match i_off {
        Some(v) => v,
        None => 0,
    };
    Some(
        CloudLayout {
            height,
            width,
            x_offset,
            y_offset,
            z_offset,
            intensity_offset,
            has_intensity,
            point_step: ps,
            data_start: o + 13,
            data_len: dl,
        },
    )
}


/// Checks that every value read from the points lies within the point bytes
/// of a message with layout `l` whose point count fits in 32 bits.
fn points_readable(l: &CloudLayout) -> (r: bool)
    requires
        l.num_points() <= u32::MAX,
    ensures
        r == l.readable(),
{
    let np = l.height as u64 * l.width as u64;
    let ps = l.point_step as u64;
    let dl = l.data_len as u64;
    let count: u64 = if ps == 0 {
        np
    } else if np <= dl / ps {
        np
    } else {
        dl / ps
    };
    assert(count == l.count());
    if count == 0 {
        return true;
    }
    let a = if l.x_offset >= l.y_offset {
        l.x_offset
    } else {
        l.y_offset
    };
    let b = if a >= l.z_offset {
        a
    } else {
        l.z_offset
    };
    let c = if l.has_intensity {
        l.intensity_offset
    } else {
        0
    };
    let w = if b >= c {
        b
    } else {
        c
    };
    assert((count - 1) * ps <= 0xffff_ffffu64 * 0xffff_ffffu64) by (nonlinear_arith)
        requires
            count - 1 <= 0xffff_ffffu64,
            ps <= 0xffff_ffffu64,
    ;
    (count - 1) * ps + w as u64 + 4 <= dl
}

/// Parses PointCloud2 messages and remembers the frame and stamp of the last
/// one.
pub struct PointCloudProcessor {
    /// Frame ID of the last processed cloud
    pub frame_id: String,
    /// Timestamp of the last processed cloud
    pub timestamp: RosTime,
}

impl PointCloudProcessor {
    /// Create a new point cloud processor.
    pub fn new() -> (r: Self)
        ensures
            r.frame_id@ == Seq::<char>::empty(),
            r.timestamp == (RosTime { sec: 0, nsec: 0 }),
    {
        PointCloudProcessor { frame_id: String::new(), timestamp: RosTime { sec: 0, nsec: 0 } }
    }

    /// Whether `parse` reads `data` to its end: either it is refused as too
    /// short, or every part that is read lies within it.
    pub fn can_parse(data: &[u8]) -> (r: bool)
        ensures
            r == (data@.len() < 32 || cloud_fits(data@)),
    {
        if data.len() < 32 {
            return true;
        }
        match read_layout(data) {
            None => false,
            Some(l) => {
                let hh = l.height as u64;
                let ww = l.width as u64;
                assert(hh * ww <= 0xffff_ffffu64 * 0xffff_ffffu64) by (nonlinear_arith)
                    requires
                        hh <= 0xffff_ffffu64,
                        ww <= 0xffff_ffffu64,
                ;
                if hh * ww > 0xffff_ffffu64 {
                    false
                } else {
                    points_readable(&l)
                }
            },
        }
    }

    /// Parse a PointCloud2 message from its serialized bytes (without the
    /// connection header). Points with a NaN coordinate are left out.
    pub fn parse(&mut self, data: &[u8]) -> (r: Result<Vec<Point>, RosBagError>)
        requires
            data@.len() < 32 || cloud_fits(data@),
        ensures
            data@.len() < 32 ==> {
                &&& r matches Err(RosBagError::ParseError(m)) && m@ == "Data too short for PointCloud2"@
                &&& *final(self) == *old(self)
            },
            data@.len() >= 32 ==> {
                &&& r matches Ok(v) && v@ == cloud_points(data@)
                &&& final(self).frame_id@ == header_frame(data@)
                &&& final(self).timestamp == header_stamp(data@)
            },
    {
        if data.len() < 32 {
            return Err(RosBagError::ParseError("Data too short for PointCloud2".to_string()));
        }
        let ghost s = data@;
        let header = read_header(data);
        self.timestamp = header.stamp;
        self.frame_id = header.frame_id;
        let l = match read_layout(data) {
            Some(l) => l,
            None => {
                return Err(RosBagError::ParseError("Data too short for PointCloud2".to_string()));
            },
        };
        let num_points = (l.height * l.width) as usize;
        let ps = l.point_step as usize;
        let dl = l.data_len as usize;
        let pd = &data[l.data_start..l.data_start + dl];
        assert(pd@ == point_bytes(s));
        let count: usize = if ps == 0 {
            num_points
        } else if num_points <= dl / ps {
            num_points
        } else {
            dl / ps
        };
        assert(count == l.count());
        let mut points: Vec<Point> = Vec::new();
        let mut i: usize = 0;
        while i < count
            invariant
                l == spec_layout(s),
                l.readable(),
                pd@ == point_bytes(s),
                pd@.len() == dl,
                dl == l.data_len,
                ps == l.point_step,
                count == l.count(),
                i <= count,
                points@ == l.kept(pd@, i as nat),
            decreases count - i,
        {
            assert(i * ps <= (count - 1) * ps) by (nonlinear_arith)
                requires
                    i <= count - 1,
            ;
            let base = i * ps;
            let x = read_u32(pd, base + l.x_offset as usize);
            let y = read_u32(pd, base + l.y_offset as usize);
            let z = read_u32(pd, base + l.z_offset as usize);
            let intensity = if l.has_intensity {
                read_u32(pd, base + l.intensity_offset as usize)
            } else {
                0
            };
            let p = Point { x, y, z, intensity, ring: 0 };
            assert(p == l.point_at(pd@, i as int));
            if !f32_bits_is_nan(x) && !f32_bits_is_nan(y) && !f32_bits_is_nan(z) {
                points.push(p);
            }
            i = i + 1;
        }
        Ok(points)
    }
}

impl Default for PointCloudProcessor {
    fn default() -> (r: Self)
        ensures
            r.frame_id@ == Seq::<char>::empty(),
            r.timestamp == (RosTime { sec: 0, nsec: 0 }),
    {
        PointCloudProcessor::new()
    }
}

/// Each point is read at its own place in the point bytes: the `i`-th point
/// starts `i` point steps in, and its x, y, z and intensity are the
/// little-endian values at the offsets of the fields named `x`, `y`, `z` and
/// `intensity` (the last field of each name; zero where there is none, and
/// an intensity of zero without an `intensity` field).
pub proof fn law_point_fields(s: Seq<u8>, i: int)
    requires
        cloud_fits(s),
        0 <= i < spec_layout(s).count(),
    ensures
        ({
            let l = spec_layout(s);
            let pd = point_bytes(s);
            let b = i * l.point_step;
            let p = l.point_at(pd, i);
            let st = fields_start(s);
            let k = num_fields(s);
            &&& role_of("x"@) == FieldRole::X && role_of("y"@) == FieldRole::Y
            &&& role_of("z"@) == FieldRole::Z && role_of("intensity"@) == FieldRole::Intensity
            &&& l.x_offset == or_zero(last_offset(s, st, k, role_of("x"@)))
            &&& l.y_offset == or_zero(last_offset(s, st, k, role_of("y"@)))
            &&& l.z_offset == or_zero(last_offset(s, st, k, role_of("z"@)))
            &&& l.intensity_offset == or_zero(last_offset(s, st, k, role_of("intensity"@)))
            &&& l.has_intensity == last_offset(s, st, k, role_of("intensity"@)) is Some
            &&& p.x == le_u32(pd, b + l.x_offset)
            &&& p.y == le_u32(pd, b + l.y_offset)
            &&& p.z == le_u32(pd, b + l.z_offset)
            &&& p.intensity == if l.has_intensity {
                le_u32(pd, b + l.intensity_offset)
            } else {
                0
            }
        }),
{
    reveal_strlit("x");
    reveal_strlit("y");
    reveal_strlit("z");
    reveal_strlit("intensity");
    assert("y"@ != "x"@) by {
        assert("y"@[0] != "x"@[0]);
    }
    assert("z"@ != "x"@ && "z"@ != "y"@) by {
        assert("z"@[0] != "x"@[0] && "z"@[0] != "y"@[0]);
    }
    assert("intensity"@ != "x"@ && "intensity"@ != "y"@ && "intensity"@ != "z"@) by {
        assert("intensity"@.len() != "x"@.len());
    }
}

proof fn lemma_kept_members(l: CloudLayout, pd: Seq<u8>, n: nat)
    ensures
        forall|p: Point| #[trigger] l.kept(pd, n).contains(p) ==> exists|i: int|
            0 <= i < n && p == l.point_at(pd, i) && keeps(p),
        forall|i: int|
            0 <= i < n && keeps(#[trigger] l.point_at(pd, i)) ==> l.kept(pd, n).contains(
                l.point_at(pd, i),
            ),
    decreases n,
{
    if n > 0 {
        lemma_kept_members(l, pd, (n - 1) as nat);
        let prev = l.kept(pd, (n - 1) as nat);
        let q = l.point_at(pd, n - 1);
        assert forall|p: Point| #[trigger] l.kept(pd, n).contains(p) implies exists|i: int|
            0 <= i < n && p == l.point_at(pd, i) && keeps(p) by {
            if keeps(q) {
                let j = choose|j: int| 0 <= j < prev.push(q).len() && prev.push(q)[j] == p;
                if j < prev.len() {
                    assert(prev.contains(p));
                } else {
                    assert(p == q);
                }
            }
        }
        assert forall|i: int| 0 <= i < n && keeps(#[trigger] l.point_at(pd, i)) implies l.kept(
            pd,
            n,
        ).contains(l.point_at(pd, i)) by {
            if keeps(q) {
                if i < n - 1 {
                    let j = choose|j: int| 0 <= j < prev.len() && prev[j] == l.point_at(pd, i);
                    assert(prev.push(q)[j] == l.point_at(pd, i));
                } else {
                    assert(prev.push(q)[prev.len() as int] == q);
                }
            }
        }
    }
}

/// The points of a message are exactly its points whose coordinates are not
/// NaN: each is one of the points read, with no NaN coordinate, and each such
/// point read is among them.
pub proof fn law_cloud_points_members(s: Seq<u8>)
    ensures
        forall|p: Point| #[trigger] cloud_points(s).contains(p) ==> exists|i: int|
            0 <= i < spec_layout(s).count() && p == spec_layout(s).point_at(point_bytes(s), i)
                && keeps(p),
        forall|i: int|
            0 <= i < spec_layout(s).count() && keeps(
                #[trigger] spec_layout(s).point_at(point_bytes(s), i),
            ) ==> cloud_points(s).contains(spec_layout(s).point_at(point_bytes(s), i)),
{
    let l = spec_layout(s);
    if l.count() >= 0 {
        lemma_kept_members(l, point_bytes(s), l.count() as nat);
    }
}

} // verus!
