//! Parsing of GPS-related messages from their ROS1 wire form: NMEA
//! sentences, time references and temperature readings.
//!
//! Doubles are kept as their IEEE-754 bit patterns; turning NMEA text into
//! coordinates is left to the caller.

use vstd::prelude::*;
use crate::errors::RosBagError;
use crate::text::{str_eq, split_chars, split_on, split_prefix, texts};
use crate::wire::{
    le_u32, le_u64, read_u32, read_u64, read_string, utf8_lossy, string_fits,
    string_bytes, header_fits, header_end, header_stamp, header_frame, read_header, RosTime,
};

verus! {

/// A parsed NMEA sentence.
#[derive(Debug, Clone, Default)]
pub struct NmeaSentence {
    /// Timestamp
    pub timestamp: RosTime,
    /// Raw NMEA sentence
    pub sentence: String,
    /// Sentence type (e.g. "GPGGA", "GPRMC")
    pub sentence_type: String,
}

/// A GPS position decoded from a fix sentence; the values are
/// floating-point numbers held as their bit patterns.
#[derive(Debug, Clone, Copy, PartialEq, Eq, Structural, Default)]
pub struct GpsPosition {
    /// Latitude in degrees (double)
    pub latitude: u64,
    /// Longitude in degrees (double)
    pub longitude: u64,
    /// Altitude in meters (double)
    pub altitude: u64,
    /// Fix quality (0=invalid, 1=GPS, 2=DGPS, etc.)
    pub fix_quality: u8,
    /// Number of satellites
    pub num_satellites: u8,
    /// Horizontal dilution of precision (single)
    pub hdop: u32,
}

/// A parsed time reference.
#[derive(Debug, Clone, Default)]
pub struct TimeReference {
    /// Timestamp
    pub timestamp: RosTime,
    /// Time source (e.g. "gps")
    pub source: String,
    /// Referenced time
    pub time_ref: RosTime,
}

/// A parsed temperature reading; the values are doubles held as bit patterns.
#[derive(Debug, Clone, Copy, Default)]
pub struct Temperature {
    /// Timestamp
    pub timestamp: RosTime,
    /// Temperature in Celsius
    pub temperature: u64,
    /// Variance
    pub variance: u64,
}

/// The type of an NMEA sentence: the text after a leading `$` up to the
/// first comma; empty when the sentence does not start with `$`.
pub open spec fn sentence_type_of(s: Seq<char>) -> Seq<char> {
    if s.len() > 0 && s[0] == '$' {
        split_on(s.skip(1), ',')[0]
    } else {
        Seq::empty()
    }
}

/// The type of the NMEA sentence `sentence`.
pub fn sentence_type(sentence: &str) -> (r: String)
    ensures
        r@ == sentence_type_of(sentence@),
{
    let n = sentence.unicode_len();
    if n > 0 && sentence.get_char(0) == '$' {
        let rest = sentence.substring_char(1, n);
        assert(rest@ =~= sentence@.skip(1));
        let pieces = split_chars(rest, ',');
        let first = pieces[0].clone();
        assert(texts(pieces@)[0] == pieces@[0]@);
        first
    } else {
        String::new()
    }
}

/// The sentence types that carry a position fix.
pub open spec fn is_fix_type(t: Seq<char>) -> bool {
    t == "GPGGA"@ || t == "GNGGA"@
}

/// The comma-separated fields of a fix sentence, when it has at least ten.
pub open spec fn gga_fields_of(s: Seq<char>) -> Option<Seq<Seq<char>>> {
    if split_on(s, ',').len() < 10 {
        None
    } else {
        Some(split_on(s, ','))
    }
}

/// The comma-separated fields of a fix sentence; `None` when there are fewer
/// than ten.
pub fn gga_fields(sentence: &str) -> (r: Option<Vec<String>>)
    ensures
        match r {
            Some(v) => gga_fields_of(sentence@) == Some(texts(v@)),
            None => gga_fields_of(sentence@) is None,
        },
{
    let parts = split_chars(sentence, ',');
    if parts.len() < 10 {
        None
    } else {
        Some(parts)
    }
}

impl NmeaSentence {
    /// Whether the sentence carries a position fix (GPGGA or GNGGA).
    pub fn is_position_fix(&self) -> (r: bool)
        ensures
            r == is_fix_type(self.sentence_type@),
    {
        str_eq(self.sentence_type.as_str(), "GPGGA") || str_eq(
            self.sentence_type.as_str(),
            "GNGGA",
        )
    }
}

/// The sentence string of an NMEA message lies within it.
pub open spec fn nmea_fits(s: Seq<u8>) -> bool {
    header_fits(s) && string_fits(s, header_end(s))
}

/// The time reference's time and source lie within the message.
pub open spec fn time_reference_fits(s: Seq<u8>) -> bool {
    header_fits(s) && string_fits(s, header_end(s) + 8)
}

/// The temperature and variance lie within the message.
pub open spec fn temperature_fits(s: Seq<u8>) -> bool {
    header_fits(s) && header_end(s) + 16 <= s.len()
}

/// The header's frame name is followed by at least `k` bytes.
fn header_then(data: &[u8], k: usize) -> (r: bool)
    requires
        data@.len() >= 16,
    ensures
        r == (header_fits(data@) && header_end(data@) + k <= data@.len()),
{
    let n = data.len();
    let flen = read_u32(data, 12) as usize;
    flen <= n - 16 && n - 16 - flen >= k
}

/// Parses GPS-related messages and remembers the frame and stamp of the last
/// one.
pub struct GpsProcessor {
    /// Last frame ID
    pub frame_id: String,
    /// Last timestamp
    pub timestamp: RosTime,
    /// Last decoded GPS position
    pub last_position: Option<GpsPosition>,
}

impl GpsProcessor {
    /// Create a new GPS processor.
    pub fn new() -> (r: Self)
        ensures
            r.frame_id@ == Seq::<char>::empty(),
            r.timestamp == (RosTime { sec: 0, nsec: 0 }),
            r.last_position is None,
    {
        GpsProcessor {
            frame_id: String::new(),
            timestamp: RosTime { sec: 0, nsec: 0 },
            last_position: None,
        }
    }

    /// Get the last known GPS position.
    pub fn last_position(&self) -> (r: Option<GpsPosition>)
        ensures
            r == self.last_position,
    {
        self.last_position
    }

    /// Whether `parse_nmea` reads `data` to its end.
    pub fn can_parse_nmea(data: &[u8]) -> (r: bool)
        ensures
            r == (data@.len() < 20 || nmea_fits(data@)),
    {
        if data.len() < 20 {
            return true;
        }
        if !header_then(data, 4) {
            return false;
        }
        let h = 16 + read_u32(data, 12) as usize;
        let slen = read_u32(data, h) as usize;
        slen <= data.len() - h - 4
    }

    /// Whether `parse_time_reference` reads `data` to its end.
    pub fn can_parse_time_reference(data: &[u8]) -> (r: bool)
        ensures
            r == (data@.len() < 24 || time_reference_fits(data@)),
    {
        if data.len() < 24 {
            return true;
        }
        if !header_then(data, 12) {
            return false;
        }
        let h = 16 + read_u32(data, 12) as usize;
        let slen = read_u32(data, h + 8) as usize;
        slen <= data.len() - h - 12
    }

    /// Whether `parse_temperature` reads `data` to its end.
    pub fn can_parse_temperature(data: &[u8]) -> (r: bool)
        ensures
            r == (data@.len() < 32 || temperature_fits(data@)),
    {
        if data.len() < 32 {
            return true;
        }
        header_then(data, 16)
    }

    /// Parse an NMEA sentence message (header, then the sentence string).
    /// Decoding the position of a fix sentence, which is floating-point work,
    /// is left to the caller: `last_position` is not changed here.
    pub fn parse_nmea(&mut self, data: &[u8]) -> (r: Result<NmeaSentence, RosBagError>)
        requires
            data@.len() < 20 || nmea_fits(data@),
        ensures
            data@.len() < 20 ==> {
                &&& r matches Err(RosBagError::ParseError(m)) && m@ == "Data too short for NMEA message"@
                &&& *final(self) == *old(self)
            },
            data@.len() >= 20 ==> {
                &&& final(self).frame_id@ == header_frame(data@)
                &&& final(self).timestamp == header_stamp(data@)
                &&& final(self).last_position == old(self).last_position
                &&& r matches Ok(m) && {
                    &&& m.timestamp == header_stamp(data@)
                    &&& m.sentence@ == utf8_lossy(string_bytes(data@, header_end(data@)))
                    &&& m.sentence_type@ == sentence_type_of(m.sentence@)
                }
            },
    {
        if data.len() < 20 {
            return Err(RosBagError::ParseError("Data too short for NMEA message".to_string()));
        }
        let header = read_header(data);
        self.timestamp = header.stamp;
        self.frame_id = header.frame_id;
        let (sentence, _end) = read_string(data, header.end);
        let sentence_type = sentence_type(sentence.as_str());
        Ok(NmeaSentence { timestamp: self.timestamp, sentence, sentence_type })
    }

    /// Parse a time reference message (header, then `time_ref` as seconds and
    /// nanoseconds, then the source string).
    pub fn parse_time_reference(&mut self, data: &[u8]) -> (r: Result<
        TimeReference,
        RosBagError,
    >)
        requires
            data@.len() < 24 || time_reference_fits(data@),
        ensures
            data@.len() < 24 ==> {
                &&& r matches Err(RosBagError::ParseError(m)) && m@ == "Data too short for TimeReference"@
                &&& *final(self) == *old(self)
            },
            data@.len() >= 24 ==> {
                &&& final(self).frame_id@ == header_frame(data@)
                &&& final(self).timestamp == header_stamp(data@)
                &&& final(self).last_position == old(self).last_position
                &&& r matches Ok(t) && {
                    &&& t.timestamp == header_stamp(data@)
                    &&& t.time_ref == (RosTime {
                        sec: le_u32(data@, header_end(data@)) as u32,
                        nsec: le_u32(data@, header_end(data@) + 4) as u32,
                    })
                    &&& t.source@ == utf8_lossy(string_bytes(data@, header_end(data@) + 8))
                }
            },
    {
        if data.len() < 24 {
            return Err(RosBagError::ParseError("Data too short for TimeReference".to_string()));
        }
        let header = read_header(data);
        self.timestamp = header.stamp;
        self.frame_id = header.frame_id;
        let h = header.end;
        let ref_sec = read_u32(data, h);
        let ref_nsec = read_u32(data, h + 4);
        let (source, _end) = read_string(data, h + 8);
        Ok(
            TimeReference {
                timestamp: self.timestamp,
                source,
                time_ref: RosTime { sec: ref_sec, nsec: ref_nsec },
            },
        )
    }

    /// Parse a temperature message (header, then the temperature and its
    /// variance as doubles).
    pub fn parse_temperature(&mut self, data: &[u8]) -> (r: Result<Temperature, RosBagError>)
        requires
            data@.len() < 32 || temperature_fits(data@),
        ensures
            data@.len() < 32 ==> {
                &&& r matches Err(RosBagError::ParseError(m)) && m@ == "Data too short for Temperature"@
                &&& *final(self) == *old(self)
            },
            data@.len() >= 32 ==> {
                &&& final(self).frame_id@ == header_frame(data@)
                &&& final(self).timestamp == header_stamp(data@)
                &&& final(self).last_position == old(self).last_position
                &&& r matches Ok(t) && {
                    &&& t.timestamp == header_stamp(data@)
                    &&& t.temperature == le_u64(data@, header_end(data@))
                    &&& t.variance == le_u64(data@, header_end(data@) + 8)
                }
            },
    {
        if data.len() < 32 {
            return Err(RosBagError::ParseError("Data too short for Temperature".to_string()));
        }
        let header = read_header(data);
        self.timestamp = header.stamp;
        self.frame_id = header.frame_id;
        let h = header.end;
        let temperature = read_u64(data, h);
        let variance = read_u64(data, h + 8);
        Ok(Temperature { timestamp: self.timestamp, temperature, variance })
    }
}

impl Default for GpsProcessor {
    fn default() -> (r: Self)
        ensures
            r.frame_id@ == Seq::<char>::empty(),
            r.timestamp == (RosTime { sec: 0, nsec: 0 }),
            r.last_position is None,
    {
        GpsProcessor::new()
    }
}

proof fn lemma_split_before_sep(t: Seq<char>, rest: Seq<char>, sep: char, n: nat)
    requires
        !t.contains(sep),
        n <= t.len(),
    ensures
        split_prefix(t + seq![sep] + rest, sep, n) == seq![t.take(n as int)],
    decreases n,
{
    let s = t + seq![sep] + rest;
    if n == 0 {
        assert(t.take(0) =~= Seq::<char>::empty());
    } else {
        lemma_split_before_sep(t, rest, sep, (n - 1) as nat);
        assert(s[n - 1] == t[n - 1]);
        assert(t.contains(t[n - 1]));
        assert(t.take(n - 1).push(t[n - 1]) =~= t.take(n as int));
        assert(seq![t.take(n - 1)].update(0, t.take(n - 1).push(t[n - 1])) =~= seq![t.take(n as int)]);
    }
}

proof fn lemma_split_after_sep(t: Seq<char>, rest: Seq<char>, sep: char, n: nat)
    requires
        !t.contains(sep),
        t.len() < n <= t.len() + 1 + rest.len(),
    ensures
        split_prefix(t + seq![sep] + rest, sep, n).len() >= 2,
        split_prefix(t + seq![sep] + rest, sep, n)[0] == t,
    decreases n,
{
    let s = t + seq![sep] + rest;
    if n == t.len() + 1 {
        lemma_split_before_sep(t, rest, sep, t.len());
        assert(t.take(t.len() as int) =~= t);
        assert(s[n - 1] == sep);
    } else {
        lemma_split_after_sep(t, rest, sep, (n - 1) as nat);
    }
}

/// The type of a sentence `$<t>,<rest>` is `t`, for a type without commas;
/// such a sentence carries a position fix exactly when `t` is `GPGGA` (GPS
/// alone) or `GNGGA` (several satellite systems).
pub proof fn law_fix_sentence_types(t: Seq<char>, rest: Seq<char>)
    requires
        !t.contains(','),
    ensures
        sentence_type_of(seq!['$'] + t + seq![','] + rest) == t,
        is_fix_type(sentence_type_of(seq!['$'] + t + seq![','] + rest)) <==> (t == "GPGGA"@ || t
            == "GNGGA"@),
{
    let s = seq!['$'] + t + seq![','] + rest;
    assert(s.skip(1) =~= t + seq![','] + rest);
    lemma_split_after_sep(t, rest, ',', t.len() + 1 + rest.len());
    assert((t + seq![','] + rest).len() == t.len() + 1 + rest.len());
}

} // verus!
