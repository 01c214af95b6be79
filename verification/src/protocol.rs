//! The message protocol: log levels, dataflow descriptions and message framing.
//!
//! A message is a JSON header, optionally followed by a newline and a binary
//! payload.

use std::collections::HashMap;
use vstd::prelude::*;
use crate::text::str_eq;

verus! {

// ============================================================================
// Log levels
// ============================================================================

/// Log level for system messages.
#[derive(Debug, Clone, Copy, PartialEq, Eq, PartialOrd, Ord, Default)]
pub enum LogLevel {
    /// Debug information
    Debug,
    /// General information
    #[default]
    Info,
    /// Warning messages
    Warn,
    /// Error messages
    Error,
}

/// What `str::to_uppercase` gives for a string with the characters `s`.
pub uninterp spec fn spec_to_uppercase(s: Seq<char>) -> Seq<char>;

/// The upper-case form of an ASCII letter; other characters are kept.
pub open spec fn ascii_upper(c: char) -> char {
    if 'a' <= c && c <= 'z' {
        ((c as u32) - 32) as char
    } else {
        c
    }
}

/// Every character is ASCII.
pub open spec fn all_ascii(s: Seq<char>) -> bool {
    forall|i: int| 0 <= i < s.len() ==> (s[i] as u32) < 128
}

/// `str::to_uppercase`: the Unicode upper-case form of `s`, named by
/// `spec_to_uppercase`. For text made of ASCII characters alone the standard
/// library documents the ASCII mapping, which is stated; nothing is claimed of
/// other characters.
#[verifier::external_body]
fn to_uppercase(s: &str) -> (r: String)
    ensures
        r@ == spec_to_uppercase(s@),
        all_ascii(s@) ==> r@ == s@.map_values(|c: char| ascii_upper(c)),
{
    s.to_uppercase()
}

/// The level that an upper-case level name selects; any other name selects `Info`.
pub open spec fn level_of(u: Seq<char>) -> LogLevel {
    if u == "DEBUG"@ {
        LogLevel::Debug
    } else if u == "INFO"@ {
        LogLevel::Info
    } else if u == "WARN"@ || u == "WARNING"@ {
        LogLevel::Warn
    } else if u == "ERROR"@ || u == "ERR"@ {
        LogLevel::Error
    } else {
        LogLevel::Info
    }
}

/// `s` with its ASCII letters in upper case, as `str::to_uppercase` gives
/// ASCII text.
pub open spec fn ascii_upper_text(s: Seq<char>) -> Seq<char> {
    s.map_values(|c: char| ascii_upper(c))
}

/// The display name of each level.
pub open spec fn level_name(l: LogLevel) -> Seq<char> {
    match l {
        LogLevel::Debug => "DEBUG"@,
        LogLevel::Info => "INFO"@,
        LogLevel::Warn => "WARN"@,
        LogLevel::Error => "ERROR"@,
    }
}

impl LogLevel {
    /// The level named by an upper-case name.
    pub fn from_uppercase(u: &str) -> (r: LogLevel)
        ensures
            r == level_of(u@),
    {
        if str_eq(u, "DEBUG") {
            LogLevel::Debug
        } else if str_eq(u, "INFO") {
            LogLevel::Info
        } else if str_eq(u, "WARN") || str_eq(u, "WARNING") {
            LogLevel::Warn
        } else if str_eq(u, "ERROR") || str_eq(u, "ERR") {
            LogLevel::Error
        } else {
            LogLevel::Info
        }
    }

    /// Parse log level from string (case-insensitive).
    pub fn from_str(s: &str) -> (r: LogLevel)
        ensures
            r == level_of(spec_to_uppercase(s@)),
            all_ascii(s@) ==> r == level_of(ascii_upper_text(s@)),
    {
        let u = to_uppercase(s);
        LogLevel::from_uppercase(u.as_str())
    }

    /// Get display name.
    pub fn as_str(&self) -> (r: &'static str)
        ensures
            r@ == level_name(*self),
    {
        match self {
            LogLevel::Debug => "DEBUG",
            LogLevel::Info => "INFO",
            LogLevel::Warn => "WARN",
            LogLevel::Error => "ERROR",
        }
    }

    /// Get color for UI display [r, g, b, a].
    pub fn color(&self) -> (r: [u8; 4])
        ensures
            r@ == match *self {
                LogLevel::Debug => seq![128u8, 128u8, 128u8, 255u8],
                LogLevel::Info => seq![100u8, 180u8, 255u8, 255u8],
                LogLevel::Warn => seq![255u8, 200u8, 50u8, 255u8],
                LogLevel::Error => seq![255u8, 80u8, 80u8, 255u8],
            },
    {
        match self {
            LogLevel::Debug => [128, 128, 128, 255],
            LogLevel::Info => [100, 180, 255, 255],
            LogLevel::Warn => [255, 200, 50, 255],
            LogLevel::Error => [255, 80, 80, 255],
        }
    }
}

// ============================================================================
// Dataflow descriptions
// ============================================================================

/// Log data payload of a message.
#[derive(Debug, Clone)]
pub struct LogData {
    /// Log level
    pub level: String,
    /// Log message
    pub message: String,
    /// Source node ID
    pub node_id: String,
    /// Optional metadata
    pub metadata: Option<HashMap<String, String>>,
}

/// Node input port definition.
#[derive(Debug, Clone)]
pub struct NodeInputDef {
    /// Input port name
    pub name: String,
    /// Source in format "node_id/output_name"
    pub source: String,
}

/// Node output port definition.
#[derive(Debug, Clone)]
pub struct NodeOutputDef {
    /// Output port name
    pub name: String,
    /// Destination node IDs that receive this output
    pub destinations: Vec<String>,
}

/// Complete node definition from a dataflow description.
#[derive(Debug, Clone)]
pub struct NodeDefinition {
    /// Node ID
    pub id: String,
    /// Input ports
    pub inputs: Vec<NodeInputDef>,
    /// Output ports
    pub outputs: Vec<NodeOutputDef>,
    /// Node operator path
    pub operator: Option<String>,
}

/// Full dataflow definition with all nodes.
#[derive(Debug, Clone)]
pub struct DataflowDefinition {
    /// Dataflow name
    pub name: String,
    /// All nodes in the dataflow
    pub nodes: Vec<NodeDefinition>,
}

/// The texts of a sequence of strings.
pub open spec fn string_texts(v: Seq<String>) -> Seq<Seq<char>> {
    v.map_values(|x: String| x@)
}

impl View for NodeInputDef {
    type V = (Seq<char>, Seq<char>);

    open spec fn view(&self) -> (Seq<char>, Seq<char>) {
        (self.name@, self.source@)
    }
}

impl View for NodeOutputDef {
    type V = (Seq<char>, Seq<Seq<char>>);

    open spec fn view(&self) -> (Seq<char>, Seq<Seq<char>>) {
        (self.name@, string_texts(self.destinations@))
    }
}

/// The value of a node definition.
pub struct NodeDefModel {
    pub id: Seq<char>,
    pub inputs: Seq<(Seq<char>, Seq<char>)>,
    pub outputs: Seq<(Seq<char>, Seq<Seq<char>>)>,
    pub operator: Option<Seq<char>>,
}

impl View for NodeDefinition {
    type V = NodeDefModel;

    open spec fn view(&self) -> NodeDefModel {
        NodeDefModel {
            id: self.id@,
            inputs: self.inputs@.map_values(|i: NodeInputDef| i@),
            outputs: self.outputs@.map_values(|o: NodeOutputDef| o@),
            operator: match self.operator {
                Some(s) => Some(s@),
                None => None,
            },
        }
    }
}

// ============================================================================
// Framing
// ============================================================================

/// The byte that separates the header from the payload.
pub const NEWLINE: u8 = 10u8;

/// `p` is the position of the first newline in `s`.
pub open spec fn is_first_newline(s: Seq<u8>, p: int) -> bool {
    &&& 0 <= p < s.len()
    &&& s[p] == NEWLINE
    &&& forall|j: int| 0 <= j < p ==> s[j] != NEWLINE
}

/// The header of a message and its payload: the header is everything before the
/// first newline (the whole message if there is none) and the payload everything
/// after it, absent when nothing follows.
pub open spec fn spec_split(s: Seq<u8>) -> (Seq<u8>, Option<Seq<u8>>) {
    if exists|p: int| is_first_newline(s, p) {
        let p = choose|p: int| is_first_newline(s, p);
        (s.take(p), if p + 1 < s.len() { Some(s.skip(p + 1)) } else { None })
    } else {
        (s, None)
    }
}

/// A message made of a header and an optional payload.
pub open spec fn spec_frame(header: Seq<u8>, payload: Option<Seq<u8>>) -> Seq<u8> {
    match payload {
        Some(b) => header.push(NEWLINE) + b,
        None => header,
    }
}

/// Split a message into its header and its optional binary payload.
pub fn split_message(bytes: &[u8]) -> (r: (&[u8], Option<&[u8]>))
    ensures
        r.0@ == spec_split(bytes@).0,
        match r.1 {
            Some(b) => spec_split(bytes@).1 == Some(b@),
            None => spec_split(bytes@).1 is None,
        },
{
    let n = bytes.len();
    let mut i: usize = 0;
    while i < n
        invariant
            n == bytes@.len(),
            i <= n,
            forall|j: int| 0 <= j < i ==> bytes@[j] != NEWLINE,
        decreases n - i,
    {
        if bytes[i] == NEWLINE {
            assert(is_first_newline(bytes@, i as int));
            let ghost p = choose|p: int| is_first_newline(bytes@, p);
            assert(p == i) by {
                if p < i {
                    assert(bytes@[p] != NEWLINE);
                }
                if p > i {
                    assert(bytes@[i as int] != NEWLINE);
                }
            }
            let header = &bytes[0..i];
            assert(header@ =~= bytes@.take(i as int));
            if i + 1 < n {
                let payload = &bytes[i + 1..n];
                assert(payload@ =~= bytes@.skip(i + 1));
                return (header, Some(payload));
            } else {
                return (header, None);
            }
        }
        i = i + 1;
    }
    (bytes, None)
}

/// Join a header and an optional binary payload into a message.
pub fn frame_message(header: &[u8], payload: Option<&[u8]>) -> (r: Vec<u8>)
    ensures
        r@ == spec_frame(header@, match payload {
            Some(b) => Some(b@),
            None => None,
        }),
{
    let mut out: Vec<u8> = Vec::new();
    let mut i: usize = 0;
    while i < header.len()
        invariant
            i <= header@.len(),
            out@ == header@.take(i as int),
        decreases header@.len() - i,
    {
        out.push(header[i]);
        assert(out@ =~= header@.take(i as int + 1));
        i = i + 1;
    }
    assert(out@ =~= header@);
    if let Some(data) = payload {
        out.push(NEWLINE);
        let ghost base = out@;
        let mut k: usize = 0;
        while k < data.len()
            invariant
                k <= data@.len(),
                out@ == base + data@.take(k as int),
            decreases data@.len() - k,
        {
            out.push(data[k]);
            assert(out@ =~= base + data@.take(k as int + 1));
            k = k + 1;
        }
        assert(out@ =~= base + data@);
    }
    out
}

/// Splitting a framed message gives back its header and payload, provided the
/// header holds no newline; an empty payload comes back as none.
pub proof fn law_split_undoes_frame(header: Seq<u8>, payload: Option<Seq<u8>>)
    requires
        forall|j: int| 0 <= j < header.len() ==> header[j] != NEWLINE,
    ensures
        spec_split(spec_frame(header, payload)) == (header, match payload {
            Some(b) => if b.len() > 0 { Some(b) } else { None::<Seq<u8>> },
            None => None::<Seq<u8>>,
        }),
{
    let s = spec_frame(header, payload);
    match payload {
        Some(b) => {
            let p = header.len() as int;
            assert(s[p] == NEWLINE);
            assert(is_first_newline(s, p));
            let q = choose|q: int| is_first_newline(s, q);
            assert(q == p) by {
                if q < p {
                    assert(s[q] == header[q]);
                }
            }
            assert(s.take(p) =~= header);
            assert(s.skip(p + 1) =~= b);
        },
        None => {
            assert(!exists|p: int| is_first_newline(s, p));
        },
    }
}


/// Each level's display name is ASCII text that reads back, in any case, as
/// that level.
pub proof fn law_level_name_round_trip(l: LogLevel)
    ensures
        all_ascii(level_name(l)),
        level_of(ascii_upper_text(level_name(l))) == l,
{
    reveal_strlit("DEBUG");
    reveal_strlit("INFO");
    reveal_strlit("WARN");
    reveal_strlit("ERROR");
    reveal_strlit("WARNING");
    reveal_strlit("ERR");
    assert(ascii_upper_text(level_name(l)) =~= level_name(l));
    match l {
        LogLevel::Debug => {},
        LogLevel::Info => {
            assert("INFO"@.len() != "DEBUG"@.len());
        },
        LogLevel::Warn => {
            assert("WARN"@[0] != "INFO"@[0]);
            assert("WARN"@.len() != "DEBUG"@.len());
        },
        LogLevel::Error => {
            assert("ERROR"@[0] != "DEBUG"@[0]);
            assert("ERROR"@.len() != "INFO"@.len() && "ERROR"@.len() != "WARN"@.len());
            assert("ERROR"@.len() != "WARNING"@.len());
        },
    }
}

/// Reading a level ignores case: for ASCII text, upper-casing it first
/// selects the same level.
pub proof fn law_level_ignores_case(s: Seq<char>)
    requires
        all_ascii(s),
    ensures
        all_ascii(ascii_upper_text(s)),
        level_of(ascii_upper_text(ascii_upper_text(s))) == level_of(ascii_upper_text(s)),
{
    assert(ascii_upper_text(ascii_upper_text(s)) =~= ascii_upper_text(s));
}

} // verus!
