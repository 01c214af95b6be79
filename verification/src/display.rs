//! Display status, identifiers and errors.

use vstd::prelude::*;
use crate::frame::{FrameId, Timestamp};
use crate::assoc::{assoc_find, assoc_key_list, assoc_map, assoc_put, assoc_take, assoc_wf};
use crate::text::texts;

verus! {

/// Errors that can occur during display operations.
#[derive(Debug)]
pub enum DisplayError {
    NotFound(String),
    InvalidConfig(String),
    TransformUnavailable { frame: String, timestamp: Timestamp },
    RenderError(String),
    ResourceNotFound(String),
    InitializationFailed(String),
}

/// Status of a display.
#[derive(Debug, Clone, Copy, PartialEq, Eq, Hash, Default)]
pub enum DisplayStatus {
    /// Display is inactive/disabled
    #[default]
    Disabled,
    /// Display is initializing
    Initializing,
    /// Display is active and working
    Active,
    /// Display has a warning but still functional
    Warning,
    /// Display has an error and cannot function
    Error,
}

impl DisplayStatus {
    /// Check if display is in a functional state.
    pub fn is_functional(&self) -> (r: bool)
        ensures
            r == (*self == DisplayStatus::Active || *self == DisplayStatus::Warning),
    {
        match self {
            DisplayStatus::Active | DisplayStatus::Warning => true,
            _ => false,
        }
    }

    /// Check if display is enabled.
    pub fn is_enabled(&self) -> (r: bool)
        ensures
            r == (*self != DisplayStatus::Disabled),
    {
        match self {
            DisplayStatus::Disabled => false,
            _ => true,
        }
    }
}

/// Unique identifier for a display instance.
#[derive(Debug, Clone, Copy, PartialEq, Eq, Hash)]
pub struct DisplayId(pub u64);

/// Transform provider for a scene without transforms: every frame coincides with
/// the fixed frame.
#[derive(Debug, Default)]
pub struct IdentityTransformProvider {
    fixed_frame: FrameId,
}

impl IdentityTransformProvider {
    pub fn new(fixed_frame: FrameId) -> (r: IdentityTransformProvider)
        ensures
            r.spec_fixed_frame() == fixed_frame@,
    {
        IdentityTransformProvider { fixed_frame }
    }

    /// The fixed frame's name.
    pub closed spec fn spec_fixed_frame(&self) -> Seq<char> {
        self.fixed_frame@
    }

    /// Get the fixed frame.
    pub fn fixed_frame(&self) -> (r: &FrameId)
        ensures
            r@ == self.spec_fixed_frame(),
    {
        &self.fixed_frame
    }

    /// Every transform is available.
    pub fn can_transform(&self, target_frame: &FrameId, source_frame: &FrameId, time: &Timestamp) -> (r: bool)
        ensures
            r,
    {
        true
    }

    /// Get all known frame IDs: the fixed frame alone.
    pub fn all_frame_ids(&self) -> (r: Vec<FrameId>)
        ensures
            r@.len() == 1,
            r@[0]@ == self.spec_fixed_frame(),
    {
        let mut v = Vec::new();
        v.push(self.fixed_frame.clone());
        v
    }
}


/// Metadata about a display type.
#[derive(Debug, Clone)]
pub struct DisplayInfo {
    /// Unique type name (e.g., "PointCloud2", "Marker", "Grid")
    pub display_type: String,
    /// Human-readable display name
    pub display_name: String,
    /// Description of what this display does
    pub description: String,
    /// Category for grouping in the interface
    pub category: String,
}

impl DisplayInfo {
    /// Metadata with the given texts.
    pub fn new(display_type: &str, display_name: &str, description: &str, category: &str) -> (r:
        DisplayInfo)
        ensures
            r.display_type@ == display_type@,
            r.display_name@ == display_name@,
            r.description@ == description@,
            r.category@ == category@,
    {
        DisplayInfo {
            display_type: display_type.to_owned(),
            display_name: display_name.to_owned(),
            description: description.to_owned(),
            category: category.to_owned(),
        }
    }
}

/// A property's value. Floating-point values are held as their bits.
#[derive(Debug, PartialEq)]
pub enum PropertyValue {
    Bool(bool),
    Int(i64),
    /// A double-precision number, as its bits
    Float(u64),
    String(String),
    Color([u8; 4]),
    /// Three single-precision numbers, as their bits
    Vec3([u32; 3]),
}

impl Clone for PropertyValue {
    fn clone(&self) -> (r: Self)
        ensures
            r == *self,
    {
        match self {
            PropertyValue::Bool(v) => PropertyValue::Bool(*v),
            PropertyValue::Int(v) => PropertyValue::Int(*v),
            PropertyValue::Float(v) => PropertyValue::Float(*v),
            PropertyValue::String(v) => PropertyValue::String(v.clone()),
            PropertyValue::Color(v) => PropertyValue::Color(*v),
            PropertyValue::Vec3(v) => PropertyValue::Vec3(*v),
        }
    }
}

impl PropertyValue {
    /// The value if it is a boolean.
    pub fn as_bool(&self) -> (r: Option<bool>)
        ensures
            r == match *self {
                PropertyValue::Bool(v) => Some(v),
                _ => None,
            },
    {
        match self {
            PropertyValue::Bool(v) => Some(*v),
            _ => None,
        }
    }

    /// The value if it is an integer.
    pub fn as_int(&self) -> (r: Option<i64>)
        ensures
            r == match *self {
                PropertyValue::Int(v) => Some(v),
                _ => None,
            },
    {
        match self {
            PropertyValue::Int(v) => Some(*v),
            _ => None,
        }
    }

    /// The value if it is a string.
    pub fn as_string(&self) -> (r: Option<&str>)
        ensures
            match *self {
                PropertyValue::String(v) => r matches Some(t) && t@ == v@,
                _ => r is None,
            },
    {
        match self {
            PropertyValue::String(v) => Some(v.as_str()),
            _ => None,
        }
    }
}

impl From<bool> for PropertyValue {
    fn from(v: bool) -> (r: Self) {
        PropertyValue::Bool(v)
    }
}

impl vstd::std_specs::convert::FromSpecImpl<bool> for PropertyValue {
    open spec fn obeys_from_spec() -> bool {
        true
    }

    open spec fn from_spec(v: bool) -> Self {
        PropertyValue::Bool(v)
    }
}

impl From<i64> for PropertyValue {
    fn from(v: i64) -> (r: Self) {
        PropertyValue::Int(v)
    }
}

impl vstd::std_specs::convert::FromSpecImpl<i64> for PropertyValue {
    open spec fn obeys_from_spec() -> bool {
        true
    }

    open spec fn from_spec(v: i64) -> Self {
        PropertyValue::Int(v)
    }
}

impl From<String> for PropertyValue {
    fn from(v: String) -> (r: Self) {
        PropertyValue::String(v)
    }
}

impl vstd::std_specs::convert::FromSpecImpl<String> for PropertyValue {
    open spec fn obeys_from_spec() -> bool {
        true
    }

    open spec fn from_spec(v: String) -> Self {
        PropertyValue::String(v)
    }
}

/// Property metadata.
#[derive(Debug, Clone)]
pub struct PropertyMeta {
    /// Property name
    pub name: String,
    /// Human-readable label
    pub label: String,
    /// Description/tooltip
    pub description: String,
    /// Default value
    pub default: PropertyValue,
    /// Whether property is read-only
    pub read_only: bool,
}

impl PropertyMeta {
    /// Metadata of a writable property.
    pub fn new(name: &str, label: &str, description: &str, default: PropertyValue) -> (r:
        PropertyMeta)
        ensures
            r.name@ == name@,
            r.label@ == label@,
            r.description@ == description@,
            r.default == default,
            !r.read_only,
    {
        PropertyMeta {
            name: name.to_owned(),
            label: label.to_owned(),
            description: description.to_owned(),
            default,
            read_only: false,
        }
    }

    /// The same metadata, read-only.
    pub fn read_only(self) -> (r: PropertyMeta)
        ensures
            r == (PropertyMeta { read_only: true, ..self }),
    {
        PropertyMeta { read_only: true, ..self }
    }
}

/// A set of named property values; no name occurs twice.
#[derive(Debug, Clone)]
pub struct Properties {
    values: Vec<(String, PropertyValue)>,
}

impl Default for Properties {
    fn default() -> (r: Self)
        ensures
            r.wf(),
            r.spec_map() == Map::<Seq<char>, PropertyValue>::empty(),
    {
        Properties::new()
    }
}

impl Properties {
    /// The values by name.
    pub closed spec fn spec_map(&self) -> Map<Seq<char>, PropertyValue> {
        assoc_map(self.values@)
    }

    /// No name occurs twice.
    pub closed spec fn wf(&self) -> bool {
        assoc_wf(self.values@)
    }

    /// No properties.
    pub fn new() -> (r: Properties)
        ensures
            r.wf(),
            r.spec_map() == Map::<Seq<char>, PropertyValue>::empty(),
    {
        Properties { values: Vec::new() }
    }

    /// Set the value named `name`.
    pub fn set(&mut self, name: &str, value: PropertyValue)
        requires
            old(self).wf(),
        ensures
            final(self).wf(),
            final(self).spec_map() == old(self).spec_map().insert(name@, value),
    {
        assoc_put(&mut self.values, name, value);
    }

    /// The value named `name`, if there is one.
    pub fn get(&self, name: &str) -> (r: Option<&PropertyValue>)
        requires
            self.wf(),
        ensures
            match r {
                Some(v) => self.spec_map().dom().contains(name@) && *v == self.spec_map()[name@],
                None => !self.spec_map().dom().contains(name@),
            },
    {
        match assoc_find(&self.values, name) {
            Some(i) => Some(&self.values[i].1),
            None => None,
        }
    }

    /// The boolean named `name`, if there is one.
    pub fn get_bool(&self, name: &str) -> (r: Option<bool>)
        requires
            self.wf(),
        ensures
            r == (if self.spec_map().dom().contains(name@) {
                match self.spec_map()[name@] {
                    PropertyValue::Bool(v) => Some(v),
                    _ => None,
                }
            } else {
                None
            }),
    {
        match self.get(name) {
            Some(v) => v.as_bool(),
            None => None,
        }
    }

    /// The integer named `name`, if there is one.
    pub fn get_int(&self, name: &str) -> (r: Option<i64>)
        requires
            self.wf(),
        ensures
            r == (if self.spec_map().dom().contains(name@) {
                match self.spec_map()[name@] {
                    PropertyValue::Int(v) => Some(v),
                    _ => None,
                }
            } else {
                None
            }),
    {
        match self.get(name) {
            Some(v) => v.as_int(),
            None => None,
        }
    }

    /// The string named `name`, if there is one.
    pub fn get_string(&self, name: &str) -> (r: Option<&str>)
        requires
            self.wf(),
        ensures
            match r {
                Some(t) => self.spec_map().dom().contains(name@) && (self.spec_map()[name@] matches PropertyValue::String(v) && t@ == v@),
                None => !(self.spec_map().dom().contains(name@) && self.spec_map()[name@] is String),
            },
    {
        match self.get(name) {
            Some(v) => v.as_string(),
            None => None,
        }
    }

    /// Whether there is a value named `name`.
    pub fn contains(&self, name: &str) -> (r: bool)
        requires
            self.wf(),
        ensures
            r == self.spec_map().dom().contains(name@),
    {
        assoc_find(&self.values, name).is_some()
    }

    /// Remove the value named `name`, giving it back.
    pub fn remove(&mut self, name: &str) -> (r: Option<PropertyValue>)
        requires
            old(self).wf(),
        ensures
            final(self).wf(),
            final(self).spec_map() == old(self).spec_map().remove(name@),
            match r {
                Some(v) => old(self).spec_map().dom().contains(name@) && v == old(self).spec_map()[name@],
                None => !old(self).spec_map().dom().contains(name@),
            },
    {
        assoc_take(&mut self.values, name)
    }

    /// The names of the values, each once.
    pub fn keys(&self) -> (r: Vec<String>)
        requires
            self.wf(),
        ensures
            texts(r@).to_set() == self.spec_map().dom(),
            texts(r@).no_duplicates(),
    {
        assoc_key_list(&self.values)
    }

    /// Merge in `other`: its values win over those of the same name.
    pub fn merge(&mut self, other: &Properties)
        requires
            old(self).wf(),
            other.wf(),
        ensures
            final(self).wf(),
            final(self).spec_map() == old(self).spec_map().union_prefer_right(other.spec_map()),
    {
        let mut i: usize = 0;
        assert(assoc_map(other.values@.take(0)) =~= Map::<Seq<char>, PropertyValue>::empty());
        assert(old(self).spec_map().union_prefer_right(Map::<Seq<char>, PropertyValue>::empty())
            =~= old(self).spec_map());
        while i < other.values.len()
            invariant
                i <= other.values@.len(),
                other.wf(),
                self.wf(),
                self.spec_map() == old(self).spec_map().union_prefer_right(
                    assoc_map(other.values@.take(i as int)),
                ),
            decreases other.values@.len() - i,
        {
            let name = other.values[i].0.as_str();
            let value = other.values[i].1.clone();
            self.set(name, value);
            proof {
                assert(other.values@.take(i as int + 1).drop_last() =~= other.values@.take(i as int));
                assert(self.spec_map() =~= old(self).spec_map().union_prefer_right(
                    assoc_map(other.values@.take(i as int + 1)),
                ));
            }
            i = i + 1;
        }
        proof {
            assert(other.values@.take(i as int) =~= other.values@);
        }
    }
}

/// A value read back after it is set is the value set; setting one name
/// leaves every other name as it was.
pub proof fn law_property_read_after_write(
    m: Map<Seq<char>, PropertyValue>,
    name: Seq<char>,
    value: PropertyValue,
    other: Seq<char>,
)
    ensures
        m.insert(name, value).dom().contains(name),
        m.insert(name, value)[name] == value,
        other != name ==> (m.insert(name, value).dom().contains(other) == m.dom().contains(other)),
        other != name && m.dom().contains(other) ==> m.insert(name, value)[other] == m[other],
{
}

/// After a merge, a name of the merged-in set has its value from there; any
/// other name keeps its value.
pub proof fn law_merge_prefers_other(
    mine: Map<Seq<char>, PropertyValue>,
    other: Map<Seq<char>, PropertyValue>,
    name: Seq<char>,
)
    ensures
        other.dom().contains(name) ==> mine.union_prefer_right(other)[name] == other[name],
        !other.dom().contains(name) && mine.dom().contains(name) ==> mine.union_prefer_right(
            other,
        )[name] == mine[name],
        mine.union_prefer_right(other).dom() == mine.dom().union(other.dom()),
{
}

/// A name removed is gone; the others stay.
pub proof fn law_property_remove(
    m: Map<Seq<char>, PropertyValue>,
    name: Seq<char>,
    other: Seq<char>,
)
    ensures
        !m.remove(name).dom().contains(name),
        other != name ==> m.remove(name).dom().contains(other) == m.dom().contains(other),
        other != name && m.dom().contains(other) ==> m.remove(name)[other] == m[other],
{
}

} // verus!
