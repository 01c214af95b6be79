//! The state that every display shares: its name, type, entity path,
//! whether it is enabled, its status and its properties.

use vstd::prelude::*;
use crate::display::{DisplayId, DisplayInfo, DisplayStatus, Properties, PropertyValue};
use crate::text::{replace_spaces, spaces_to_underscores, spec_to_lowercase, to_lowercase};

verus! {

/// The entity path of a display named `name`: a slash, then the name in
/// lower case with its spaces turned into underscores.
pub open spec fn entity_path_for(name: Seq<char>) -> Seq<char> {
    seq!['/'] + spaces_to_underscores(spec_to_lowercase(name))
}

/// Common state for all displays.
#[derive(Debug)]
pub struct BaseDisplay {
    /// Display name
    pub name: String,
    /// Display type name
    pub display_type: String,
    /// Entity path in the viewer
    pub entity_path: String,
    /// Whether display is enabled
    pub enabled: bool,
    /// Current status
    pub status: DisplayStatus,
    /// Status message
    pub status_message: Option<String>,
    /// Properties container
    pub properties: Properties,
    /// Unique display ID
    pub id: DisplayId,
    /// Display info
    pub info: DisplayInfo,
}

impl BaseDisplay {
    /// A new enabled display with status OK and no properties, named `name`,
    /// of type `display_type`, with the identifier `id`.
    pub fn new(id: DisplayId, name: &str, display_type: &str) -> (r: BaseDisplay)
        ensures
            r.name@ == name@,
            r.display_type@ == display_type@,
            r.entity_path@ == entity_path_for(name@),
            r.enabled,
            r.status == DisplayStatus::Active,
            r.status_message is None,
            r.properties.wf(),
            r.properties.spec_map() == Map::<Seq<char>, PropertyValue>::empty(),
            r.id == id,
            r.info.display_type@ == display_type@,
            r.info.display_name@ == name@,
            r.info.description@ == Seq::<char>::empty(),
            r.info.category@ == "dviz"@,
    {
        let lower = to_lowercase(name);
        let mut entity_path = "/".to_owned();
        entity_path.append(replace_spaces(lower.as_str()).as_str());
        proof {
            reveal_strlit("/");
            reveal_strlit("");
        }
        let info = DisplayInfo::new(display_type, name, "", "dviz");
        BaseDisplay {
            name: name.to_owned(),
            display_type: display_type.to_owned(),
            entity_path,
            enabled: true,
            status: DisplayStatus::Active,
            status_message: None,
            properties: Properties::new(),
            id,
            info,
        }
    }

    /// The same display under another entity path.
    pub fn with_entity_path(self, path: &str) -> (r: BaseDisplay)
        ensures
            r.entity_path@ == path@,
            r == (BaseDisplay { entity_path: r.entity_path, ..self }),
    {
        BaseDisplay { entity_path: path.to_owned(), ..self }
    }

    /// Rename the display.
    pub fn set_name(&mut self, name: &str)
        ensures
            final(self).name@ == name@,
            *final(self) == (BaseDisplay { name: final(self).name, ..*old(self) }),
    {
        self.name = name.to_owned();
    }

    /// Set the status and its message.
    pub fn set_status(&mut self, status: DisplayStatus, message: Option<String>)
        ensures
            *final(self) == (BaseDisplay { status, status_message: message, ..*old(self) }),
    {
        self.status = status;
        self.status_message = message;
    }

    /// Set the status back to OK, with no message.
    pub fn clear_status(&mut self)
        ensures
            *final(self) == (BaseDisplay {
                status: DisplayStatus::Active,
                status_message: None,
                ..*old(self)
            }),
    {
        self.status = DisplayStatus::Active;
        self.status_message = None;
    }

    /// Set the property named `name`.
    pub fn add_property(&mut self, name: &str, value: PropertyValue)
        requires
            old(self).properties.wf(),
        ensures
            final(self).properties.wf(),
            final(self).properties.spec_map() == old(self).properties.spec_map().insert(
                name@,
                value,
            ),
            final(self).name == old(self).name,
            final(self).display_type == old(self).display_type,
            final(self).entity_path == old(self).entity_path,
            final(self).enabled == old(self).enabled,
            final(self).status == old(self).status,
            final(self).status_message == old(self).status_message,
            final(self).id == old(self).id,
    {
        self.properties.set(name, value);
    }
}

} // verus!
