//! The coordinate axes display: its properties, and whether it needs a
//! transform to draw.

use vstd::prelude::*;
use crate::base_display::BaseDisplay;
use crate::display::{DisplayId, DisplayStatus, PropertyValue};
use crate::frame::FrameId;
use crate::text::str_eq;

verus! {

/// The bits of the single-precision number 1.0.
pub open spec fn unit_scale() -> u32 {
    0x3f80_0000
}

/// The bits of the single-precision number 2.0.
pub open spec fn default_line_width() -> u32 {
    0x4000_0000
}

/// The bits of the double-precision number 1.0.
pub open spec fn unit_scale_f64() -> u64 {
    0x3ff0_0000_0000_0000
}

/// Axes display properties. Lengths are single-precision numbers, held as
/// their bits.
#[derive(Debug)]
pub struct AxesProperties {
    /// Reference frame to display axes for
    pub frame: FrameId,
    /// Scale of axes in meters
    pub scale: u32,
    /// Line width
    pub line_width: u32,
    /// Show axis labels
    pub show_labels: bool,
}

impl Default for AxesProperties {
    fn default() -> (r: Self)
        ensures
            r.frame@ == Seq::<char>::empty(),
            r.scale == unit_scale(),
            r.line_width == default_line_width(),
            !r.show_labels,
    {
        proof {
            reveal_strlit("");
        }
        AxesProperties {
            frame: FrameId::new(""),
            scale: 0x3f80_0000,
            line_width: 0x4000_0000,
            show_labels: false,
        }
    }
}

/// Axes display for coordinate frame visualization.
#[derive(Debug)]
pub struct AxesDisplay {
    /// Base display state
    pub base: BaseDisplay,
    /// Axes properties
    pub props: AxesProperties,
}

impl AxesDisplay {
    /// A display named `name` with the default properties.
    pub fn new(id: DisplayId, name: &str) -> (r: AxesDisplay)
        ensures
            r.base.name@ == name@,
            r.base.display_type@ == "axes"@,
            r.base.enabled,
            r.base.properties.wf(),
            r.base.properties.spec_map().dom() =~= set!["frame"@, "scale"@, "show_labels"@],
            r.base.properties.spec_map()["frame"@] matches PropertyValue::String(s) && s@
                == Seq::<char>::empty(),
            r.base.properties.spec_map()["scale"@] == PropertyValue::Float(unit_scale_f64()),
            r.base.properties.spec_map()["show_labels"@] == PropertyValue::Bool(false),
            r.props.frame@ == Seq::<char>::empty(),
            r.props.scale == unit_scale(),
            r.props.line_width == default_line_width(),
            !r.props.show_labels,
    {
        let mut base = BaseDisplay::new(id, name, "axes");
        base.add_property("frame", PropertyValue::String("".to_owned()));
        base.add_property("scale", PropertyValue::Float(0x3ff0_0000_0000_0000));
        base.add_property("show_labels", PropertyValue::Bool(false));
        proof {
            reveal_strlit("");
            reveal_strlit("frame");
            reveal_strlit("scale");
            reveal_strlit("show_labels");
            assert("frame"@[0] != "scale"@[0]);
            assert("frame"@ != "scale"@);
            assert("frame"@.len() != "show_labels"@.len());
            assert("scale"@.len() != "show_labels"@.len());
        }
        AxesDisplay { base, props: AxesProperties::default() }
    }

    /// Set the reference frame.
    pub fn set_frame(&mut self, frame: FrameId)
        ensures
            final(self).props.frame == frame,
            final(self).props.scale == old(self).props.scale,
            final(self).props.line_width == old(self).props.line_width,
            final(self).props.show_labels == old(self).props.show_labels,
            final(self).base == old(self).base,
    {
        self.props.frame = frame;
    }

    /// Set the axes scale (a single-precision number, as its bits).
    pub fn set_scale(&mut self, scale: u32)
        ensures
            final(self).props == (AxesProperties { scale, ..old(self).props }),
            final(self).base == old(self).base,
    {
        self.props.scale = scale;
    }

    /// Set whether to show labels.
    pub fn set_show_labels(&mut self, show: bool)
        ensures
            final(self).props == (AxesProperties { show_labels: show, ..old(self).props }),
            final(self).base == old(self).base,
    {
        self.props.show_labels = show;
    }

    /// Whether drawing needs a transform into `fixed_frame`: not when no
    /// frame is set or the frame is the fixed frame, where the axes stand at
    /// the origin.
    pub fn needs_transform(&self, fixed_frame: &FrameId) -> (r: bool)
        ensures
            r == (self.props.frame@.len() != 0 && self.props.frame@ != fixed_frame@),
    {
        !(self.props.frame.is_empty() || str_eq(self.props.frame.as_str(), fixed_frame.as_str()))
    }

    /// Report that the transform could not be found, with the error's text.
    pub fn report_transform_error(&mut self, error: &str)
        ensures
            final(self).base.status == DisplayStatus::Warning,
            final(self).base.status_message matches Some(m) && m@ == "Transform error: "@
                + error@,
            final(self).props == old(self).props,
    {
        let mut m = "Transform error: ".to_owned();
        m.append(error);
        self.base.set_status(DisplayStatus::Warning, Some(m));
    }

    /// Back to the default properties.
    pub fn reset(&mut self)
        ensures
            final(self).props.frame@ == Seq::<char>::empty(),
            final(self).props.scale == unit_scale(),
            final(self).props.line_width == default_line_width(),
            !final(self).props.show_labels,
            final(self).base == old(self).base,
    {
        self.props = AxesProperties::default();
    }
}

} // verus!
