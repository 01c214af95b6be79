use mviz::axes_display::{AxesDisplay, AxesProperties};
use mviz::display::{DisplayId, DisplayStatus, PropertyValue};
use mviz::frame::FrameId;

#[test]
fn test_axes_properties_default() {
    let props = AxesProperties::default();
    assert_eq!(f32::from_bits(props.scale), 1.0);
    assert!(!props.show_labels);
}

#[test]
fn test_axes_display_creation() {
    let axes = AxesDisplay::new(DisplayId(1), "Frame Axes");
    assert_eq!(axes.base.name, "Frame Axes");
    assert_eq!(axes.base.display_type, "axes");
    assert!(axes.base.enabled);
}

#[test]
fn test_axes_display_set_frame() {
    let mut axes = AxesDisplay::new(DisplayId(2), "Test");
    axes.set_frame(FrameId::new("base_link"));
    assert_eq!(axes.props.frame.as_str(), "base_link");
}

#[test]
fn test_axes_display_set_scale() {
    let mut axes = AxesDisplay::new(DisplayId(3), "Test");
    axes.set_scale(0.5f32.to_bits());
    assert_eq!(f32::from_bits(axes.props.scale), 0.5);
}

#[test]
fn axes_transform_need_and_errors() {
    let mut axes = AxesDisplay::new(DisplayId(4), "Test");
    let world = FrameId::new("world");
    assert!(!axes.needs_transform(&world));
    axes.set_frame(FrameId::new("world"));
    assert!(!axes.needs_transform(&world));
    axes.set_frame(FrameId::new("base_link"));
    assert!(axes.needs_transform(&world));
    axes.report_transform_error("no path");
    assert_eq!(axes.base.status, DisplayStatus::Warning);
    assert_eq!(axes.base.status_message.as_deref(), Some("Transform error: no path"));
    axes.set_show_labels(true);
    assert!(axes.props.show_labels);
    axes.reset();
    assert!(!axes.props.show_labels);
    assert_eq!(axes.props.frame.as_str(), "");
    assert_eq!(
        axes.base.properties.get("scale"),
        Some(&PropertyValue::Float(1.0f64.to_bits()))
    );
    assert_eq!(axes.base.properties.get_string("frame"), Some(""));
    assert_eq!(axes.base.properties.get_bool("show_labels"), Some(false));
}
