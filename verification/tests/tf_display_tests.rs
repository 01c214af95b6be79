use std::time::Duration;

use mviz::display::{DisplayId, DisplayStatus, PropertyValue};
use mviz::frame::{FrameId, Timestamp};
use mviz::tf_display::{TfDisplay, TfProperties};

#[test]
fn test_tf_properties_default() {
    let props = TfProperties::default();
    assert!(props.show_names);
    assert!(props.show_arrows);
    assert!(props.show_axes);
    assert_eq!(f32::from_bits(props.axis_scale), 0.3);
    assert_eq!(props.frame_timeout, Duration::from_secs(5));
    assert_eq!(props.update_interval, Duration::from_millis(100));
}

#[test]
fn test_tf_display_creation() {
    let tf = TfDisplay::new(DisplayId(1), "TF Tree");
    assert_eq!(tf.base().name, "TF Tree");
    assert_eq!(tf.base().display_type, "tf");
    assert!(tf.base().enabled);
    assert_eq!(
        tf.base().properties.get("axis_scale"),
        Some(&PropertyValue::Float(0.3f64.to_bits()))
    );
    assert_eq!(tf.base().properties.get_bool("show_names"), Some(true));
}

#[test]
fn test_tf_frame_visibility() {
    let mut tf = TfDisplay::new(DisplayId(2), "TF");
    let frame = FrameId::new("test_frame");
    assert!(tf.is_frame_visible(&frame));
    tf.set_frame_visible(&frame, false);
    assert!(!tf.is_frame_visible(&frame));
    tf.set_frame_visible(&frame, true);
    assert!(tf.is_frame_visible(&frame));
}

#[test]
fn tf_staleness_and_status() {
    let mut tf = TfDisplay::new(DisplayId(3), "TF");
    let a = FrameId::new("a");
    let b = FrameId::new("b");
    tf.mark_seen(&a, Timestamp::from_nanos(0));
    tf.mark_seen(&b, Timestamp::from_nanos(4_000_000_000));
    tf.update_staleness(Timestamp::from_nanos(5_000_000_000));
    assert_eq!(tf.stale_count(), 0);
    tf.update_staleness(Timestamp::from_nanos(5_000_000_001));
    assert_eq!(tf.stale_count(), 1);
    tf.finish_update(2);
    assert_eq!(tf.base().status, DisplayStatus::Warning);
    assert_eq!(tf.base().status_message.as_deref(), Some("1 stale frames"));
    tf.mark_seen(&a, Timestamp::from_nanos(5_000_000_001));
    tf.update_staleness(Timestamp::from_nanos(6_000_000_000));
    tf.finish_update(2);
    assert_eq!(tf.base().status, DisplayStatus::Active);
    assert_eq!(tf.base().status_message.as_deref(), Some("2 frames"));
}

#[test]
fn tf_drawing_choice() {
    let mut tf = TfDisplay::new(DisplayId(4), "TF");
    let a = FrameId::new("a");
    tf.set_frame_visible(&a, false);
    assert!(tf.should_draw(&a));
    let mut props = *tf.props();
    props.show_all = false;
    tf.set_props(props);
    assert!(!tf.should_draw(&a));
    assert!(tf.should_draw(&FrameId::new("other")));
    tf.reset();
    assert!(tf.should_draw(&a));
    assert!(tf.is_frame_visible(&a));
    tf.initialize();
    assert_eq!(tf.stale_count(), 0);
}
