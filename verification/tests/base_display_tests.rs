use mviz::base_display::BaseDisplay;
use mviz::display::{DisplayId, DisplayInfo, DisplayStatus, Properties, PropertyMeta, PropertyValue};

#[test]
fn test_base_display_creation() {
    let base = BaseDisplay::new(DisplayId(1), "Test Display", "test_display");
    assert_eq!(base.name, "Test Display");
    assert_eq!(base.display_type, "test_display");
    assert_eq!(base.entity_path, "/test_display");
    assert!(base.enabled);
    assert_eq!(base.status, DisplayStatus::Active);
}

#[test]
fn test_base_display_with_entity_path() {
    let base = BaseDisplay::new(DisplayId(2), "Test", "test").with_entity_path("/custom/path");
    assert_eq!(base.entity_path, "/custom/path");
}

#[test]
fn test_base_display_status() {
    let mut base = BaseDisplay::new(DisplayId(3), "Test", "test");
    base.set_status(DisplayStatus::Warning, Some("Low data rate".into()));
    assert_eq!(base.status, DisplayStatus::Warning);
    assert_eq!(base.status_message.as_deref(), Some("Low data rate"));
    base.clear_status();
    assert_eq!(base.status, DisplayStatus::Active);
    assert!(base.status_message.is_none());
}

#[test]
fn test_base_display_properties() {
    let mut base = BaseDisplay::new(DisplayId(4), "Test", "test");
    base.add_property("alpha", PropertyValue::Float(1.0f64.to_bits()));
    assert!(base.properties.get("alpha").is_some());
}

#[test]
fn base_display_info_and_path() {
    let base = BaseDisplay::new(DisplayId(5), "My Point Cloud", "point_cloud");
    assert_eq!(base.entity_path, "/my_point_cloud");
    assert_eq!(base.info.display_type, "point_cloud");
    assert_eq!(base.info.display_name, "My Point Cloud");
    assert_eq!(base.info.description, "");
    assert_eq!(base.info.category, "dviz");
    assert_eq!(base.id, DisplayId(5));
    let mut base = base;
    base.set_name("Other");
    assert_eq!(base.name, "Other");
    assert_eq!(base.entity_path, "/my_point_cloud");
}

#[test]
fn properties_set_get_remove() {
    let mut p = Properties::new();
    p.set("visible", PropertyValue::Bool(true));
    p.set("count", PropertyValue::Int(20));
    p.set("label", PropertyValue::String("grid".to_string()));
    assert_eq!(p.get_bool("visible"), Some(true));
    assert_eq!(p.get_int("count"), Some(20));
    assert_eq!(p.get_int("visible"), None);
    assert_eq!(p.get_string("label"), Some("grid"));
    assert_eq!(p.get_string("missing"), None);
    p.set("count", PropertyValue::Int(30));
    assert_eq!(p.get_int("count"), Some(30));
    let mut keys = p.keys();
    keys.sort();
    assert_eq!(keys, vec!["count", "label", "visible"]);
    assert_eq!(p.remove("count"), Some(PropertyValue::Int(30)));
    assert!(!p.contains("count"));
    assert_eq!(p.remove("count"), None);
    assert!(p.contains("label"));
}

#[test]
fn properties_merge_prefers_other() {
    let mut a = Properties::default();
    a.set("x", PropertyValue::Int(1));
    a.set("y", PropertyValue::Int(2));
    let mut b = Properties::new();
    b.set("y", PropertyValue::Int(20));
    b.set("z", PropertyValue::Color([1, 2, 3, 4]));
    a.merge(&b);
    assert_eq!(a.get_int("x"), Some(1));
    assert_eq!(a.get_int("y"), Some(20));
    assert_eq!(a.get("z"), Some(&PropertyValue::Color([1, 2, 3, 4])));
    assert_eq!(a.keys().len(), 3);
}

#[test]
fn property_values_and_meta() {
    assert_eq!(PropertyValue::from(true), PropertyValue::Bool(true));
    assert_eq!(PropertyValue::from(5i64), PropertyValue::Int(5));
    assert_eq!(PropertyValue::from("a".to_string()).as_string(), Some("a"));
    assert_eq!(PropertyValue::Int(3).as_bool(), None);
    assert_eq!(PropertyValue::Vec3([0, 0, 0]).as_int(), None);
    let meta = PropertyMeta::new("size", "Size", "Point size", PropertyValue::Int(1)).read_only();
    assert!(meta.read_only);
    assert_eq!(meta.label, "Size");
    let info = DisplayInfo::new("Grid", "Grid", "A grid", "core");
    assert_eq!(info.category, "core");
}
