use mviz::color::Color;
use mviz::config::{validate_config, GlobalConfig, WindowConfig};
use mviz::display::{DisplayStatus, IdentityTransformProvider};
use mviz::errors::ConfigError;
use mviz::frame::{FrameId, Timestamp};
use mviz::marker::{MarkerKey, MarkerType};
use mviz::mesh::{first_existing, package_candidates, resolve_package_url, PackageLookup, StlLoader};
use mviz::messages::{MessageType, PlaybackState};

#[test]
fn test_window_config_default() {
    let config = WindowConfig::default();
    assert_eq!(config.width, 1280);
    assert_eq!(config.height, 800);
    assert!(!config.maximized);
}

#[test]
fn test_global_config_default() {
    let config = GlobalConfig::default();
    assert_eq!(config.fixed_frame.as_str(), "world");
    assert!(config.show_grid);
    assert!(config.show_axes);
}

#[test]
fn test_display_status() {
    assert!(!DisplayStatus::Disabled.is_enabled());
    assert!(DisplayStatus::Active.is_functional());
    assert!(DisplayStatus::Warning.is_functional());
    assert!(!DisplayStatus::Error.is_functional());
}

#[test]
fn test_marker_type_uses_points() {
    assert!(!MarkerType::Arrow.uses_points());
    assert!(!MarkerType::Cube.uses_points());
    assert!(MarkerType::LineStrip.uses_points());
    assert!(MarkerType::LineList.uses_points());
    assert!(MarkerType::Points.uses_points());
    assert!(MarkerType::TriangleList.uses_points());
}

#[test]
fn test_color_constants() {
    assert_eq!(Color::red().to_rgb(), [255, 0, 0]);
    assert_eq!(Color::green().to_rgb(), [0, 255, 0]);
    assert_eq!(Color::blue().to_rgb(), [0, 0, 255]);
}

#[test]
fn test_frame_id() {
    let frame = FrameId::new("base_link");
    assert_eq!(frame.as_str(), "base_link");
    assert!(!frame.is_empty());

    let frame2: FrameId = "odom".into();
    assert_eq!(frame2.as_str(), "odom");
}

#[test]
fn test_resolve_package_url() {
    // Non-package URL should pass through
    let url = "/path/to/mesh.stl";
    assert_eq!(resolve_package_url(url, &[]), Some(url.to_string()));

    // Package URL with no matching path
    let pkg_url = "package://my_robot/meshes/base.stl";
    assert_eq!(resolve_package_url(pkg_url, &[]), None);
}

#[test]
fn marker_test_marker_key() {
    let key1 = MarkerKey::new("ns", 1);
    let key2 = MarkerKey::new("ns", 1);
    let key3 = MarkerKey::new("ns", 2);

    assert_eq!(key1, key2);
    assert_ne!(key1, key3);
}

#[test]
fn test_message_type_parsing() {
    assert_eq!(
        MessageType::from_ros_type("sensor_msgs/PointCloud2"),
        MessageType::PointCloud2
    );
    assert_eq!(
        MessageType::from_ros_type("tf2_msgs/TFMessage"),
        MessageType::TfMessage
    );
    assert_eq!(
        MessageType::from_ros_type("custom/Type"),
        MessageType::Unknown("custom/Type".to_string())
    );
}

#[test]
fn test_visualizable() {
    assert!(MessageType::PointCloud2.is_visualizable());
    assert!(!MessageType::TfMessage.is_visualizable());
}

#[test]
fn test_playback_state() {
    let state = PlaybackState::Stopped;
    assert_eq!(state, PlaybackState::Stopped);
}

#[test]
fn color_channels_and_alpha() {
    let c = Color::rgb(10, 20, 30);
    assert_eq!(c.to_rgba(), [10, 20, 30, 255]);
    let d = c.with_alpha(7);
    assert_eq!(d.to_rgba(), [10, 20, 30, 7]);
    assert_eq!(Color::rgba(1, 2, 3, 4).to_rgb(), [1, 2, 3]);
}

#[test]
fn message_type_round_trip_names() {
    let t = MessageType::from_ros_type("sensor_msgs/Imu");
    assert_eq!(MessageType::from_ros_type(t.ros_type()), t);
}

#[test]
fn config_validation_errors() {
    let names = vec!["Grid".to_string(), "Axes".to_string()];
    assert!(validate_config("1.0", &names).is_ok());
    match validate_config("", &names) {
        Err(ConfigError::InvalidConfig(m)) => assert_eq!(m, "Missing version"),
        _ => panic!("expected a missing version error"),
    }
    let dup = vec!["Grid".to_string(), "Grid".to_string()];
    match validate_config("1.0", &dup) {
        Err(ConfigError::InvalidConfig(m)) => assert_eq!(m, "Duplicate display name: Grid"),
        _ => panic!("expected a duplicate name error"),
    }
}

#[test]
fn identity_provider_frames() {
    let provider = IdentityTransformProvider::new(FrameId::new("world"));
    assert_eq!(provider.fixed_frame().as_str(), "world");
    let t = Timestamp::from_nanos(5);
    assert!(provider.can_transform(&FrameId::new("a"), &FrameId::new("b"), &t));
    let ids = provider.all_frame_ids();
    assert_eq!(ids.len(), 1);
    assert_eq!(ids[0].as_str(), "world");
}

#[test]
fn timestamp_duration_round_trip() {
    let t = Timestamp::from_nanos(1_500_000_000);
    let d = t.as_duration().unwrap();
    assert_eq!(d.as_nanos(), 1_500_000_000);
    assert_eq!(Timestamp::from_duration(d).as_nanos(), 1_500_000_000);
    assert!(Timestamp::from_nanos(-1).as_duration().is_none());
}

#[test]
fn package_url_candidates() {
    match package_candidates("package://robot/meshes/a.stl", &["/opt/a", "/opt/b"]) {
        PackageLookup::Candidates(c) => {
            assert_eq!(c, vec!["/opt/a/robot/meshes/a.stl".to_string(), "/opt/b/robot/meshes/a.stl".to_string()]);
        }
        _ => panic!("expected candidates"),
    }
    assert!(matches!(package_candidates("package://robot", &["/opt/a"]), PackageLookup::Malformed));
    assert_eq!(resolve_package_url("package://robot", &["/tmp"]), None);
    match package_candidates("file:///x.stl", &[]) {
        PackageLookup::Direct(s) => assert_eq!(s, "file:///x.stl"),
        _ => panic!("expected the URL unchanged"),
    }
}

#[test]
fn stl_loader_extension_list() {
    let loader = StlLoader::new();
    assert_eq!(loader.supported_extensions(), vec!["stl".to_string()]);
}

use mviz::marker::{MarkerAction, MarkerCache};

#[test]
fn marker_cache_add_delete_and_namespaces() {
    let mut cache: MarkerCache<u32> = MarkerCache::new();
    cache.process_marker(MarkerKey::new("ns1", 1), MarkerAction::Add, 10);
    cache.process_marker(MarkerKey::new("ns1", 2), MarkerAction::Add, 20);
    cache.process_marker(MarkerKey::new("ns2", 1), MarkerAction::Modify, 30);
    assert_eq!(cache.len(), 3);
    cache.process_marker(MarkerKey::new("ns1", 1), MarkerAction::Add, 11);
    assert_eq!(cache.len(), 3);
    cache.process_marker(MarkerKey::new("ns1", 1), MarkerAction::Delete, 0);
    assert_eq!(cache.len(), 2);
    cache.process_marker(MarkerKey::new("ns1", 0), MarkerAction::DeleteAll, 0);
    assert_eq!(cache.len(), 1);
    cache.process_marker(MarkerKey::new("ns3", 5), MarkerAction::Add, 50);
    cache.clear_namespace("ns3");
    assert_eq!(cache.len(), 1);
    cache.process_marker(MarkerKey::new("", 0), MarkerAction::DeleteAll, 0);
    assert_eq!(cache.len(), 0);
    cache.process_marker(MarkerKey::new("a", 1), MarkerAction::Add, 1);
    cache.clear_all();
    assert_eq!(cache.len(), 0);
}

fn add_marker(cache: &mut MarkerCache<u32>, ns: &str, id: i32) {
    cache.process_marker(MarkerKey::new(ns, id), MarkerAction::Add, id as u32);
}

#[test]
fn test_marker_process_add() {
    let mut display: MarkerCache<u32> = MarkerCache::new();
    add_marker(&mut display, "ns1", 1);
    add_marker(&mut display, "ns1", 2);
    add_marker(&mut display, "ns2", 1);
    assert_eq!(display.len(), 3);
}

#[test]
fn test_marker_process_delete() {
    let mut display: MarkerCache<u32> = MarkerCache::new();
    add_marker(&mut display, "ns1", 1);
    add_marker(&mut display, "ns1", 2);
    assert_eq!(display.len(), 2);
    display.process_marker(MarkerKey::new("ns1", 1), MarkerAction::Delete, 1);
    assert_eq!(display.len(), 1);
}

#[test]
fn test_marker_process_delete_all() {
    let mut display: MarkerCache<u32> = MarkerCache::new();
    add_marker(&mut display, "ns1", 1);
    add_marker(&mut display, "ns1", 2);
    add_marker(&mut display, "ns2", 1);
    assert_eq!(display.len(), 3);
    display.process_marker(MarkerKey::new("ns1", 0), MarkerAction::DeleteAll, 0);
    // Should only delete ns1 markers
    assert_eq!(display.len(), 1);
}

#[test]
fn test_marker_clear_namespace() {
    let mut display: MarkerCache<u32> = MarkerCache::new();
    add_marker(&mut display, "ns1", 1);
    add_marker(&mut display, "ns1", 2);
    add_marker(&mut display, "ns2", 1);
    display.clear_namespace("ns1");
    assert_eq!(display.len(), 1);
}

#[test]
fn test_marker_clear_all() {
    let mut display: MarkerCache<u32> = MarkerCache::new();
    add_marker(&mut display, "ns1", 1);
    add_marker(&mut display, "ns2", 1);
    display.clear_all();
    assert_eq!(display.len(), 0);
}

#[test]
fn stl_loader_supports_by_extension() {
    let loader = StlLoader::new();
    assert!(loader.supports("meshes/base.stl"));
    assert!(loader.supports("/robots/arm/LINK.STL"));
    assert!(!loader.supports("meshes/base.dae"));
    assert!(!loader.supports("meshes/stl"));
    assert!(!loader.supports(".stl"));
    assert!(!loader.supports("archive.stl.gz"));
}

#[test]
fn test_display_info() {
    let info = mviz::display::DisplayInfo::new(
        "PointCloud2",
        "Point Cloud",
        "Displays point cloud data",
        "sensor_msgs",
    );
    assert_eq!(info.display_type, "PointCloud2");
    assert_eq!(info.category, "sensor_msgs");
}

#[test]
fn test_app_config_validation() {
    // A default configuration: version "1.0", no displays.
    let no_displays: Vec<String> = Vec::new();
    assert!(validate_config("1.0", &no_displays).is_ok());

    // Test duplicate detection
    let names = vec!["Duplicate".to_string(), "Duplicate".to_string()];
    assert!(validate_config("1.0", &names).is_err());
}

#[test]
fn test_stl_loader_extensions() {
    let loader = StlLoader::new();
    assert!(loader.supports("mesh.stl"));
    assert!(loader.supports("mesh.STL"));
    assert!(!loader.supports("mesh.obj"));
}

#[test]
fn first_existing_candidate_is_chosen() {
    let candidates = vec!["/a/pkg/m.stl".to_string(), "/b/pkg/m.stl".to_string(), "/c/pkg/m.stl".to_string()];
    assert_eq!(first_existing(&candidates, &vec![false, true, true]), Some("/b/pkg/m.stl".to_string()));
    assert_eq!(first_existing(&candidates, &vec![true, false, true]), Some("/a/pkg/m.stl".to_string()));
    assert_eq!(first_existing(&candidates, &vec![false, false, false]), None);
    assert_eq!(first_existing(&vec![], &vec![]), None);
}

#[test]
fn frame_id_from_text() {
    assert_eq!(FrameId::from("odom"), FrameId::new("odom"));
    assert_eq!(FrameId::from("").as_str(), "");
}

#[test]
fn timestamp_from_clock_readings() {
    assert_eq!(Timestamp::from_elapsed(None).as_nanos(), 0);
    assert_eq!(
        Timestamp::from_elapsed(Some(std::time::Duration::from_millis(1500))).as_nanos(),
        1_500_000_000
    );
    assert!(Timestamp::now().as_nanos() > 0);
}
