use mviz::bridge_loop::{periodic_publications, BridgeRoute, BridgeState};
use mviz::graph_state::GraphState;

fn state() -> BridgeState {
    BridgeState::new(GraphState::new())
}

#[test]
fn point_clouds_need_a_point() {
    let mut s = state();
    let a = s.bridge_step("pointcloud", Some(2), 0);
    assert_eq!(a.route, BridgeRoute::Skip);
    assert_eq!(a.entity_path, None);
    let b = s.bridge_step("lidar", Some(6), 0);
    assert_eq!(b.route, BridgeRoute::PointCloud);
    assert_eq!(b.entity_path.as_deref(), Some("world/pointcloud"));
}

#[test]
fn poses_need_seven_values() {
    let mut s = state();
    let a = s.bridge_step("pose", Some(7), 0);
    assert_eq!(a.route, BridgeRoute::Pose);
    assert!(a.route_log);
    assert_eq!(a.entity_path, None);
    let b = s.bridge_step("pose", Some(6), 0);
    assert_eq!(b.route, BridgeRoute::GenericPoints);
    assert_eq!(b.entity_path.as_deref(), Some("world/pose"));
    assert!(!b.route_log);
    let c = s.bridge_step("pose", Some(7), 0);
    assert_eq!(c.source_count, 3);
    assert!(!c.route_log);
}

#[test]
fn marker_shapes_follow_the_length() {
    let mut s = state();
    assert_eq!(s.bridge_step("markers", Some(10), 0).route, BridgeRoute::MarkerBoxes);
    assert_eq!(s.bridge_step("markers", Some(6), 0).route, BridgeRoute::MarkerArrows);
    let lines = s.bridge_step("markers", Some(9), 0);
    assert_eq!(lines.route, BridgeRoute::MarkerLines);
    assert_eq!(lines.entity_path.as_deref(), Some("world/markers/lines"));
    assert_eq!(s.bridge_step("markers", Some(8), 0).route, BridgeRoute::Skip);
}

#[test]
fn trajectories_need_two_points() {
    let mut s = state();
    assert_eq!(s.bridge_step("trajectory", Some(7), 0).route, BridgeRoute::Skip);
    let t = s.bridge_step("trajectory", Some(14), 0);
    assert_eq!(t.route, BridgeRoute::Trajectory);
    assert_eq!(t.entity_path.as_deref(), Some("world/trajectory"));
    assert_eq!(s.bridge_step("trajectory", Some(6), 0).route, BridgeRoute::Trajectory);
}

#[test]
fn other_routes() {
    let mut s = state();
    assert_eq!(s.bridge_step("camera/image", None, 0).route, BridgeRoute::NotFloat);
    assert_eq!(s.bridge_step("odom", Some(7), 0).entity_path.as_deref(), Some("world/sensor/position"));
    assert_eq!(s.bridge_step("goal", Some(2), 0).route, BridgeRoute::Target);
    assert_eq!(s.bridge_step("imu", Some(9), 0).route, BridgeRoute::Imu);
    assert_eq!(s.bridge_step("vehicle_state", Some(7), 0).entity_path.as_deref(), Some("metrics/steering"));
    assert_eq!(s.bridge_step("vehicle_pose", Some(3), 0).route, BridgeRoute::VehiclePose);
    let w = s.bridge_step("waypoints", Some(4), 0);
    assert_eq!(w.route, BridgeRoute::Waypoints);
    assert!(w.route_log);
    assert_eq!(s.bridge_step("unknown", Some(4), 0).route, BridgeRoute::Skip);
}

#[test]
fn sources_and_counts() {
    let mut s = state();
    let a = s.bridge_step("camera/image", None, 5);
    assert_eq!(a.source_node, "camera");
    assert_eq!(a.io_node, "camera");
    assert_eq!(a.io_output, "image");
    assert_eq!(a.source_count, 1);
    assert!(a.first_message);
    let b = s.bridge_step("lidar", Some(3), 6);
    assert_eq!(b.source_node, "lidar");
    assert_eq!(b.io_node, "lidar");
    assert_eq!(b.io_output, "lidar");
    let c = s.bridge_step("camera/depth", None, 7);
    assert_eq!(c.source_count, 2);
    assert!(!c.first_message);
}

#[test]
fn hundredth_inputs_are_logged() {
    let mut s = state();
    for _ in 0..99 {
        let a = s.bridge_step("points", Some(3), 0);
        assert!(!a.status_log);
        assert!(!a.progress_log);
    }
    let a = s.bridge_step("points", Some(3), 0);
    assert_eq!(a.source_count, 100);
    assert!(a.status_log);
    assert!(a.progress_log);
    assert_eq!(s.stop_message(), "Bridge stopping after 100 total frames");
}

#[test]
fn progress_needs_a_published_message() {
    let mut s = state();
    for _ in 0..99 {
        s.bridge_step("points", Some(3), 0);
    }
    let a = s.bridge_step("camera/image", None, 0);
    assert!(!a.progress_log);
}

#[test]
fn inputs_mark_graph_activity() {
    let mut s = state();
    s.bridge_step("camera/image", None, 42);
    assert_eq!(s.graph().last_seen("camera"), 42);
}

#[test]
fn periodic_publications_follow_the_clock() {
    assert_eq!(periodic_publications(true, 3_000_000_000, 1_999_999_999), (true, false));
    assert_eq!(periodic_publications(false, 9_000_000_000, 2_000_000_000), (false, true));
    assert_eq!(periodic_publications(true, 2_999_999_999, 5_000_000_000), (false, true));
}
