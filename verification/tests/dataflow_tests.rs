use mviz::bridge::{MarkerCoreAdapter, RerunConfig, TransformCoreAdapter};
use mviz::dataflow::{build_node_definitions, matching_destinations, InputEntry, NodeSpec, OperatorSpec};
use mviz::dora::{DoraEvent, DoraLoop, DoraMessage};
use mviz::protocol::{frame_message, split_message, LogLevel};
use mviz::receiver::{message_kind, subscription_topic, topic_entity_path, MessageKind, NodeRegistry};

fn entry(name: &str, source: &str) -> InputEntry {
    InputEntry { name: Some(name.to_string()), source: Some(source.to_string()) }
}

fn sample_nodes() -> Vec<NodeSpec> {
    vec![
        NodeSpec {
            id: Some("camera".to_string()),
            operator: Some(OperatorSpec {
                python: Some("camera.py".to_string()),
                rust: None,
                inputs: vec![entry("tick", "dora/timer/millis/50")],
                outputs: vec![Some("image".to_string()), None],
            }),
            inputs: vec![],
        },
        NodeSpec {
            id: Some("detector".to_string()),
            operator: Some(OperatorSpec {
                python: None,
                rust: Some("libdetector.so".to_string()),
                inputs: vec![entry("image", "camera/image"), InputEntry { name: None, source: Some("camera/image".to_string()) }],
                outputs: vec![Some("boxes".to_string())],
            }),
            inputs: vec![],
        },
        NodeSpec { id: None, operator: None, inputs: vec![entry("image", "camera/image")] },
        NodeSpec { id: Some("plot".to_string()), operator: None, inputs: vec![entry("image", "camera/image"), entry("boxes", "detector/boxes")] },
    ]
}

#[test]
fn node_definitions_from_description() {
    let defs = build_node_definitions(&sample_nodes());
    assert_eq!(defs.len(), 3);
    assert_eq!(defs[0].id, "camera");
    assert_eq!(defs[0].operator.as_deref(), Some("camera.py"));
    assert_eq!(defs[0].inputs.len(), 1);
    assert_eq!(defs[0].outputs.len(), 1);
    assert_eq!(defs[0].outputs[0].name, "image");
    assert_eq!(defs[0].outputs[0].destinations, vec!["detector".to_string(), "detector".to_string(), "plot".to_string()]);
    assert_eq!(defs[1].operator.as_deref(), Some("libdetector.so"));
    assert_eq!(defs[1].inputs.len(), 1);
    assert_eq!(defs[1].outputs[0].destinations, vec!["plot".to_string()]);
    assert_eq!(defs[2].id, "plot");
    assert!(defs[2].operator.is_none());
    assert_eq!(defs[2].inputs.len(), 2);
    assert!(defs[2].outputs.is_empty());
}

#[test]
fn destinations_are_the_consumers() {
    let nodes = sample_nodes();
    assert_eq!(matching_destinations(&nodes, "detector/boxes"), vec!["plot".to_string()]);
    assert!(matching_destinations(&nodes, "plot/none").is_empty());
}

#[test]
fn dora_loop_sends_every_third_frame() {
    let mut lp = DoraLoop::new();
    let pose = DoraEvent::Input { id: "sim_pose".to_string(), values: Some(vec![1, 2, 3, 4]) };
    let step = lp.handle_event(&pose);
    assert!(step.messages.is_empty() && !step.stop);
    assert_eq!(lp.data.pose.unwrap().theta, 3);
    let other = DoraEvent::Input { id: "waypoints".to_string(), values: Some(vec![1, 2, 3, 4, 5]) };
    lp.handle_event(&other);
    assert_eq!(lp.data.waypoints.as_ref().unwrap(), &vec![(1, 2), (3, 4)]);
    let not_floats = DoraEvent::Input { id: "sim_pose".to_string(), values: None };
    let step = lp.handle_event(&not_floats);
    assert_eq!(lp.frame_count, 3);
    assert_eq!(step.messages.len(), 0);
    let imu = DoraEvent::Input { id: "imu_msg".to_string(), values: Some(vec![0, 1, 2, 3, 4, 5, 6, 7, 8]) };
    lp.handle_event(&imu);
    lp.handle_event(&DoraEvent::Other);
    let unknown = DoraEvent::Input { id: "lidar".to_string(), values: Some(vec![1]) };
    assert!(lp.handle_event(&unknown).messages.is_empty());
    let target = DoraEvent::Input { id: "target_point".to_string(), values: Some(vec![9, 10]) };
    let step = lp.handle_event(&target);
    assert_eq!(step.messages.len(), 1);
    match &step.messages[0] {
        DoraMessage::Data(d) => {
            assert_eq!(d.frame_count, 6);
            assert_eq!(d.target, Some((9, 10)));
            assert_eq!(d.imu.unwrap().gyro, (3, 4, 5));
        }
        _ => panic!("expected data"),
    }
    let stop = lp.handle_event(&DoraEvent::Stop);
    assert!(stop.stop);
    assert!(matches!(&stop.messages[0], DoraMessage::Status(s) if s == "Dora stopped"));
}

#[test]
fn dora_start_and_end_messages() {
    let m = DoraLoop::connected_messages();
    assert!(matches!(m[0], DoraMessage::Connected));
    let f = DoraLoop::failed_messages("no env");
    assert!(matches!(&f[0], DoraMessage::Disconnected(s) if s == "Failed to init Dora: no env"));
    assert!(matches!(DoraLoop::finished_message(), DoraMessage::Disconnected(s) if s == "Dora loop ended"));
}

#[test]
fn receiver_decisions() {
    assert_eq!(subscription_topic("mviz"), "mviz/**");
    assert_eq!(topic_entity_path("mviz/robot/lidar", "mviz"), "robot/lidar");
    assert_eq!(topic_entity_path("other/robot", "mviz"), "other/robot");
    assert_eq!(topic_entity_path("mvizz/robot", "mviz"), "mvizz/robot");
    assert_eq!(message_kind("log"), MessageKind::Log);
    assert_eq!(message_kind("node_definition"), MessageKind::NodeDefinition);
    assert_eq!(message_kind("graph_update"), MessageKind::GraphUpdate);
    assert_eq!(message_kind("points3d"), MessageKind::Visualization);
    let mut reg = NodeRegistry::new();
    assert!(reg.discover("a"));
    assert!(reg.discover("b"));
    assert!(!reg.discover("a"));
    assert!(reg.contains("b"));
    assert_eq!(reg.nodes(), vec!["a".to_string(), "b".to_string()]);
}

#[test]
fn framing_round_trip() {
    let msg = frame_message(b"{\"type\":\"log\"}", Some(&[1u8, 2, 3]));
    let (h, p) = split_message(&msg);
    assert_eq!(h, b"{\"type\":\"log\"}");
    assert_eq!(p, Some(&[1u8, 2, 3][..]));
    let (h2, p2) = split_message(b"only header");
    assert_eq!(h2, b"only header");
    assert!(p2.is_none());
}

#[test]
fn log_levels() {
    assert_eq!(LogLevel::from_str("warning"), LogLevel::Warn);
    assert_eq!(LogLevel::from_str("Err"), LogLevel::Error);
    assert_eq!(LogLevel::from_str("whatever"), LogLevel::Info);
    assert_eq!(LogLevel::Debug.as_str(), "DEBUG");
    assert_eq!(LogLevel::Error.color(), [255, 80, 80, 255]);
}

#[test]
fn entity_paths() {
    assert_eq!(MarkerCoreAdapter::entity_path("world/markers", "", -3), "world/markers/marker_-3");
    assert_eq!(MarkerCoreAdapter::entity_path("world/markers", "cars", 12), "world/markers/cars/marker_12");
    assert_eq!(TransformCoreAdapter::frame_path("world/tf", "base"), "world/tf/base");
    let (x, y, z) = TransformCoreAdapter::axis_paths("world/tf/base");
    assert_eq!((x.as_str(), y.as_str(), z.as_str()), ("world/tf/base/x", "world/tf/base/y", "world/tf/base/z"));
}

#[test]
fn rerun_config_builders() {
    let c = RerunConfig::new("rec").with_spawn(false).with_connect_addr("127.0.0.1:9876");
    assert_eq!(c.recording_id, "rec");
    assert!(!c.spawn_viewer);
    assert_eq!(c.connect_addr.as_deref(), Some("127.0.0.1:9876"));
    let d = RerunConfig::default();
    assert_eq!(d.recording_id, "dviz");
}

#[test]
fn log_levels_round_trip_through_their_names() {
    for level in [LogLevel::Debug, LogLevel::Info, LogLevel::Warn, LogLevel::Error] {
        assert_eq!(LogLevel::from_str(level.as_str()), level);
        assert_eq!(LogLevel::from_str(&level.as_str().to_lowercase()), level);
    }
    assert_eq!(LogLevel::from_str(""), LogLevel::Info);
    assert_eq!(LogLevel::from_str("trace"), LogLevel::Info);
    assert_eq!(LogLevel::from_str("err"), LogLevel::Error);
}

#[test]
fn marker_paths_at_the_integer_limits() {
    assert_eq!(MarkerCoreAdapter::entity_path("m", "", i32::MIN), "m/marker_-2147483648");
    assert_eq!(MarkerCoreAdapter::entity_path("m", "", i32::MAX), "m/marker_2147483647");
    assert_eq!(MarkerCoreAdapter::entity_path("m", "", 0), "m/marker_0");
}
