use mviz::errors::RosBagError;
use mviz::tf_buffer::{can_process_tf_message, trim_frame, StampedTransform, TfBuffer, TfStep, TfTransform};
use mviz::wire::RosTime;

fn tf(parent: &str, child: &str, x: f64) -> StampedTransform {
    StampedTransform {
        transform: TfTransform {
            translation: [x.to_bits(), 0, 0],
            rotation: [0, 0, 0, 1.0f64.to_bits()],
        },
        parent_frame: parent.to_string(),
        child_frame: child.to_string(),
        timestamp: RosTime { sec: 1, nsec: 0 },
    }
}

fn xs(steps: &[TfStep]) -> Vec<(f64, bool)> {
    steps.iter().map(|s| (f64::from_bits(s.transform.translation[0]), s.invert)).collect()
}

#[test]
fn test_identity_transform() {
    let t = TfTransform::identity();
    assert_eq!(t.translation.map(f64::from_bits), [0.0, 0.0, 0.0]);
    assert_eq!(t.rotation.map(f64::from_bits), [0.0, 0.0, 0.0, 1.0]);
}

#[test]
fn test_tf_buffer_same_frame() {
    let buffer = TfBuffer::new();
    let result = buffer.lookup_transform("base_link", "base_link", 0.0f64.to_bits());
    assert!(result.is_ok());
}

#[test]
fn trims_leading_slashes() {
    assert_eq!(trim_frame("//map"), "map");
    assert_eq!(trim_frame("map/"), "map/");
    assert_eq!(trim_frame(""), "");
}

#[test]
fn direct_and_inverse_lookups() {
    let mut b = TfBuffer::new();
    b.set_transform(tf("/odom", "base", 2.0), false);
    assert_eq!(xs(&b.lookup_transform("odom", "/base", 0).unwrap()), vec![(2.0, false)]);
    assert_eq!(xs(&b.lookup_transform("base", "odom", 0).unwrap()), vec![(2.0, true)]);
    assert!(b.lookup_transform("odom", "odom", 0).unwrap().is_empty());
}

#[test]
fn chained_lookup_goes_through_the_common_frame() {
    let mut b = TfBuffer::new();
    b.set_transform(tf("map", "odom", 1.0), true);
    b.set_transform(tf("odom", "base", 2.0), false);
    b.set_transform(tf("base", "laser", 3.0), false);
    b.set_transform(tf("map", "gps", 4.0), false);
    // laser -> gps: up from laser to map, then down to gps.
    let steps = b.lookup_transform("gps", "laser", 0).unwrap();
    assert_eq!(xs(&steps), vec![(1.0, false), (2.0, false), (3.0, false), (4.0, true)]);
    assert_eq!(b.get_chain_to_root("laser"), vec!["laser", "base", "odom", "map"]);
    match b.lookup_transform("gps", "moon", 0) {
        Err(RosBagError::TransformError(s, t)) => {
            assert_eq!(s, "moon");
            assert_eq!(t, "gps");
        }
        _ => panic!("expected a missing transform"),
    }
    assert_eq!(b.all_frames(), vec!["base", "gps", "laser", "odom"]);
    b.clear();
    assert_eq!(b.all_frames(), vec!["odom"]);
}

#[test]
fn chain_stops_at_a_cycle() {
    let mut b = TfBuffer::new();
    b.set_transform(tf("b", "a", 1.0), false);
    b.set_transform(tf("a", "b", 1.0), false);
    assert_eq!(b.get_chain_to_root("a"), vec!["a", "b"]);
}

fn put_u32(out: &mut Vec<u8>, v: u32) {
    out.extend_from_slice(&v.to_le_bytes());
}

fn put_string(out: &mut Vec<u8>, s: &str) {
    put_u32(out, s.len() as u32);
    out.extend_from_slice(s.as_bytes());
}

fn stamped_bytes(out: &mut Vec<u8>, parent: &str, child: &str, x: f64) {
    put_u32(out, 0);
    put_u32(out, 5);
    put_u32(out, 6);
    put_string(out, parent);
    put_string(out, child);
    for v in [x, 0.0, 0.0, 0.0, 0.0, 0.0, 1.0] {
        out.extend_from_slice(&v.to_le_bytes());
    }
}

#[test]
fn tf_message_stores_each_transform() {
    let mut data = Vec::new();
    put_u32(&mut data, 2);
    stamped_bytes(&mut data, "world", "robot", 1.5);
    stamped_bytes(&mut data, "robot", "arm", 0.5);
    assert!(can_process_tf_message(&data));
    let mut b = TfBuffer::new();
    b.process_tf_message(&data).unwrap();
    let t = b.get_transform("/arm").unwrap();
    assert_eq!(t.parent_frame, "robot");
    assert_eq!(t.timestamp, RosTime { sec: 5, nsec: 6 });
    assert_eq!(f64::from_bits(t.transform.rotation[3]), 1.0);
    assert_eq!(xs(&b.lookup_transform("world", "arm", 0).unwrap()), vec![(1.5, false), (0.5, false)]);
    let mut short = data.clone();
    short.truncate(20);
    assert!(!can_process_tf_message(&short));
    match b.process_tf_message(&[1, 0]) {
        Err(RosBagError::ParseError(m)) => assert_eq!(m, "TF message too short"),
        _ => panic!("expected a parse error"),
    }
}
