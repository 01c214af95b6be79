use std::time::Duration;

use glam::{Affine3A, Vec3};
use mviz::frame::{FrameId, Timestamp};
use mviz::transform_buffer::{
    LookupStep, Sample, TransformBuffer, TransformError, TransformHistory, TransformKey,
};

fn frame(s: &str) -> FrameId {
    FrameId::new(s)
}

fn secs(s: f64) -> Timestamp {
    Timestamp::from_nanos((s * 1_000_000_000.0) as i64)
}

fn translation(x: f32, y: f32, z: f32) -> Affine3A {
    Affine3A::from_translation(Vec3::new(x, y, z))
}

fn resolve(sample: &Sample<Affine3A>, time: &Timestamp) -> Affine3A {
    match sample {
        Sample::At(tf) => *tf,
        Sample::Between { before, after } => {
            let total = (after.0.as_nanos() - before.0.as_nanos()) as f64;
            let t = ((time.as_nanos() - before.0.as_nanos()) as f64 / total) as f32;
            Affine3A::from_translation(before.1.translation.lerp(after.1.translation, t).into())
        }
    }
}

fn compose(steps: &[LookupStep<Affine3A>], time: &Timestamp) -> Affine3A {
    let mut result = Affine3A::IDENTITY;
    for step in steps {
        let tf = resolve(&step.sample, time);
        result = result * if step.invert { tf.inverse() } else { tf };
    }
    result
}

#[test]
fn test_transform_history_basic() {
    let mut history = TransformHistory::new(Duration::from_secs(10));

    let t1 = secs(1.0);
    let tf1 = translation(1.0, 0.0, 0.0);
    history.insert(t1, tf1);

    assert_eq!(history.len(), 1);
    let result = resolve(&history.get_at(&t1).unwrap(), &t1);
    assert!((Vec3::from(result.translation) - Vec3::from(tf1.translation)).length() < 1e-6);
}

#[test]
fn test_transform_history_interpolation() {
    let mut history = TransformHistory::new(Duration::from_secs(10));

    let t1 = secs(1.0);
    let t2 = secs(2.0);
    history.insert(t1, translation(0.0, 0.0, 0.0));
    history.insert(t2, translation(2.0, 0.0, 0.0));

    // Query at midpoint
    let t_mid = secs(1.5);
    let result = resolve(&history.get_at(&t_mid).unwrap(), &t_mid);
    assert!((result.translation.x - 1.0).abs() < 1e-6);
}

#[test]
fn test_transform_history_prune() {
    let mut history = TransformHistory::new(Duration::from_secs(5));

    history.insert(secs(1.0), Affine3A::IDENTITY);
    history.insert(secs(5.0), Affine3A::IDENTITY);
    history.insert(secs(10.0), Affine3A::IDENTITY);

    assert_eq!(history.len(), 3);

    // Prune from time 10.0 with 5 second duration
    history.prune_old(&secs(10.0));

    // Should keep 5.0 and 10.0 (within 5 seconds of now)
    assert!(history.len() <= 3); // May vary based on boundary conditions
}

#[test]
fn prune_keeps_the_boundary() {
    let mut history = TransformHistory::new(Duration::from_secs(5));
    history.insert(secs(1.0), 1u8);
    history.insert(secs(5.0), 2u8);
    history.insert(secs(10.0), 3u8);
    history.prune_old(&secs(10.0));
    assert_eq!(history.len(), 2);
    assert_eq!(history.get_oldest(), Some((secs(5.0), 2u8)));
    assert_eq!(history.get_latest(), Some((secs(10.0), 3u8)));
    assert_eq!(history.time_range(), Some((secs(5.0), secs(10.0))));
}

#[test]
fn history_samples() {
    let mut history: TransformHistory<u8> = TransformHistory::new(Duration::from_secs(5));
    match history.get_at(&secs(1.0)) {
        Err(TransformError::EmptyBuffer(m)) => assert_eq!(m, "unknown"),
        _ => panic!("expected an empty buffer"),
    }
    assert!(history.is_empty());
    history.insert(secs(2.0), 20);
    history.insert(secs(4.0), 40);
    history.insert(secs(2.0), 21);
    assert_eq!(history.len(), 2);
    assert!(matches!(history.get_at(&secs(2.0)), Ok(Sample::At(21))));
    assert!(matches!(history.get_at(&secs(1.0)), Ok(Sample::At(21))));
    assert!(matches!(history.get_at(&secs(9.0)), Ok(Sample::At(40))));
    match history.get_at(&secs(3.0)) {
        Ok(Sample::Between { before, after }) => {
            assert_eq!(before, (secs(2.0), 21));
            assert_eq!(after, (secs(4.0), 40));
        }
        _ => panic!("expected two samples"),
    }
    history.clear();
    assert!(history.is_empty());
}

#[test]
fn test_transform_buffer_basic() {
    let mut buffer = TransformBuffer::new(frame("world"), Duration::from_secs(10));

    let tf = translation(1.0, 0.0, 0.0);
    let ts = secs(1.0);

    buffer.set_transform(frame("world"), frame("base_link"), tf, ts);

    assert!(buffer.has_frame(&frame("world")));
    assert!(buffer.has_frame(&frame("base_link")));
}

#[test]
fn test_transform_buffer_lookup() {
    let mut buffer = TransformBuffer::new(frame("world"), Duration::from_secs(10));

    let tf = translation(1.0, 0.0, 0.0);
    let ts = secs(1.0);

    buffer.set_transform(frame("world"), frame("base_link"), tf, ts);

    // Look up transform from base_link to world
    let steps = buffer.lookup_transform(&frame("world"), &frame("base_link"), &ts).unwrap();
    let result = compose(&steps, &ts);

    // Should be the inverse of the stored transform
    assert!((result.translation.x - (-1.0)).abs() < 1e-6);
}

#[test]
fn test_transform_buffer_chain() {
    let mut buffer = TransformBuffer::new(frame("world"), Duration::from_secs(10));
    let ts = secs(1.0);

    // world -> odom (translate 1 in X)
    buffer.set_transform(frame("world"), frame("odom"), translation(1.0, 0.0, 0.0), ts);

    // odom -> base_link (translate 1 in Y)
    buffer.set_transform(frame("odom"), frame("base_link"), translation(0.0, 1.0, 0.0), ts);

    // Look up transform from base_link to world
    let steps = buffer.lookup_transform(&frame("world"), &frame("base_link"), &ts).unwrap();
    let result = compose(&steps, &ts);

    // base_link is at (1, 1, 0) in world frame
    // So transform from base_link to world should translate by (-1, -1, 0)
    assert!((result.translation.x - (-1.0)).abs() < 1e-5);
    assert!((result.translation.y - (-1.0)).abs() < 1e-5);
}

#[test]
fn test_transform_buffer_identity_lookup() {
    let buffer: TransformBuffer<Affine3A> = TransformBuffer::new(frame("world"), Duration::from_secs(10));
    let ts = secs(1.0);

    // Same frame should return identity
    let steps = buffer.lookup_transform(&frame("world"), &frame("world"), &ts).unwrap();
    let result = compose(&steps, &ts);
    assert!(Vec3::from(result.translation).length() < 1e-6);
    assert_eq!(result, Affine3A::IDENTITY);
}

#[test]
fn test_transform_buffer_no_path() {
    let mut buffer = TransformBuffer::new(frame("world"), Duration::from_secs(10));
    let ts = secs(1.0);

    buffer.set_transform(frame("world"), frame("base_link"), Affine3A::IDENTITY, ts);

    // Try to look up between unconnected frames
    let result = buffer.lookup_transform(&frame("base_link"), &frame("isolated"), &ts);
    assert!(result.is_err());
}

#[test]
fn test_transform_buffer_to_fixed() {
    let mut buffer = TransformBuffer::new(frame("world"), Duration::from_secs(10));
    let ts = secs(1.0);

    buffer.set_transform(frame("world"), frame("base_link"), translation(2.0, 0.0, 0.0), ts);

    let steps = buffer.get_transform_to_fixed(&frame("base_link"), &ts).unwrap();
    let result = compose(&steps, &ts);

    // Transform from base_link to world should be inverse
    assert!((result.translation.x - (-2.0)).abs() < 1e-6);
}

#[test]
fn lookup_after_set_uses_the_stored_transform() {
    let mut buffer = TransformBuffer::new(frame("world"), Duration::from_secs(10));
    buffer.set_transform(frame("world"), frame("base"), 7u8, secs(1.0));
    let up = buffer.lookup_transform(&frame("world"), &frame("base"), &secs(1.0)).unwrap();
    assert_eq!(up.len(), 1);
    assert!(up[0].invert);
    assert!(matches!(up[0].sample, Sample::At(7)));
    let down = buffer.lookup_transform(&frame("base"), &frame("world"), &secs(1.0)).unwrap();
    assert_eq!(down.len(), 1);
    assert!(!down[0].invert);
}

#[test]
fn lookup_errors() {
    let mut buffer = TransformBuffer::new(frame("world"), Duration::from_secs(10));
    match buffer.lookup_transform(&frame("a"), &frame("b"), &secs(1.0)) {
        Err(TransformError::NoPath(s, t)) => {
            assert_eq!(s, "b");
            assert_eq!(t, "a");
        }
        _ => panic!("expected no path"),
    }
    buffer.set_transform(frame("world"), frame("base"), 1u8, secs(1.0));
    buffer.prune_old(&secs(100.0));
    match buffer.lookup_transform(&frame("world"), &frame("base"), &secs(1.0)) {
        Err(TransformError::TransformNotFound(f)) => assert_eq!(f, "base"),
        _ => panic!("expected a missing transform"),
    }
    match buffer.get_latest_transform_to_fixed(&frame("nowhere")) {
        Err(TransformError::FrameNotFound(f)) => assert_eq!(f, "nowhere"),
        _ => panic!("expected an unknown frame"),
    }
    match buffer.get_latest_transform_to_fixed(&frame("base")) {
        Err(TransformError::EmptyBuffer(f)) => assert_eq!(f, "base"),
        _ => panic!("expected an empty history"),
    }
    assert!(!buffer.can_transform(&frame("world"), &frame("base"), &secs(1.0)));
}

#[test]
fn latest_transform_to_fixed() {
    let mut buffer = TransformBuffer::new(frame("world"), Duration::from_secs(10));
    buffer.set_transform(frame("world"), frame("base"), 1u8, secs(1.0));
    buffer.set_transform(frame("world"), frame("base"), 2u8, secs(2.0));
    let steps = buffer.get_latest_transform_to_fixed(&frame("base")).unwrap();
    assert_eq!(steps.len(), 1);
    assert!(matches!(steps[0].sample, Sample::At(2)));
    assert_eq!(buffer.all_frames().len(), 2);
    buffer.clear();
    assert_eq!(buffer.all_frames().len(), 1);
    assert_eq!(buffer.fixed_frame().as_str(), "world");
}

#[test]
fn transform_key_equality() {
    let a = TransformKey::new(frame("p"), frame("c"));
    let b = a.clone();
    assert!(a == b);
    assert!(a != TransformKey::new(frame("c"), frame("p")));
}

#[test]
fn checked_prune_says_whether_it_pruned() {
    let mut history = TransformHistory::new(Duration::from_secs(5));
    history.insert(secs(1.0), 1u8);
    history.insert(secs(10.0), 3u8);
    assert!(history.prune_old_checked(&secs(10.0)));
    assert_eq!(history.len(), 1);
    let mut early = TransformHistory::new(Duration::from_secs(5));
    early.insert(Timestamp::from_nanos(i64::MIN + 10), 1u8);
    assert!(!early.prune_old_checked(&Timestamp::from_nanos(i64::MIN + 10)));
    assert_eq!(early.len(), 1);
    let mut buffer: TransformBuffer<u8> = TransformBuffer::new(frame("world"), Duration::from_secs(5));
    assert!(buffer.prune_old_checked(&secs(3.0)));
    assert!(!buffer.prune_old_checked(&Timestamp::from_nanos(i64::MIN)));
}
