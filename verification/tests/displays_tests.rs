use std::time::Duration;

use mviz::bridge::PoseAdapter;
use mviz::displays::CloudQueue;
use mviz::frame::Timestamp;

type Cloud = Vec<(f32, f32, f32)>;

fn display_queue() -> CloudQueue<Cloud> {
    // The point cloud display queues up to ten clouds by default.
    CloudQueue::new(10)
}

#[test]
fn test_point_cloud_add_cloud() {
    let mut display = display_queue();
    let cloud: Cloud = vec![(0.0, 0.0, 0.0), (1.0, 1.0, 1.0)];
    display.add_cloud(cloud, Timestamp::now());
    assert_eq!(display.len(), 1);
    assert_eq!(display.total_points(), 2);
}

#[test]
fn test_point_cloud_queue_limit() {
    let mut display = display_queue();
    display.set_queue_size(3);
    for i in 0..5 {
        let cloud: Cloud = vec![(i as f32, 0.0, 0.0)];
        display.add_cloud(cloud, Timestamp::now());
    }
    // Should only keep last 3
    assert_eq!(display.len(), 3);
}

#[test]
fn test_point_cloud_prune_latest_only() {
    let mut display = display_queue();
    display.set_decay_time(Duration::ZERO);
    for _ in 0..3 {
        let cloud: Cloud = vec![(0.0, 0.0, 0.0)];
        display.add_cloud(cloud, Timestamp::now());
    }
    display.prune_old_clouds(Timestamp::now());
    assert_eq!(display.len(), 1);
}

#[test]
fn test_point_cloud_set_cloud() {
    let mut display = display_queue();
    for _ in 0..3 {
        display.add_cloud(vec![(0.0, 0.0, 0.0)], Timestamp::now());
    }
    assert_eq!(display.len(), 3);
    display.set_cloud(vec![(1.0, 1.0, 1.0)], Timestamp::now());
    assert_eq!(display.len(), 1);
}

#[test]
fn cloud_queue_keeps_the_newest_in_order() {
    let mut q: CloudQueue<u32> = CloudQueue::new(2);
    q.add_cloud(1, Timestamp::from_nanos(10));
    q.add_cloud(2, Timestamp::from_nanos(20));
    q.add_cloud(3, Timestamp::from_nanos(30));
    let kept: Vec<u32> = q.clouds().iter().map(|c| c.cloud).collect();
    assert_eq!(kept, vec![2, 3]);
    let suffixes: Vec<usize> = q.clouds().iter().map(|c| c.entity_suffix).collect();
    assert_eq!(suffixes, vec![1, 2]);
}

#[test]
fn cloud_queue_decay_drops_only_stale_front() {
    let mut q: CloudQueue<u32> = CloudQueue::new(10);
    q.set_decay_time(Duration::from_nanos(100));
    q.add_cloud(1, Timestamp::from_nanos(0));
    q.add_cloud(2, Timestamp::from_nanos(150));
    q.add_cloud(3, Timestamp::from_nanos(50));
    q.prune_old_clouds(Timestamp::from_nanos(200));
    // The first is 200 ns old; the second 50 ns; the third stays behind it.
    let kept: Vec<u32> = q.clouds().iter().map(|c| c.cloud).collect();
    assert_eq!(kept, vec![2, 3]);
    // A cloud exactly as old as the decay time stays.
    q.prune_old_clouds(Timestamp::from_nanos(250));
    assert_eq!(q.len(), 2);
    // Past it, the second goes, and so does the third, now at the front.
    q.prune_old_clouds(Timestamp::from_nanos(251));
    assert_eq!(q.len(), 0);
}

#[test]
fn cloud_queue_accessors() {
    let mut q: CloudQueue<u32> = CloudQueue::new(4);
    assert_eq!(q.queue_size(), 4);
    assert_eq!(q.decay_time(), Duration::ZERO);
    q.set_decay_time(Duration::from_secs(2));
    assert_eq!(q.decay_time(), Duration::from_secs(2));
}

#[test]
fn trajectory_keeps_latest_positions() {
    let mut pose = PoseAdapter::new(2);
    pose.record_position((1, 1, 1));
    pose.record_position((2, 2, 2));
    pose.record_position((3, 3, 3));
    assert_eq!(pose.trajectory(), &vec![(2, 2, 2), (3, 3, 3)]);
    pose.clear_trajectory();
    assert!(pose.trajectory().is_empty());
}

#[test]
fn trajectory_default_keeps_a_thousand() {
    let mut pose = PoseAdapter::default();
    for i in 0..1005u32 {
        pose.record_position((i, 0, 0));
    }
    assert_eq!(pose.trajectory().len(), 1000);
    assert_eq!(pose.trajectory()[0], (5, 0, 0));
    assert_eq!(pose.trajectory()[999], (1004, 0, 0));
}
