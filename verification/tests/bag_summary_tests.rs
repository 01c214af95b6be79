use mviz::bag_summary::{chunk_time_range, hex_string, summarize_records, BagRecord};

fn conn(id: u32, topic: &str, msg_type: &str, md5: Vec<u8>) -> BagRecord {
    BagRecord::Connection { id, topic: topic.to_string(), msg_type: msg_type.to_string(), md5sum: md5 }
}

#[test]
fn checksums_are_lower_case_hex() {
    assert_eq!(hex_string(&vec![0x0a, 0xff]), "0aff");
    assert_eq!(hex_string(&vec![]), "");
    assert_eq!(hex_string(&vec![0x12, 0x3b, 0x00]), "123b00");
}

#[test]
fn topics_are_counted() {
    let records = vec![
        conn(0, "/points", "sensor_msgs/PointCloud2", vec![0xab, 0x01]),
        BagRecord::MessageData { conn_id: 0 },
        conn(1, "/imu", "sensor_msgs/Imu", vec![0x10]),
        BagRecord::MessageData { conn_id: 1 },
        BagRecord::MessageData { conn_id: 0 },
        BagRecord::MessageData { conn_id: 7 },
        BagRecord::MessageData { conn_id: 0 },
    ];
    let mut topics = summarize_records(&records);
    topics.sort_by(|a, b| a.name.cmp(&b.name));
    assert_eq!(topics.len(), 2);
    assert_eq!(topics[0].name, "/imu");
    assert_eq!(topics[0].msg_type, "sensor_msgs/Imu");
    assert_eq!(topics[0].md5sum, "10");
    assert_eq!(topics[0].message_count, 1);
    assert_eq!(topics[1].name, "/points");
    assert_eq!(topics[1].md5sum, "ab01");
    assert_eq!(topics[1].message_count, 3);
}

#[test]
fn topic_without_messages_is_listed() {
    let topics = summarize_records(&vec![conn(3, "/empty", "std_msgs/String", vec![])]);
    assert_eq!(topics.len(), 1);
    assert_eq!(topics[0].message_count, 0);
    assert_eq!(topics[0].md5sum, "");
}

#[test]
fn two_connections_to_one_topic() {
    let records = vec![
        conn(0, "/tf", "tf2_msgs/TFMessage", vec![0x01]),
        conn(1, "/tf", "tf2_msgs/TFMessage", vec![0x02]),
        BagRecord::MessageData { conn_id: 0 },
        BagRecord::MessageData { conn_id: 1 },
    ];
    let topics = summarize_records(&records);
    assert_eq!(topics.len(), 1);
    assert_eq!(topics[0].message_count, 2);
    assert_eq!(topics[0].md5sum, "02");
}

#[test]
fn messages_before_their_connection_are_not_counted() {
    let records = vec![BagRecord::MessageData { conn_id: 0 }, conn(0, "/a", "t", vec![])];
    let topics = summarize_records(&records);
    assert_eq!(topics[0].message_count, 0);
}

#[test]
fn time_range_of_chunks() {
    assert_eq!(chunk_time_range(&vec![]), None);
    assert_eq!(chunk_time_range(&vec![(5, 9)]), Some((5, 9)));
    assert_eq!(chunk_time_range(&vec![(10, 20), (3, 15), (12, 40)]), Some((3, 40)));
}
