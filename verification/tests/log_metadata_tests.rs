use mviz::log_metadata::{add_port_info, io_activity};

#[test]
fn port_information_marks_io_activity() {
    let mut metadata = vec![("source".to_string(), "sim".to_string()), ("port".to_string(), "old".to_string())];
    add_port_info(&mut metadata, &Some("image".to_string()), &Some("output".to_string()));
    assert_eq!(metadata.len(), 3);
    assert_eq!(io_activity(&metadata), Some(("image".to_string(), "output".to_string())));
}

#[test]
fn entries_without_both_port_fields_are_plain_logs() {
    let mut metadata: Vec<(String, String)> = Vec::new();
    add_port_info(&mut metadata, &Some("image".to_string()), &None);
    assert_eq!(metadata, vec![("port".to_string(), "image".to_string())]);
    assert_eq!(io_activity(&metadata), None);
    let mut empty: Vec<(String, String)> = Vec::new();
    add_port_info(&mut empty, &None, &None);
    assert!(empty.is_empty());
    assert_eq!(io_activity(&empty), None);
}
