use mviz::log_panel::{LogDisplayEntry, LogPanel};

fn entry(level: u8, node: &str, message: &str) -> LogDisplayEntry {
    let level_str = match level {
        0 => "DEBUG",
        1 => "INFO",
        2 => "WARN",
        _ => "ERROR",
    };
    LogDisplayEntry {
        timestamp: 1.5f64.to_bits(),
        level,
        level_str: level_str.to_string(),
        node_id: node.to_string(),
        message: message.to_string(),
    }
}

#[test]
fn first_entry_sets_up_the_panel() {
    let mut panel = LogPanel::new();
    assert_eq!(panel.entry_count(), 0);
    panel.add_entry(entry(1, "camera", "started"));
    assert_eq!(panel.entry_count(), 1);
    assert_eq!(panel.filtered_count(), 1);
    assert_eq!(panel.entry_count_text(), "1 entries");
    assert_eq!(panel.discovered_nodes().len(), 1);
}

#[test]
fn nodes_are_kept_in_order_once() {
    let mut panel = LogPanel::new();
    panel.add_entry(entry(1, "planner", "a"));
    panel.add_entry(entry(1, "camera", "b"));
    panel.add_entry(entry(1, "planner", "c"));
    panel.add_entry(entry(1, "lidar", "d"));
    let nodes: Vec<&str> = panel.discovered_nodes().iter().map(|s| s.as_str()).collect();
    assert_eq!(nodes, vec!["camera", "lidar", "planner"]);
    let labels = panel.node_filter_labels();
    assert_eq!(labels, vec!["All Nodes", "camera", "lidar", "planner"]);
    panel.set_discovered_nodes(vec!["z".to_string(), "a".to_string(), "m".to_string(), "a".to_string()]);
    let nodes: Vec<&str> = panel.discovered_nodes().iter().map(|s| s.as_str()).collect();
    assert_eq!(nodes, vec!["a", "a", "m", "z"]);
}

#[test]
fn filters_pick_lines() {
    let mut panel = LogPanel::new();
    panel.add_entry(entry(0, "camera", "frame grabbed"));
    panel.add_entry(entry(2, "lidar", "Dropped packet"));
    panel.add_entry(entry(3, "camera", "Device lost"));
    panel.add_entry(entry(2, "camera", "slow frame"));
    // Warnings only.
    panel.select_level_filter(3);
    assert_eq!(panel.filtered_entries(), &[1, 3]);
    assert_eq!(panel.entry_count_text(), "2/4 entries");
    // Warnings from the camera: nodes are camera, lidar.
    panel.select_node_filter(1);
    assert_eq!(panel.filtered_entries(), &[3]);
    // All levels, camera only.
    panel.select_level_filter(0);
    assert_eq!(panel.filtered_entries(), &[0, 2, 3]);
    // An index past the menu means all nodes.
    panel.select_node_filter(9);
    assert_eq!(panel.filtered_count(), 4);
    assert_eq!(panel.entry_count_text(), "4 entries");
    // An unknown level filter passes everything.
    panel.select_level_filter(7);
    assert_eq!(panel.filtered_count(), 4);
}

#[test]
fn buffer_keeps_the_latest_thousand() {
    let mut panel = LogPanel::new();
    for i in 0..1005 {
        panel.add_entry(entry(1, "node", &format!("line {}", i)));
    }
    assert_eq!(panel.entry_count(), 1000);
    assert_eq!(panel.entries()[0].message, "line 5");
    assert_eq!(panel.entries()[999].message, "line 1004");
    let newest = panel.newest_shown();
    assert_eq!(newest.len(), 100);
    assert_eq!(newest[0], 999);
    assert_eq!(newest[99], 900);
}

#[test]
fn clear_and_collapse() {
    let mut panel = LogPanel::new();
    panel.init();
    panel.add_entry(entry(1, "a", "x"));
    panel.set_collapsed(true);
    assert!(panel.is_collapsed());
    panel.clear();
    assert_eq!(panel.entry_count(), 0);
    assert_eq!(panel.filtered_count(), 0);
    assert_eq!(panel.discovered_nodes().len(), 1);
    assert!(panel.is_collapsed());
    assert_eq!(panel.entry_count_text(), "0 entries");
    assert!(panel.newest_shown().is_empty());
}
