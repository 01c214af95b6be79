use mviz::display_list::{DisplayInfo, DisplayType, DisplaysPanel};

#[test]
fn display_type_from_any_case() {
    assert_eq!(DisplayType::from_str("Grid"), DisplayType::Grid);
    assert_eq!(DisplayType::from_str("AXES"), DisplayType::Axes);
    assert_eq!(DisplayType::from_str("point_cloud"), DisplayType::PointCloud);
    assert_eq!(DisplayType::from_str("Points"), DisplayType::PointCloud);
    assert_eq!(DisplayType::from_str("marker"), DisplayType::Markers);
    assert_eq!(DisplayType::from_str("Transform"), DisplayType::TF);
    assert_eq!(DisplayType::from_str("LASER"), DisplayType::LaserScan);
    assert_eq!(DisplayType::from_str("trajectory"), DisplayType::Path);
    assert_eq!(DisplayType::from_str("Odometry"), DisplayType::Pose);
    assert_eq!(DisplayType::from_str("camera"), DisplayType::Markers);
    assert_eq!(DisplayType::from_lowercase("Grid"), DisplayType::Markers);
}

#[test]
fn display_type_names_and_menu() {
    assert_eq!(DisplayType::PointCloud.name(), "Point Cloud");
    assert_eq!(DisplayType::LaserScan.name(), "LaserScan");
    let all = DisplayType::all();
    assert_eq!(all.len(), 8);
    assert_eq!(all[0], DisplayType::Grid);
    assert_eq!(all[7], DisplayType::Pose);
    assert_eq!(DisplayType::default(), DisplayType::Grid);
}

#[test]
fn display_info_builders() {
    let d = DisplayInfo::new(7, DisplayType::TF)
        .with_name("Frames")
        .with_topic("/tf")
        .with_color([1, 2, 3, 4]);
    assert_eq!(d.id, 7);
    assert_eq!(d.name, "Frames");
    assert_eq!(d.topic.as_deref(), Some("/tf"));
    assert_eq!(d.color, [1, 2, 3, 4]);
    assert!(d.enabled);
    assert_eq!(f32::from_bits(d.alpha), 1.0);
    let e = DisplayInfo::default();
    assert_eq!(e.name, "Display");
    assert_eq!(e.display_type, DisplayType::Markers);
}

#[test]
fn panel_defaults_once() {
    let mut panel = DisplaysPanel::new();
    assert_eq!(panel.display_count(), 0);
    panel.ensure_default_displays();
    assert_eq!(panel.display_count(), 2);
    assert_eq!(panel.displays()[0].display_type, DisplayType::Grid);
    assert_eq!(panel.displays()[0].id, 0);
    assert_eq!(panel.displays()[1].display_type, DisplayType::Axes);
    assert_eq!(panel.displays()[1].id, 1);
    panel.ensure_default_displays();
    assert_eq!(panel.display_count(), 2);
    assert_eq!(panel.add_display(DisplayType::Path), 2);
}

#[test]
fn panel_remove_moves_selection() {
    let mut panel = DisplaysPanel::new();
    let a = panel.add_display(DisplayType::Grid);
    let b = panel.add_display(DisplayType::Axes);
    let c = panel.add_display(DisplayType::Pose);
    panel.select(c);
    assert_eq!(panel.selected_display_id(), Some(c));
    assert!(panel.remove_display(a));
    assert_eq!(panel.selected_display_id(), Some(c));
    assert!(!panel.remove_display(a));
    assert!(panel.remove_display(c));
    assert_eq!(panel.selected_display_id(), None);
    assert!(panel.selected_display().is_none());
    assert_eq!(panel.get_display(b).map(|d| d.display_type), Some(DisplayType::Axes));
    assert!(panel.get_display(c).is_none());
}

#[test]
fn panel_add_info_and_set_displays() {
    let mut panel = DisplaysPanel::new();
    assert_eq!(panel.add_display_info(DisplayInfo::new(0, DisplayType::Grid)), 0);
    assert_eq!(panel.add_display_info(DisplayInfo::new(40, DisplayType::Axes)), 40);
    assert_eq!(panel.add_display(DisplayType::TF), 1);
    panel.set_displays(vec![
        DisplayInfo::new(9, DisplayType::Grid),
        DisplayInfo::new(3, DisplayType::Axes),
    ]);
    assert_eq!(panel.add_display(DisplayType::TF), 10);
    panel.set_displays(Vec::new());
    assert_eq!(panel.display_count(), 0);
    assert_eq!(panel.add_display(DisplayType::TF), 11);
}

#[test]
fn panel_enable_status_and_text() {
    let mut panel = DisplaysPanel::new();
    panel.ensure_default_displays();
    panel.set_display_enabled(1, false);
    panel.set_display_status(0, 1, Some("no data".to_string()));
    panel.select(1);
    assert_eq!(
        panel.format_display_list(),
        "  [x] Grid - Grid [WARN]\n >[ ] Axes - Axes [OK]"
    );
    assert_eq!(panel.displays()[0].status_message.as_deref(), Some("no data"));
    panel.set_display_status(1, 2, None);
    panel.deselect();
    assert_eq!(
        panel.format_display_list(),
        "  [x] Grid - Grid [WARN]\n  [ ] Axes - Axes [ERR]"
    );
    assert_eq!(DisplaysPanel::new().format_display_list(), "");
}
