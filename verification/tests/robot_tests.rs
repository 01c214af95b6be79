use mviz::displays::GridPlane;
use mviz::color::Axis;
use mviz::robot::{Joint, JointType, Link, RobotDescription};

#[test]
fn test_robot_description() {
    let mut robot = RobotDescription::new("test_robot");

    robot.insert_link(Link::new("base_link"));
    robot.insert_link(Link::new("link1"));
    robot.insert_joint(Joint::fixed("joint1", "base_link", "link1"));
    robot.root_link = Some("base_link".to_string());

    assert_eq!(robot.link_names().len(), 2);
    assert_eq!(robot.joint_names().len(), 1);
    assert_eq!(robot.parent_link("link1"), Some("base_link"));
    assert_eq!(robot.child_links("base_link"), vec!["link1"]);
}

#[test]
fn test_chain_to_link() {
    let mut robot = RobotDescription::new("arm");

    robot.insert_link(Link::new("base"));
    robot.insert_link(Link::new("link1"));
    robot.insert_link(Link::new("link2"));
    robot.insert_link(Link::new("link3"));

    robot.insert_joint(Joint::fixed("j1", "base", "link1"));
    robot.insert_joint(Joint::fixed("j2", "link1", "link2"));
    robot.insert_joint(Joint::fixed("j3", "link2", "link3"));
    robot.root_link = Some("base".to_string());

    let chain = robot.chain_to_link("link3");
    assert_eq!(chain, vec!["base", "link1", "link2", "link3"]);
}

#[test]
fn joints_replace_by_name_and_cycles_are_detected() {
    let mut robot = RobotDescription::new("r");
    robot.insert_joint(Joint::fixed("j", "a", "b"));
    robot.insert_joint(Joint::fixed("j", "c", "b"));
    assert_eq!(robot.joint_names(), vec!["j".to_string()]);
    assert_eq!(robot.parent_link("b"), Some("c"));
    assert_eq!(robot.parent_joint("b").unwrap().joint_type, JointType::Fixed);
    assert!(robot.parent_joint("c").is_none());
    assert!(robot.reaches_root("b"));
    robot.insert_joint(Joint::fixed("k", "b", "c"));
    assert!(!robot.reaches_root("b"));
    robot.insert_link(Link::new("a"));
    robot.insert_link(Link::new("a"));
    assert_eq!(robot.link_names(), vec!["a".to_string()]);
}

#[test]
fn test_grid_plane_basis() {
    let (x, y) = GridPlane::XY.basis_axes();
    assert_eq!(x, Axis::X);
    assert_eq!(y, Axis::Y);

    let (x, z) = GridPlane::XZ.basis_axes();
    assert_eq!(x, Axis::X);
    assert_eq!(z, Axis::Z);
}

#[test]
fn grid_plane_normals() {
    assert_eq!(GridPlane::XY.normal_axis(), Axis::Z);
    assert_eq!(GridPlane::XZ.normal_axis(), Axis::Y);
    assert_eq!(GridPlane::YZ.normal_axis(), Axis::X);
}
