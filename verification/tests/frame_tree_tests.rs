use mviz::frame::FrameId;
use mviz::frame_tree::FrameTree;

fn frame(s: &str) -> FrameId {
    FrameId::new(s)
}

#[test]
fn test_empty_tree() {
    let tree = FrameTree::new();
    assert!(tree.is_empty());
    assert_eq!(tree.len(), 0);
}

#[test]
fn test_add_root() {
    let mut tree = FrameTree::new();
    tree.add_root(frame("world"));

    assert!(tree.contains(&frame("world")));
    assert_eq!(tree.len(), 1);
    assert!(tree.get(&frame("world")).unwrap().is_root());
}

#[test]
fn test_set_parent() {
    let mut tree = FrameTree::new();
    tree.set_parent(frame("base_link"), frame("world"));

    assert!(tree.contains(&frame("world")));
    assert!(tree.contains(&frame("base_link")));
    assert_eq!(tree.parent(&frame("base_link")), Some(&frame("world")));
    assert!(tree.children(&frame("world")).unwrap().contains(&frame("base_link")));
}

#[test]
fn test_reparenting() {
    let mut tree = FrameTree::new();
    tree.set_parent(frame("child"), frame("parent1"));
    tree.set_parent(frame("child"), frame("parent2"));

    assert_eq!(tree.parent(&frame("child")), Some(&frame("parent2")));
    assert!(!tree.children(&frame("parent1")).unwrap().contains(&frame("child")));
    assert!(tree.children(&frame("parent2")).unwrap().contains(&frame("child")));
}

#[test]
fn test_path_to_root() {
    let mut tree = FrameTree::new();
    tree.add_root(frame("world"));
    tree.set_parent(frame("odom"), frame("world"));
    tree.set_parent(frame("base_link"), frame("odom"));
    tree.set_parent(frame("sensor"), frame("base_link"));

    let path = tree.path_to_root(&frame("sensor"));
    assert_eq!(path.len(), 4);
    assert_eq!(path[0], frame("sensor"));
    assert_eq!(path[1], frame("base_link"));
    assert_eq!(path[2], frame("odom"));
    assert_eq!(path[3], frame("world"));
}

#[test]
fn test_common_ancestor() {
    let mut tree = FrameTree::new();
    tree.add_root(frame("world"));
    tree.set_parent(frame("odom"), frame("world"));
    tree.set_parent(frame("map"), frame("world"));
    tree.set_parent(frame("base_link"), frame("odom"));
    tree.set_parent(frame("left"), frame("base_link"));
    tree.set_parent(frame("right"), frame("base_link"));

    // Same subtree
    assert_eq!(
        tree.common_ancestor(&frame("left"), &frame("right")),
        Some(frame("base_link"))
    );

    // Different subtrees under world
    assert_eq!(
        tree.common_ancestor(&frame("left"), &frame("map")),
        Some(frame("world"))
    );

    // Direct ancestor
    assert_eq!(
        tree.common_ancestor(&frame("base_link"), &frame("world")),
        Some(frame("world"))
    );
}

#[test]
fn test_path_between() {
    let mut tree = FrameTree::new();
    tree.add_root(frame("world"));
    tree.set_parent(frame("odom"), frame("world"));
    tree.set_parent(frame("base_link"), frame("odom"));
    tree.set_parent(frame("left"), frame("base_link"));
    tree.set_parent(frame("right"), frame("base_link"));

    let (up, ancestor, down) = tree.path_between(&frame("left"), &frame("right")).unwrap();

    assert_eq!(ancestor, frame("base_link"));
    assert_eq!(up, vec![frame("left")]);
    assert_eq!(down, vec![frame("right")]);
}

#[test]
fn test_remove_frame() {
    let mut tree = FrameTree::new();
    tree.add_root(frame("world"));
    tree.set_parent(frame("odom"), frame("world"));
    tree.set_parent(frame("base_link"), frame("odom"));

    tree.remove(&frame("odom"));

    assert!(!tree.contains(&frame("odom")));
    assert!(!tree.children(&frame("world")).unwrap().contains(&frame("odom")));
    // base_link should now be a root
    assert!(tree.get(&frame("base_link")).unwrap().is_root());
}

#[test]
fn test_depth() {
    let mut tree = FrameTree::new();
    tree.add_root(frame("world"));
    tree.set_parent(frame("odom"), frame("world"));
    tree.set_parent(frame("base_link"), frame("odom"));

    assert_eq!(tree.depth(&frame("world")), 0);
    assert_eq!(tree.depth(&frame("odom")), 1);
    assert_eq!(tree.depth(&frame("base_link")), 2);
}

#[test]
fn test_all_frames() {
    let mut tree = FrameTree::new();
    tree.add_root(frame("world"));
    tree.set_parent(frame("odom"), frame("world"));
    tree.set_parent(frame("base_link"), frame("odom"));

    let frames = tree.all_frames();
    assert_eq!(frames.len(), 3);
}

#[test]
fn test_root_frames() {
    let mut tree = FrameTree::new();
    tree.add_root(frame("world"));
    tree.add_root(frame("map"));
    tree.set_parent(frame("odom"), frame("world"));

    let roots = tree.root_frames();
    assert_eq!(roots.len(), 2);
}

#[test]
fn test_has_path() {
    let mut tree = FrameTree::new();
    tree.add_root(frame("world"));
    tree.add_root(frame("isolated"));
    tree.set_parent(frame("base_link"), frame("world"));

    assert!(tree.has_path(&frame("base_link"), &frame("world")));
    assert!(!tree.has_path(&frame("base_link"), &frame("isolated")));
}

#[test]
fn cycle_is_not_rooted() {
    let mut tree = FrameTree::new();
    tree.set_parent(frame("a"), frame("b"));
    tree.set_parent(frame("b"), frame("a"));
    assert!(!tree.is_rooted(&frame("a")));
    let mut ok = FrameTree::new();
    ok.set_parent(frame("a"), frame("b"));
    assert!(ok.is_rooted(&frame("a")));
}

#[test]
fn common_ancestor_is_symmetric_on_example() {
    let mut tree = FrameTree::new();
    tree.set_parent(frame("odom"), frame("world"));
    tree.set_parent(frame("map"), frame("world"));
    tree.set_parent(frame("base"), frame("odom"));
    assert_eq!(tree.common_ancestor(&frame("base"), &frame("map")), tree.common_ancestor(&frame("map"), &frame("base")));
}

#[test]
fn clear_and_iter() {
    let mut tree = FrameTree::new();
    tree.set_parent(frame("b"), frame("a"));
    assert_eq!(tree.iter().len(), 2);
    tree.clear();
    assert!(tree.is_empty());
}

#[test]
fn set_parent_puts_the_child_under_the_parents_path() {
    let mut tree = FrameTree::new();
    tree.set_parent(frame("base_link"), frame("odom"));
    tree.set_parent(frame("odom"), frame("map"));
    assert_eq!(tree.depth(&frame("base_link")), 2);
    tree.set_parent(frame("laser"), frame("base_link"));
    assert_eq!(
        tree.path_to_root(&frame("laser")),
        vec![frame("laser"), frame("base_link"), frame("odom"), frame("map")]
    );
    assert_eq!(tree.depth(&frame("laser")), tree.depth(&frame("base_link")) + 1);
    assert_eq!(tree.depth(&frame("odom")), 1);
}

#[test]
fn path_between_a_frame_and_itself() {
    let mut tree = FrameTree::new();
    tree.set_parent(frame("base_link"), frame("world"));
    let (up, ancestor, down) = tree.path_between(&frame("base_link"), &frame("base_link")).unwrap();
    assert!(up.is_empty());
    assert_eq!(ancestor, frame("base_link"));
    assert!(down.is_empty());
}

#[test]
fn common_ancestor_is_the_lowest_shared_frame() {
    let mut tree = FrameTree::new();
    tree.set_parent(frame("odom"), frame("map"));
    tree.set_parent(frame("base_link"), frame("odom"));
    tree.set_parent(frame("left"), frame("base_link"));
    tree.set_parent(frame("right"), frame("base_link"));
    assert_eq!(tree.common_ancestor(&frame("left"), &frame("right")), Some(frame("base_link")));
    assert_eq!(tree.common_ancestor(&frame("right"), &frame("left")), Some(frame("base_link")));
}

#[test]
fn has_path_exactly_under_one_root() {
    let mut tree = FrameTree::new();
    tree.set_parent(frame("a"), frame("root1"));
    tree.set_parent(frame("b"), frame("root1"));
    tree.set_parent(frame("c"), frame("root2"));
    assert!(tree.has_path(&frame("a"), &frame("b")));
    assert!(!tree.has_path(&frame("a"), &frame("c")));
    assert!(tree.has_path(&frame("c"), &frame("c")));
    assert_eq!(tree.path_to_root(&frame("a")).last(), tree.path_to_root(&frame("b")).last());
}
