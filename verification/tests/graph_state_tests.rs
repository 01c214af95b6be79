use mviz::graph_state::GraphState;
use mviz::protocol::{NodeDefinition, NodeInputDef};

fn input(name: &str, source: &str) -> NodeInputDef {
    NodeInputDef { name: name.to_string(), source: source.to_string() }
}

fn node(id: &str, inputs: Vec<NodeInputDef>) -> NodeDefinition {
    NodeDefinition { id: id.to_string(), inputs, outputs: Vec::new(), operator: None }
}

fn sorted(mut v: Vec<String>) -> Vec<String> {
    v.sort();
    v
}

#[test]
fn graph_from_definitions() {
    let defs = vec![
        node("camera", vec![input("tick", "dora/timer/millis/100")]),
        node("detector", vec![input("image", "camera/image"), input("cfg", "config")]),
        node("mviz_bridge", vec![input("boxes", "detector/boxes"), input("image", "camera/image")]),
    ];
    let mut g = GraphState::new();
    g.init_from_definitions(&defs);
    let nodes = sorted(g.nodes().to_vec());
    assert_eq!(nodes, vec!["camera", "config", "detector", "dora", "mviz_bridge"]);
    let mut edges: Vec<(String, String, String, String)> = g.edges().to_vec();
    edges.sort();
    assert_eq!(edges.len(), 4);
    assert_eq!(
        edges[0],
        ("camera".to_string(), "image".to_string(), "detector".to_string(), "image".to_string())
    );
    assert_eq!(
        edges[2],
        ("detector".to_string(), "boxes".to_string(), "mviz_bridge".to_string(), "boxes".to_string())
    );
    assert_eq!(
        edges[3],
        ("dora".to_string(), "timer".to_string(), "camera".to_string(), "tick".to_string())
    );
    // Reading the same definitions again adds nothing.
    g.init_from_definitions(&defs);
    assert_eq!(g.nodes().len(), 5);
    assert_eq!(g.edges().len(), 4);
}

#[test]
fn activity_follows_inputs() {
    let defs = vec![node("mviz_bridge", vec![input("boxes", "detector/boxes")])];
    let mut g = GraphState::new();
    g.init_from_definitions(&defs);
    assert_eq!(g.last_seen("detector"), 0);
    g.record_input("boxes", 2.5f64.to_bits());
    assert_eq!(f64::from_bits(g.last_seen("detector")), 2.5);
    assert_eq!(f64::from_bits(g.last_seen("mviz_bridge")), 2.5);
    g.record_input("lidar/points", 3.0f64.to_bits());
    assert_eq!(f64::from_bits(g.last_seen("lidar")), 3.0);
    assert_eq!(f64::from_bits(g.last_seen("mviz_bridge")), 3.0);
    assert_eq!(f64::from_bits(g.last_seen("detector")), 2.5);
    g.record_input("plain", 4.0f64.to_bits());
    assert_eq!(g.last_seen("plain"), 0);
    assert_eq!(f64::from_bits(g.last_seen("mviz_bridge")), 4.0);
}
