use mviz::dataflow_doc::{dataflow_definitions, dataflow_nodes, document_node_specs, YamlValue};

const DATAFLOW: &str = "nodes:
  - id: camera
    operator:
      python: camera.py
      inputs:
        tick: dora/timer/millis/100
      outputs:
        - image
  - id: detector
    operator:
      rust: detector
      inputs:
        image: camera/image
      outputs:
        - boxes
        - 7
  - id: plot
    inputs:
      boxes: detector/boxes
      image: camera/image
  - name: unnamed
";

#[test]
fn dataflow_document_gives_node_descriptions() {
    let nodes = dataflow_nodes(DATAFLOW).unwrap();
    assert_eq!(nodes.len(), 4);
    assert_eq!(nodes[0].id.as_deref(), Some("camera"));
    let op = nodes[0].operator.as_ref().unwrap();
    assert_eq!(op.python.as_deref(), Some("camera.py"));
    assert_eq!(op.rust, None);
    assert_eq!(op.inputs.len(), 1);
    assert_eq!(op.inputs[0].name.as_deref(), Some("tick"));
    assert_eq!(op.inputs[0].source.as_deref(), Some("dora/timer/millis/100"));
    assert_eq!(op.outputs, vec![Some("image".to_string())]);
    let det = nodes[1].operator.as_ref().unwrap();
    assert_eq!(det.rust.as_deref(), Some("detector"));
    assert_eq!(det.outputs, vec![Some("boxes".to_string()), None]);
    assert!(nodes[2].operator.is_none());
    assert_eq!(nodes[2].inputs.len(), 2);
    assert_eq!(nodes[3].id, None);
}

#[test]
fn dataflow_document_gives_definitions() {
    let defs = dataflow_definitions(DATAFLOW).unwrap();
    assert_eq!(defs.len(), 3);
    assert_eq!(defs[0].id, "camera");
    assert_eq!(defs[0].operator.as_deref(), Some("camera.py"));
    assert_eq!(defs[0].outputs.len(), 1);
    assert_eq!(defs[0].outputs[0].name, "image");
    let mut receivers = defs[0].outputs[0].destinations.clone();
    receivers.sort();
    assert_eq!(receivers, vec!["detector".to_string(), "plot".to_string()]);
    assert_eq!(defs[1].operator.as_deref(), Some("detector"));
    assert_eq!(defs[2].id, "plot");
    assert_eq!(defs[2].inputs.len(), 2);
    assert_eq!(defs[2].operator, None);
}

#[test]
fn text_that_is_no_yaml_gives_none() {
    assert!(dataflow_nodes("nodes: [unclosed").is_none());
    assert!(dataflow_definitions("a: b: c").is_none());
}

#[test]
fn document_without_nodes_gives_none_described() {
    assert_eq!(dataflow_nodes("other: 1").unwrap().len(), 0);
    assert_eq!(dataflow_nodes("nodes: 3").unwrap().len(), 0);
    assert_eq!(dataflow_definitions("- 1\n- 2").unwrap().len(), 0);
}

#[test]
fn tagged_nodes_are_read_through_their_tag() {
    let nodes = dataflow_nodes("nodes:\n  - !custom\n    id: tagged\n").unwrap();
    assert_eq!(nodes.len(), 1);
    assert_eq!(nodes[0].id.as_deref(), Some("tagged"));
}

#[test]
fn tree_walk_reads_only_string_keys() {
    let node = YamlValue::Mapping(vec![
        (YamlValue::Number, YamlValue::String("x".to_string())),
        (YamlValue::String("id".to_string()), YamlValue::String("first".to_string())),
        (YamlValue::String("id".to_string()), YamlValue::String("second".to_string())),
    ]);
    let doc = YamlValue::Mapping(vec![(
        YamlValue::String("nodes".to_string()),
        YamlValue::Sequence(vec![node, YamlValue::Null]),
    )]);
    let nodes = document_node_specs(&doc);
    assert_eq!(nodes.len(), 2);
    assert_eq!(nodes[0].id.as_deref(), Some("first"));
    assert_eq!(nodes[1].id, None);
    assert!(nodes[1].operator.is_none());
}
