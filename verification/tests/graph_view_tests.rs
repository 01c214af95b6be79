use mviz::graph_view::DataflowGraphWidget;

/// The drawing written out the way the panel's format strings lay it out.
fn expected(nodes: &[(&str, bool)], edges: &[(&str, &str, &str, &str)]) -> String {
    let mut text = String::new();
    for (id, active) in nodes {
        for (from_node, from_port, to_node, _) in edges {
            if to_node == id {
                text.push_str(&format!("     {} / {}\n", from_node, from_port));
                text.push_str("           ↓\n");
            }
        }
        let name_len = id.len().max(8);
        let border: String = "─".repeat(name_len + 8);
        text.push_str(&format!("  ┌{}┐\n", border));
        text.push_str(&format!(
            "  │ {} {:<width$} [{}]{} │\n",
            if *active { "🟢" } else { "⚪" },
            id,
            if *active { "RUN" } else { "---" },
            "",
            width = name_len
        ));
        text.push_str(&format!("  └{}┘\n", border));
        let out = edges.iter().filter(|e| e.0 == *id).count();
        if out > 0 {
            text.push_str(&format!("     ↓ {} output(s)\n", out));
        }
        text.push_str("\n");
    }
    text.push_str(&format!("━━━ {} nodes, {} edges ━━━", nodes.len(), edges.len()));
    text
}

fn owned_nodes(nodes: &[(&str, bool)]) -> Vec<(String, bool)> {
    nodes.iter().map(|(n, a)| (n.to_string(), *a)).collect()
}

fn owned_edges(edges: &[(&str, &str, &str, &str)]) -> Vec<(String, String, String, String)> {
    edges
        .iter()
        .map(|(a, b, c, d)| (a.to_string(), b.to_string(), c.to_string(), d.to_string()))
        .collect()
}

#[test]
fn empty_graph_waits() {
    let g = DataflowGraphWidget::new();
    assert_eq!(
        g.format_visual_graph(),
        "Waiting for dataflow graph...\n\nConnect to a running Dora dataflow to see the node graph."
    );
    assert!(g.selected_node().is_none());
}

#[test]
fn graph_drawing_exact() {
    let nodes = [("camera", true), ("detector", false)];
    let edges = [("camera", "image", "detector", "image")];
    let mut g = DataflowGraphWidget::new();
    g.update_from_graph_update(owned_nodes(&nodes), owned_edges(&edges), 1.5f64.to_bits());
    let text = g.format_visual_graph();
    assert_eq!(text, expected(&nodes, &edges));
    assert!(text.starts_with("  ┌────────────────┐\n  │ 🟢 camera   [RUN] │\n"));
    assert!(text.contains("     camera / image\n           ↓\n  ┌"));
    assert!(text.contains("     ↓ 1 output(s)\n"));
    assert!(text.ends_with("━━━ 2 nodes, 1 edges ━━━"));
    assert_eq!(f64::from_bits(g.last_update()), 1.5);
}

#[test]
fn long_and_wide_names() {
    let nodes = [("a_rather_long_node_name", true), ("héllo", false), ("x", true)];
    let edges = [
        ("x", "out", "héllo", "in"),
        ("x", "out2", "a_rather_long_node_name", "in"),
        ("héllo", "o", "x", "i"),
    ];
    let mut g = DataflowGraphWidget::new();
    g.update_from_graph_update(owned_nodes(&nodes), owned_edges(&edges), 0);
    assert_eq!(g.format_visual_graph(), expected(&nodes, &edges));
    g.clear();
    assert_eq!(g.last_update(), 0);
    assert!(g.format_visual_graph().starts_with("Waiting"));
}
