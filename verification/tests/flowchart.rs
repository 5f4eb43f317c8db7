use forge_egui::flowchart::{columns, layers, FlowEdge, FlowNode, Flowchart};
use forge_egui::tone::Tone;

fn demo() -> (Vec<FlowNode>, Vec<FlowEdge>) {
    let nodes = vec![
        FlowNode::new("a", "Start"),
        FlowNode::new("b", "Middle"),
        FlowNode::new("c", "End").tone(Tone::Success),
        FlowNode::new("d", "Side"),
    ];
    let edges = vec![
        FlowEdge::new("a", "b").label("go"),
        FlowEdge::new("b", "c").broken(true),
        FlowEdge::new("a", "d"),
        FlowEdge::new("d", "c"),
    ];
    (nodes, edges)
}

#[test]
fn layers_follow_edges_left_to_right() {
    let (nodes, edges) = demo();
    assert_eq!(layers(&nodes, &edges), vec![0, 1, 2, 1]);
    let l = Flowchart::new(&nodes, &edges).layers();
    for e in &edges {
        let from = nodes.iter().position(|n| n.id == e.from).unwrap();
        let to = nodes.iter().position(|n| n.id == e.to).unwrap();
        assert!(l[from] < l[to], "edge {} -> {} not left-to-right", e.from, e.to);
    }
}

#[test]
fn unknown_ends_and_cycles_terminate() {
    let nodes = vec![FlowNode::new("x", "X"), FlowNode::new("y", "Y")];
    let edges = vec![FlowEdge::new("x", "y"), FlowEdge::new("y", "x"), FlowEdge::new("x", "nowhere")];
    let l = layers(&nodes, &edges);
    assert_eq!(l.len(), 2);
    assert!(layers(&[], &[]).is_empty());
}

#[test]
fn columns_group_nodes_by_layer_in_order() {
    assert_eq!(columns(&vec![0, 1, 2, 1]), vec![vec![0], vec![1, 3], vec![2]]);
    assert!(columns(&vec![]).is_empty());
    assert_eq!(columns(&vec![2, 0]), vec![vec![1], vec![], vec![0]]);
}

#[test]
fn flow_builders_keep_fields() {
    let e = FlowEdge::new("a", "b").label("go").broken(true);
    assert_eq!(e.label.as_deref(), Some("go"));
    assert!(e.broken);
    let n = FlowNode::new("c", "End").tone(Tone::Success);
    assert_eq!(n.tone, Tone::Success);
    assert_eq!(n.label, "End");
}
