use forge_egui::node_graph::{GraphEdge, GraphEvent, GraphSelection, PendingConnection, Port, PortType};

#[test]
fn type_compatibility_matrix() {
    let (trigger, string, number, boolean, object, array, any) = (
        PortType::Trigger,
        PortType::String,
        PortType::Number,
        PortType::Boolean,
        PortType::Object,
        PortType::Array,
        PortType::Any,
    );
    let data = [string, number, boolean, object, array];
    // Same type always connects.
    for ty in [trigger, string, number, boolean, object, array, any] {
        assert!(ty.can_connect(ty), "{ty:?} should connect to itself");
    }
    // Any <-> data types, both directions.
    for ty in data {
        assert!(any.can_connect(ty));
        assert!(ty.can_connect(any));
    }
    // Distinct data types never connect.
    for a in data {
        for b in data {
            if a != b {
                assert!(!a.can_connect(b), "{a:?} must not connect to {b:?}");
            }
        }
    }
    // Trigger only to trigger, not even Any.
    for ty in data {
        assert!(!trigger.can_connect(ty));
        assert!(!ty.can_connect(trigger));
    }
    assert!(!trigger.can_connect(any));
    assert!(!any.can_connect(trigger));
}

fn ids(list: &[&str]) -> Vec<String> {
    list.iter().map(|s| s.to_string()).collect()
}

#[test]
fn node_click_selects_and_canvas_click_deselects() {
    let mut state = GraphSelection::new();
    let ev = state.click_node(&"a".to_string());
    assert_eq!(state.selected.as_deref(), Some("a"));
    assert!(matches!(ev, Some(GraphEvent::Selected(Some(ref id))) if id == "a"));
    // Clicking the selected node again reports nothing.
    assert!(state.click_node(&"a".to_string()).is_none());
    let ev = state.click_canvas();
    assert_eq!(state.selected, None);
    assert!(matches!(ev, Some(GraphEvent::Selected(None))));
}

#[test]
fn edges_render_without_panic_and_stale_selection_clears() {
    let mut state = GraphSelection::new();
    // Points past the end of the edges slice: must be dropped.
    state.selected_edge = Some(5);
    state.selected = Some("gone".into());
    let edges = vec![GraphEdge::new("a", 0, "b", 0), GraphEdge::new("a", 1, "b", 1)];
    state.prune(&ids(&["a", "b"]), edges.len());
    assert_eq!(state.selected_edge, None);
    assert_eq!(state.selected, None, "missing node id clears");
}

#[test]
fn prune_keeps_live_selections() {
    let mut state = GraphSelection { selected: Some("b".into()), selected_edge: None };
    state.prune(&ids(&["a", "b"]), 2);
    assert_eq!(state.selected.as_deref(), Some("b"));
    let mut state = GraphSelection { selected: None, selected_edge: Some(1) };
    state.prune(&ids(&[]), 2);
    assert_eq!(state.selected_edge, Some(1));
}

#[test]
fn edge_click_selects_then_disconnects() {
    let mut state = GraphSelection { selected: Some("a".into()), selected_edge: None };
    let ev = state.click_edge(1);
    assert!(matches!(ev, Some(GraphEvent::Selected(None))));
    assert_eq!(state.selected, None);
    assert_eq!(state.selected_edge, Some(1));
    let ev = state.click_edge(1);
    assert!(matches!(ev, Some(GraphEvent::Disconnected { index: 1 })));
    assert_eq!(state.selected_edge, None);
    // Selecting an edge with no node selected reports nothing.
    assert!(state.click_edge(0).is_none());
}

#[test]
fn delete_prefers_the_selected_edge() {
    let mut state = GraphSelection { selected: None, selected_edge: Some(3) };
    assert!(matches!(state.delete(), Some(GraphEvent::Disconnected { index: 3 })));
    assert!(state.delete().is_none());
    let mut state = GraphSelection { selected: Some("n".into()), selected_edge: None };
    assert!(matches!(state.delete(), Some(GraphEvent::Deleted(ref id)) if id == "n"));
    assert_eq!(state.selected, None);
}

#[test]
fn drops_connect_only_compatible_other_nodes() {
    let pending = PendingConnection { from: ("a".into(), 1), ty: PortType::Object };
    assert!(pending.accepts(&"b".to_string(), PortType::Object));
    assert!(pending.accepts(&"b".to_string(), PortType::Any));
    assert!(!pending.accepts(&"b".to_string(), PortType::Number));
    assert!(!pending.accepts(&"a".to_string(), PortType::Object));
    let edge = pending.edge_to(&"b".to_string(), 1);
    assert_eq!(edge.from, ("a".to_string(), 1));
    assert_eq!(edge.to, ("b".to_string(), 1));
}

#[test]
fn ports_and_edges_keep_their_fields() {
    let p = Port::new("data", PortType::Object);
    assert_eq!(p.name, "data");
    assert_eq!(p.ty, PortType::Object);
    assert_eq!(PortType::default(), PortType::Any);
    let e = GraphEdge::new("x", 2, "y", 3).clone();
    assert_eq!(e.from, ("x".to_string(), 2));
    assert_eq!(e.to, ("y".to_string(), 3));
}

#[test]
fn releasing_a_drag_connects_only_compatible_inputs() {
    let pending = PendingConnection { from: ("a".into(), 0), ty: PortType::Trigger };
    let b = "b".to_string();
    match pending.release(Some((&b, 0, PortType::Trigger))) {
        Some(GraphEvent::Connected { edge }) => {
            assert_eq!(edge.from, ("a".to_string(), 0));
            assert_eq!(edge.to, ("b".to_string(), 0));
        }
        other => panic!("expected a connection, got {other:?}"),
    }
    assert!(pending.release(Some((&b, 1, PortType::Object))).is_none());
    assert!(pending.release(None).is_none());
}
