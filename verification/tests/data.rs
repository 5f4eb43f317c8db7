use forge_egui::data::JsonViewerState;

#[test]
fn json_viewer_state_expansion_math() {
    // Pure state-level: pointer-path toggling, root open by default.
    let mut state = JsonViewerState::default();
    assert!(state.is_expanded(""));
    assert!(state.toggle("/nodes"));
    assert!(state.toggle("/nodes/0"));
    assert!(state.is_expanded("/nodes/0"));
    assert!(!state.toggle("/nodes"));
    // Collapsing a parent leaves the child's entry alone (re-expanding the
    // parent restores the subtree exactly).
    assert!(state.is_expanded("/nodes/0"));
}

#[test]
fn json_viewer_children_start_collapsed() {
    let mut state = JsonViewerState::new();
    assert!(!state.is_expanded("/nodes"));
    assert!(!state.toggle(""));
    assert!(!state.is_expanded(""));
    assert!(state.toggle(""));
    assert!(state.toggle("/a"));
    assert!(!state.toggle("/a"));
    assert!(!state.is_expanded("/a"));
    assert!(state.is_expanded(""));
}
