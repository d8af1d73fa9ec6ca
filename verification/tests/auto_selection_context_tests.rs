use warp::auto_selection_context::{AutoCodeSelectionContextModel, CodeSelectionContext};

fn selection(path: &str) -> CodeSelectionContext {
    CodeSelectionContext {
        relative_file_path: path.to_string(),
        line_range: 1..2,
        selected_text: "let value = 1;".to_string(),
    }
}

#[test]
fn unique_selection_returns_only_selection_for_window() {
    let window_id = 7;
    let source_id = 11;
    let mut model = AutoCodeSelectionContextModel::default();
    model.set_selection(window_id, source_id, Some(selection("src/main.rs")));

    assert_eq!(
        model.unique_selection_for_window(window_id),
        Some(selection("src/main.rs"))
    );
}

#[test]
fn unique_selection_returns_none_for_ambiguous_window() {
    let window_id = 7;
    let mut model = AutoCodeSelectionContextModel::default();
    model.set_selection(window_id, 1, Some(selection("src/one.rs")));
    model.set_selection(window_id, 2, Some(selection("src/two.rs")));

    assert_eq!(model.unique_selection_for_window(window_id), None);
}

#[test]
fn remove_selection_clears_empty_window_bucket() {
    let window_id = 7;
    let source_id = 11;
    let mut model = AutoCodeSelectionContextModel::default();
    model.set_selection(window_id, source_id, Some(selection("src/main.rs")));

    model.remove_selection(window_id, source_id);

    assert_eq!(model.unique_selection_for_window(window_id), None);
    assert!(!model.has_selections_for_window(window_id));
}

#[test]
fn clearing_a_selection_with_none_removes_it() {
    let mut model = AutoCodeSelectionContextModel::new();
    model.set_selection(1, 1, Some(selection("a.rs")));
    model.set_selection(1, 2, Some(selection("b.rs")));
    assert_eq!(model.unique_selection_for_window(1), None);
    model.set_selection(1, 1, None);
    assert_eq!(model.unique_selection_for_window(1), Some(selection("b.rs")));
    model.set_selection(1, 2, None);
    assert!(!model.has_selections_for_window(1));
}

#[test]
fn windows_are_kept_apart_and_later_selection_replaces_earlier() {
    let mut model = AutoCodeSelectionContextModel::new();
    model.set_selection(1, 5, Some(selection("a.rs")));
    model.set_selection(2, 5, Some(selection("b.rs")));
    model.set_selection(1, 5, Some(selection("c.rs")));
    assert_eq!(model.unique_selection_for_window(1), Some(selection("c.rs")));
    assert_eq!(model.unique_selection_for_window(2), Some(selection("b.rs")));
    assert_eq!(model.unique_selection_for_window(3), None);
    model.remove_selection(3, 5);
    model.remove_selection(1, 9);
    assert_eq!(model.unique_selection_for_window(1), Some(selection("c.rs")));
}
