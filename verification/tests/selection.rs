use blinc_canvas_kit::id_set::IdSet;
use blinc_canvas_kit::selection::{CanvasTool, MarqueeState, SelectionState};
use blinc_core::layer::Point;

#[test]
fn test_default_empty() {
    let sel = SelectionState::new();
    assert!(sel.selected.is_empty());
    assert!(sel.marquee.is_none());
}

#[test]
fn test_select_single() {
    let mut sel = SelectionState::new();
    sel.select_single("a".into());
    assert!(sel.is_selected("a"));
    assert_eq!(sel.selected.len(), 1);

    sel.select_single("b".into());
    assert!(!sel.is_selected("a"));
    assert!(sel.is_selected("b"));
    assert_eq!(sel.selected.len(), 1);
}

#[test]
fn test_toggle() {
    let mut sel = SelectionState::new();
    sel.toggle("a");
    assert!(sel.is_selected("a"));
    sel.toggle("a");
    assert!(!sel.is_selected("a"));
}

#[test]
fn test_add_and_clear() {
    let mut sel = SelectionState::new();
    sel.add("a".into());
    sel.add("b".into());
    sel.add("c".into());
    assert_eq!(sel.selected.len(), 3);

    sel.clear();
    assert!(sel.selected.is_empty());
}

#[test]
fn test_replace() {
    let mut sel = SelectionState::new();
    sel.add("old".into());

    let mut new_set = IdSet::new();
    new_set.insert("x".into());
    new_set.insert("y".into());
    sel.replace(new_set);

    assert!(!sel.is_selected("old"));
    assert!(sel.is_selected("x"));
    assert!(sel.is_selected("y"));
}

#[test]
fn test_marquee_rect() {
    let marquee = MarqueeState {
        anchor: Point::new(100.0, 200.0),
        current: Point::new(50.0, 300.0),
        additive: false,
        base_selection: IdSet::new(),
    };
    let r = marquee.rect();
    assert!((r.x() - 50.0).abs() < 1e-6);
    assert!((r.y() - 200.0).abs() < 1e-6);
    assert!((r.width() - 50.0).abs() < 1e-6);
    assert!((r.height() - 100.0).abs() < 1e-6);
}

#[test]
fn test_tool_default() {
    assert_eq!(CanvasTool::default(), CanvasTool::Pan);
}

#[test]
fn add_existing_keeps_single_entry() {
    let mut sel = SelectionState::new();
    sel.add("a".into());
    sel.add("a".into());
    assert_eq!(sel.selected.len(), 1);
}

#[test]
fn toggle_twice_restores_selection() {
    let mut sel = SelectionState::new();
    sel.add("a".into());
    sel.add("b".into());
    sel.toggle("c");
    sel.toggle("c");
    assert_eq!(sel.selected.len(), 2);
    assert!(sel.is_selected("a"));
    assert!(sel.is_selected("b"));
    assert!(!sel.is_selected("c"));
}

#[test]
fn set_selection_reports_added_and_removed() {
    let mut sel = SelectionState::new();
    sel.add("a".into());
    sel.add("b".into());
    let mut ids = IdSet::new();
    ids.insert("b".into());
    ids.insert("c".into());
    let ev = sel.set_selection(ids).expect("selection changed");
    assert_eq!(ev.selected.len(), 2);
    assert!(ev.added.contains("c"));
    assert_eq!(ev.added.len(), 1);
    assert!(ev.removed.contains("a"));
    assert_eq!(ev.removed.len(), 1);
    assert!(sel.is_selected("b"));
    assert!(sel.is_selected("c"));
    assert!(!sel.is_selected("a"));
}

#[test]
fn set_selection_same_ids_is_silent() {
    let mut sel = SelectionState::new();
    sel.add("a".into());
    sel.add("b".into());
    let mut ids = IdSet::new();
    ids.insert("b".into());
    ids.insert("a".into());
    assert!(sel.set_selection(ids).is_none());
    assert_eq!(sel.selected.len(), 2);
}

#[test]
fn id_set_difference_and_extend() {
    let mut a = IdSet::new();
    a.insert("x".into());
    a.insert("y".into());
    let mut b = IdSet::new();
    b.insert("y".into());
    b.insert("z".into());
    let d = a.difference(&b);
    assert_eq!(d.len(), 1);
    assert!(d.contains("x"));
    a.extend(&b);
    assert_eq!(a.len(), 3);
    assert_eq!(a.get(2), "z");
    assert!(a.remove("y"));
    assert!(!a.remove("y"));
    assert_eq!(a.len(), 2);
    assert_eq!(a.get(0), "x");
    assert_eq!(a.get(1), "z");
}
