use blinc_canvas_kit::hit::InteractionState;
use blinc_canvas_kit::id_set::IdSet;
use blinc_canvas_kit::interaction::{
    drag_end, drag_mode, element_drag, marquee_drag, pointer_down, pointer_move, pointer_up,
    DragEnd, DragMode, Modifiers,
};
use blinc_canvas_kit::selection::{CanvasTool, SelectionState};
use blinc_core::layer::Point;

const PLAIN: Modifiers = Modifiers { shift: false, ctrl: false, meta: false };
const SHIFT: Modifiers = Modifiers { shift: true, ctrl: false, meta: false };
const CTRL: Modifiers = Modifiers { shift: false, ctrl: true, meta: false };

fn selected(sel: &SelectionState) -> Vec<String> {
    (0..sel.selected.len()).map(|i| sel.selected.get(i).clone()).collect()
}

#[test]
fn plain_click_on_unselected_selects_it_alone() {
    let mut sel = SelectionState::new();
    sel.add("a".into());
    let mut ia = InteractionState::default();
    let ev = pointer_down(&mut sel, &mut ia, Some("b".into()), CanvasTool::Pan, PLAIN, Point::new(1.0, 2.0))
        .expect("selection changed");
    assert_eq!(selected(&sel), vec!["b".to_string()]);
    assert!(ev.added.contains("b") && ev.removed.contains("a"));
    assert_eq!(ia.active.as_deref(), Some("b"));
    assert_eq!(ia.drag_start, Some(Point::new(1.0, 2.0)));
    assert!(!ia.did_drag);
}

#[test]
fn plain_click_on_selected_keeps_multi_selection_until_release() {
    let mut sel = SelectionState::new();
    sel.add("a".into());
    sel.add("b".into());
    let mut ia = InteractionState::default();
    assert!(pointer_down(&mut sel, &mut ia, Some("a".into()), CanvasTool::Pan, PLAIN, Point::new(0.0, 0.0)).is_none());
    assert_eq!(sel.selected.len(), 2);
    let out = pointer_up(&mut sel, &mut ia, PLAIN);
    assert_eq!(out.clicked.as_deref(), Some("a"));
    let narrowed = out.narrowed.expect("narrowed to the clicked region");
    assert!(narrowed.removed.contains("b"));
    assert_eq!(selected(&sel), vec!["a".to_string()]);
    assert!(ia.active.is_none() && ia.drag_start.is_none());
}

#[test]
fn ctrl_click_toggles_and_shift_click_adds() {
    let mut sel = SelectionState::new();
    sel.add("a".into());
    let mut ia = InteractionState::default();
    pointer_down(&mut sel, &mut ia, Some("a".into()), CanvasTool::Pan, CTRL, Point::new(0.0, 0.0));
    assert!(sel.selected.is_empty());
    pointer_down(&mut sel, &mut ia, Some("b".into()), CanvasTool::Pan, SHIFT, Point::new(0.0, 0.0));
    pointer_down(&mut sel, &mut ia, Some("c".into()), CanvasTool::Pan, SHIFT, Point::new(0.0, 0.0));
    assert_eq!(selected(&sel), vec!["b".to_string(), "c".to_string()]);
}

#[test]
fn background_click_in_pan_mode_clears_selection() {
    let mut sel = SelectionState::new();
    sel.add("a".into());
    let mut ia = InteractionState::default();
    let ev = pointer_down(&mut sel, &mut ia, None, CanvasTool::Pan, PLAIN, Point::new(5.0, 5.0));
    assert!(ev.expect("cleared").removed.contains("a"));
    assert!(sel.selected.is_empty());
    assert!(sel.marquee.is_none());
    assert_eq!(drag_mode(&sel, &ia), DragMode::Pan);
    assert_eq!(drag_end(&sel, &mut ia), DragEnd::Momentum);
}

#[test]
fn background_click_on_empty_selection_is_silent() {
    let mut sel = SelectionState::new();
    let mut ia = InteractionState::default();
    assert!(pointer_down(&mut sel, &mut ia, None, CanvasTool::Pan, PLAIN, Point::new(5.0, 5.0)).is_none());
}

#[test]
fn additive_marquee_joins_base_selection() {
    let mut sel = SelectionState::new();
    sel.add("a".into());
    let mut ia = InteractionState::default();
    assert!(pointer_down(&mut sel, &mut ia, None, CanvasTool::Pan, SHIFT, Point::new(0.0, 0.0)).is_none());
    let m = sel.marquee.as_ref().expect("marquee started");
    assert!(m.additive);
    assert!(m.base_selection.contains("a"));
    assert_eq!(drag_mode(&sel, &ia), DragMode::Marquee);

    let mut hits = IdSet::new();
    hits.insert("b".into());
    marquee_drag(&mut sel, Point::new(30.0, 40.0), hits);
    assert_eq!(selected(&sel), vec!["a".to_string(), "b".to_string()]);
    assert_eq!(sel.marquee.as_ref().unwrap().current, Point::new(30.0, 40.0));
    assert_eq!(drag_end(&sel, &mut ia), DragEnd::Idle);

    let out = pointer_up(&mut sel, &mut ia, SHIFT);
    assert!(out.clicked.is_none());
    let fin = out.marquee_finished.expect("marquee finished");
    assert!(fin.added.contains("b"));
    assert!(fin.removed.is_empty());
    assert!(sel.marquee.is_none());
}

#[test]
fn select_tool_marquee_replaces_selection() {
    let mut sel = SelectionState::new();
    sel.add("a".into());
    let mut ia = InteractionState::default();
    assert!(pointer_down(&mut sel, &mut ia, None, CanvasTool::Select, PLAIN, Point::new(0.0, 0.0)).is_none());
    assert!(sel.is_selected("a"));
    let mut hits = IdSet::new();
    hits.insert("c".into());
    marquee_drag(&mut sel, Point::new(10.0, 10.0), hits);
    assert_eq!(selected(&sel), vec!["c".to_string()]);
    let out = pointer_up(&mut sel, &mut ia, PLAIN);
    let fin = out.marquee_finished.expect("marquee finished");
    assert!(fin.added.contains("c"));
    assert!(fin.removed.is_empty());
}

#[test]
fn element_drag_moves_selection_and_active() {
    let mut sel = SelectionState::new();
    sel.add("a".into());
    sel.add("b".into());
    let mut ia = InteractionState::default();
    pointer_down(&mut sel, &mut ia, Some("b".into()), CanvasTool::Pan, PLAIN, Point::new(0.0, 0.0));
    assert_eq!(drag_mode(&sel, &ia), DragMode::Element);
    let ids = element_drag(&sel, &mut ia, Point::new(3.0, 4.0));
    assert_eq!(ids, vec!["a".to_string(), "b".to_string()]);
    assert!(ia.did_drag);
    assert_eq!(ia.drag_start, Some(Point::new(3.0, 4.0)));

    // active region outside the selection is dragged too
    sel.clear();
    let ids = element_drag(&sel, &mut ia, Point::new(5.0, 5.0));
    assert_eq!(ids, vec!["b".to_string()]);

    assert_eq!(drag_end(&sel, &mut ia), DragEnd::Element("b".into()));
    assert!(ia.active.is_none());
    let out = pointer_up(&mut sel, &mut ia, PLAIN);
    assert!(out.clicked.is_none());
}

#[test]
fn drag_suppresses_click() {
    let mut sel = SelectionState::new();
    let mut ia = InteractionState::default();
    pointer_down(&mut sel, &mut ia, Some("a".into()), CanvasTool::Pan, PLAIN, Point::new(0.0, 0.0));
    element_drag(&sel, &mut ia, Point::new(1.0, 1.0));
    let out = pointer_up(&mut sel, &mut ia, PLAIN);
    assert!(out.clicked.is_none());
    assert!(out.narrowed.is_none());
}

#[test]
fn hover_change_is_reported_once() {
    let mut ia = InteractionState::default();
    assert!(pointer_move(&mut ia, Some("a".into())));
    assert!(!pointer_move(&mut ia, Some("a".into())));
    assert!(pointer_move(&mut ia, None));
    assert!(!pointer_move(&mut ia, None));
}
