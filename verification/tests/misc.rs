use blinc_canvas_kit::loading::AutoFramer;
use blinc_canvas_kit::painter::TransformStack;
use blinc_canvas_kit::sketch::SketchFrames;
use blinc_canvas_kit::zoom::ZoomAnchor;

#[test]
fn zoom_anchor_default_is_viewport_center() {
    assert_eq!(ZoomAnchor::default(), ZoomAnchor::ViewportCenter);
}

#[test]
fn auto_framer_claims_once_and_only_with_aabb() {
    let framer = AutoFramer::new();
    assert!(!framer.is_framed());
    assert!(!framer.claim(false));
    assert!(!framer.is_framed());
    let clone = framer.clone();
    assert!(clone.claim(true));
    assert!(framer.is_framed());
    assert!(!framer.claim(true));
    assert!(!clone.claim(true));
}

#[test]
fn pop_undoes_group_transforms() {
    let mut tx = TransformStack::new();
    tx.record(); // outside any group: never undone
    tx.push();
    tx.record();
    tx.push();
    tx.record();
    tx.record();
    tx.record();
    assert_eq!(tx.innermost(), Some(3));
    assert_eq!(tx.pop(), 3);
    tx.record();
    assert_eq!(tx.pop(), 2);
    assert_eq!(tx.pop(), 0);
    assert_eq!(tx.innermost(), None);
}

#[test]
fn sketch_setup_runs_on_first_frame_only() {
    let mut f = SketchFrames::new();
    assert!(f.begin_frame());
    assert_eq!(f.frame_count, 0);
    f.end_frame();
    assert!(!f.begin_frame());
    assert_eq!(f.frame_count, 1);
    f.end_frame();
    assert!(!f.begin_frame());
    assert_eq!(f.frame_count, 2);
}
