use blinc_canvas_kit::hit::{hit_test, HitRegion};
use blinc_core::layer::{Point, Rect};

#[test]
fn test_hit_test_empty() {
    assert!(hit_test(&[], Point::new(0.0, 0.0)).is_none());
}

#[test]
fn test_hit_test_single_hit() {
    let regions = vec![HitRegion::new("a", Rect::new(10.0, 10.0, 50.0, 50.0))];
    assert_eq!(hit_test(&regions, Point::new(20.0, 20.0)), Some("a".into()));
}

#[test]
fn test_hit_test_miss() {
    let regions = vec![HitRegion::new("a", Rect::new(10.0, 10.0, 50.0, 50.0))];
    assert!(hit_test(&regions, Point::new(100.0, 100.0)).is_none());
}

#[test]
fn test_hit_test_topmost_wins() {
    let regions = vec![
        HitRegion::new("bottom", Rect::new(0.0, 0.0, 100.0, 100.0)),
        HitRegion::new("top", Rect::new(20.0, 20.0, 60.0, 60.0)),
    ];
    // Point inside both — "top" (last registered) wins
    assert_eq!(
        hit_test(&regions, Point::new(30.0, 30.0)),
        Some("top".into())
    );
}

#[test]
fn test_hit_test_non_overlapping() {
    let regions = vec![
        HitRegion::new("left", Rect::new(0.0, 0.0, 50.0, 50.0)),
        HitRegion::new("right", Rect::new(100.0, 0.0, 50.0, 50.0)),
    ];
    assert_eq!(
        hit_test(&regions, Point::new(25.0, 25.0)),
        Some("left".into())
    );
    assert_eq!(
        hit_test(&regions, Point::new(125.0, 25.0)),
        Some("right".into())
    );
    assert!(hit_test(&regions, Point::new(75.0, 25.0)).is_none());
}

#[test]
fn hit_test_edges_are_inside() {
    let regions = vec![HitRegion::new("a", Rect::new(10.0, 10.0, 50.0, 50.0))];
    assert_eq!(hit_test(&regions, Point::new(60.0, 60.0)), Some("a".into()));
    assert_eq!(hit_test(&regions, Point::new(10.0, 10.0)), Some("a".into()));
    assert!(hit_test(&regions, Point::new(60.5, 60.0)).is_none());
}
