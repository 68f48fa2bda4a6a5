use blinc_canvas_kit::hit::HitRegion;
use blinc_canvas_kit::spatial::{CellSpan, SpatialCells};
use blinc_core::layer::{Point, Rect};

/// A spatial hash over `SpatialCells` with a fixed cell size: regions and
/// queries are mapped to the grid cells their rectangles cover.
struct Grid {
    cell_size: f32,
    cells: SpatialCells,
}

impl Grid {
    fn new(cell_size: f32) -> Self {
        Grid { cell_size: cell_size.max(1.0), cells: SpatialCells::new() }
    }

    fn span(&self, rect: &Rect) -> CellSpan {
        CellSpan {
            col_min: (rect.x() / self.cell_size).floor() as i32,
            row_min: (rect.y() / self.cell_size).floor() as i32,
            col_max: ((rect.x() + rect.width()) / self.cell_size).floor() as i32,
            row_max: ((rect.y() + rect.height()) / self.cell_size).floor() as i32,
        }
    }

    fn insert(&mut self, region: HitRegion) {
        let span = self.span(&region.rect);
        self.cells.insert(region, span);
    }

    fn hit_test(&self, point: Point) -> Option<String> {
        let col = (point.x / self.cell_size).floor() as i32;
        let row = (point.y / self.cell_size).floor() as i32;
        self.cells.hit_test(col, row, point)
    }

    fn query_rect(&self, query: &Rect) -> blinc_canvas_kit::id_set::IdSet {
        self.cells.query_rect(query, self.span(query))
    }
}

fn make_region(id: &str, x: f32, y: f32, w: f32, h: f32) -> HitRegion {
    HitRegion::new(id, Rect::new(x, y, w, h))
}

#[test]
fn test_empty_index() {
    let idx = Grid::new(100.0);
    assert!(idx.cells.is_empty());
    assert!(idx.hit_test(Point::new(50.0, 50.0)).is_none());
    assert!(idx
        .query_rect(&Rect::new(0.0, 0.0, 100.0, 100.0))
        .is_empty());
}

#[test]
fn test_single_insert_and_hit() {
    let mut idx = Grid::new(100.0);
    idx.insert(make_region("a", 10.0, 10.0, 50.0, 50.0));
    assert_eq!(idx.cells.len(), 1);
    assert_eq!(idx.hit_test(Point::new(20.0, 20.0)), Some("a".into()));
    assert!(idx.hit_test(Point::new(100.0, 100.0)).is_none());
}

#[test]
fn test_topmost_wins() {
    let mut idx = Grid::new(100.0);
    idx.insert(make_region("bottom", 0.0, 0.0, 100.0, 100.0));
    idx.insert(make_region("top", 20.0, 20.0, 60.0, 60.0));
    // Point inside both — "top" (last inserted) wins
    assert_eq!(idx.hit_test(Point::new(30.0, 30.0)), Some("top".into()));
    // Point only in bottom
    assert_eq!(idx.hit_test(Point::new(5.0, 5.0)), Some("bottom".into()));
}

#[test]
fn test_negative_coordinates() {
    let mut idx = Grid::new(100.0);
    idx.insert(make_region("neg", -150.0, -150.0, 100.0, 100.0));
    assert_eq!(idx.hit_test(Point::new(-100.0, -100.0)), Some("neg".into()));
    assert!(idx.hit_test(Point::new(0.0, 0.0)).is_none());
}

#[test]
fn test_large_region_spans_cells() {
    let mut idx = Grid::new(50.0);
    // Region spans 4 cells (200x200 with cell_size 50)
    idx.insert(make_region("big", 0.0, 0.0, 200.0, 200.0));
    assert_eq!(idx.hit_test(Point::new(10.0, 10.0)), Some("big".into()));
    assert_eq!(idx.hit_test(Point::new(150.0, 150.0)), Some("big".into()));
}

#[test]
fn test_query_rect_basic() {
    let mut idx = Grid::new(100.0);
    idx.insert(make_region("a", 10.0, 10.0, 30.0, 30.0));
    idx.insert(make_region("b", 200.0, 200.0, 30.0, 30.0));
    idx.insert(make_region("c", 50.0, 50.0, 30.0, 30.0));

    let hits = idx.query_rect(&Rect::new(0.0, 0.0, 100.0, 100.0));
    assert!(hits.contains("a"));
    assert!(hits.contains("c"));
    assert!(!hits.contains("b"));
}

#[test]
fn test_query_rect_no_duplicates() {
    let mut idx = Grid::new(50.0);
    // Region spans multiple cells
    idx.insert(make_region("wide", 0.0, 0.0, 200.0, 200.0));

    let hits = idx.query_rect(&Rect::new(10.0, 10.0, 180.0, 180.0));
    assert_eq!(hits.len(), 1);
    assert!(hits.contains("wide"));
}

#[test]
fn test_clear() {
    let mut idx = Grid::new(100.0);
    idx.insert(make_region("a", 10.0, 10.0, 30.0, 30.0));
    assert_eq!(idx.cells.len(), 1);
    idx.cells.clear();
    assert!(idx.cells.is_empty());
    assert!(idx.hit_test(Point::new(20.0, 20.0)).is_none());
}

#[test]
fn test_many_regions() {
    let mut idx = Grid::new(100.0);
    for i in 0..100 {
        let x = (i % 10) as f32 * 50.0;
        let y = (i / 10) as f32 * 50.0;
        idx.insert(make_region(&format!("r{i}"), x, y, 40.0, 40.0));
    }
    assert_eq!(idx.cells.len(), 100);

    // Hit test specific region
    assert_eq!(idx.hit_test(Point::new(10.0, 10.0)), Some("r0".into()));
    // Miss
    assert!(idx.hit_test(Point::new(1000.0, 1000.0)).is_none());

    // Range query
    let hits = idx.query_rect(&Rect::new(0.0, 0.0, 100.0, 100.0));
    assert!(hits.contains("r0"));
    assert!(hits.contains("r1"));
}

fn span(col_min: i32, row_min: i32, col_max: i32, row_max: i32) -> CellSpan {
    CellSpan { col_min, row_min, col_max, row_max }
}

#[test]
fn cell_lists_only_covering_regions() {
    let mut cells = SpatialCells::new();
    cells.insert(make_region("bottom", 0.0, 0.0, 100.0, 100.0), span(0, 0, 1, 1));
    cells.insert(make_region("top", 20.0, 20.0, 60.0, 60.0), span(0, 0, 0, 0));
    // "top" is not listed in cell (1, 1), so only "bottom" is found there
    assert_eq!(cells.hit_test(1, 1, Point::new(30.0, 30.0)), Some("bottom".into()));
    assert_eq!(cells.hit_test(0, 0, Point::new(30.0, 30.0)), Some("top".into()));
}

#[test]
fn query_tests_overlap_of_listed_regions() {
    let mut cells = SpatialCells::new();
    cells.insert(make_region("a", 10.0, 10.0, 30.0, 30.0), span(0, 0, 0, 0));
    cells.insert(make_region("c", 50.0, 50.0, 30.0, 30.0), span(0, 0, 0, 0));
    cells.insert(make_region("far", 400.0, 400.0, 10.0, 10.0), span(8, 8, 8, 8));
    let hits = cells.query_rect(&Rect::new(0.0, 0.0, 45.0, 45.0), span(0, 0, 0, 0));
    assert_eq!(hits.len(), 1);
    assert!(hits.contains("a"));
}

#[test]
fn cloned_cells_answer_alike() {
    let mut cells = SpatialCells::new();
    cells.insert(make_region("a", 10.0, 10.0, 30.0, 30.0), span(0, 0, 0, 0));
    let copy = cells.clone();
    cells.clear();
    assert_eq!(copy.len(), 1);
    assert_eq!(copy.hit_test(0, 0, Point::new(20.0, 20.0)), Some("a".into()));
}
