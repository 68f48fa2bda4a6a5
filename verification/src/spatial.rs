//! Uniform-grid spatial hash for fast bounding-box queries.
//!
//! Regions are registered together with the span of grid cells their
//! bounding box covers; each cell lists, in insertion order, the regions
//! that cover it. A point query looks at one cell only and walks its list
//! from the back (last inserted = topmost); a range query visits every
//! cell of the query's span once and tests each region it meets once.
//!
//! Which cells a content-space rectangle or point falls in depends on the
//! grid's cell size and is worked out by the caller.

use vstd::prelude::*;

use std::collections::{HashMap, HashSet};

use blinc_core::layer::{Point, Rect};

use crate::coords::{contains_point, overlaps, rect_contains, rect_overlaps};
use crate::hit::{opt_id, topmost_hit, HitRegion};
use crate::id_set::IdSet;

verus! {

broadcast use vstd::std_specs::hash::group_hash_axioms;

/// An inclusive rectangle of grid cells: columns `col_min..=col_max` and
/// rows `row_min..=row_max`. Empty when a minimum exceeds its maximum.
#[derive(Clone, Copy, Debug, PartialEq, Eq, Structural)]
pub struct CellSpan {
    pub col_min: i32,
    pub row_min: i32,
    pub col_max: i32,
    pub row_max: i32,
}

impl CellSpan {
    /// The cell at column `c`, row `r` lies in the span.
    pub open spec fn covers(self, c: int, r: int) -> bool {
        &&& self.col_min <= c <= self.col_max
        &&& self.row_min <= r <= self.row_max
    }

    /// The two spans share at least one cell.
    pub open spec fn meets(self, other: CellSpan) -> bool {
        &&& self.col_min <= self.col_max
        &&& self.row_min <= self.row_max
        &&& other.col_min <= other.col_max
        &&& other.row_min <= other.row_max
        &&& self.col_min <= other.col_max
        &&& other.col_min <= self.col_max
        &&& self.row_min <= other.row_max
        &&& other.row_min <= self.row_max
    }
}

/// Two spans that hold a common cell `(c, r)` meet, whichever of their
/// cells it is (not only the first one).
pub proof fn lemma_shared_cell_meets(a: CellSpan, b: CellSpan, c: int, r: int)
    requires
        a.col_min <= c <= a.col_max,
        a.row_min <= r <= a.row_max,
        b.col_min <= c <= b.col_max,
        b.row_min <= r <= b.row_max,
    ensures
        a.meets(b),
{
}

/// Two spans that meet hold a common cell: the returned `(c, r)` lies in
/// both.
pub proof fn lemma_meets_shared_cell(a: CellSpan, b: CellSpan) -> (cell: (int, int))
    requires
        a.meets(b),
    ensures
        a.col_min <= cell.0 <= a.col_max,
        a.row_min <= cell.1 <= a.row_max,
        b.col_min <= cell.0 <= b.col_max,
        b.row_min <= cell.1 <= b.row_max,
{
    let c: int = if a.col_min >= b.col_min { a.col_min as int } else { b.col_min as int };
    let r: int = if a.row_min >= b.row_min { a.row_min as int } else { b.row_min as int };
    (c, r)
}

/// The hash key of the cell at column `c`, row `r`.
pub open spec fn cell_key(c: i32, r: i32) -> i64 {
    (c * 4294967296 + r + 2147483648) as i64
}

proof fn lemma_cell_key_injective(c1: i32, r1: i32, c2: i32, r2: i32)
    ensures
        cell_key(c1, r1) == cell_key(c2, r2) ==> c1 == c2 && r1 == r2,
{
    assert(i64::MIN <= c1 * 4294967296 + r1 + 2147483648 <= i64::MAX) by (nonlinear_arith);
    assert(i64::MIN <= c2 * 4294967296 + r2 + 2147483648 <= i64::MAX) by (nonlinear_arith);
    if cell_key(c1, r1) == cell_key(c2, r2) {
        assert((c1 - c2) * 4294967296 == r2 - r1) by (nonlinear_arith)
            requires
                c1 * 4294967296 + r1 + 2147483648 == c2 * 4294967296 + r2 + 2147483648,
        ;
        assert(c1 == c2) by (nonlinear_arith)
            requires
                (c1 - c2) * 4294967296 == r2 - r1,
                -4294967296 < r2 - r1 < 4294967296,
        ;
    }
}

fn key_of(c: i32, r: i32) -> (res: i64)
    ensures
        res == cell_key(c, r),
{
    assert(i64::MIN <= c * 4294967296 + r + 2147483648 <= i64::MAX) by (nonlinear_arith);
    (c as i64) * 4294967296i64 + ((r as i64) + 2147483648i64)
}

/// The entries are strictly increasing and all below `n`.
pub open spec fn increasing_below(s: Seq<usize>, n: int) -> bool {
    &&& forall|a: int, b: int| 0 <= a < b < s.len() ==> s[a] < s[b]
    &&& forall|a: int| 0 <= a < s.len() ==> s[a] < n
}

/// The id of the last region that covers cell `(c, r)` and whose
/// rectangle contains `point`, if any.
pub open spec fn topmost_in_cell(
    regions: Seq<HitRegion>,
    spans: Seq<CellSpan>,
    c: int,
    r: int,
    point: Point,
) -> Option<Seq<char>>
    decreases regions.len(),
{
    if regions.len() == 0 || spans.len() != regions.len() {
        None
    } else if spans.last().covers(c, r) && rect_contains(regions.last().rect, point) {
        Some(regions.last().id@)
    } else {
        topmost_in_cell(regions.drop_last(), spans.drop_last(), c, r, point)
    }
}

/// `topmost_in_cell` finds nothing exactly when no region both has cell
/// `(c, r)` in its span and contains the point; when it finds `id`, such a
/// region `i` carries that id and no region after `i` is another such.
pub proof fn lemma_topmost_in_cell_is_last_covering(
    regions: Seq<HitRegion>,
    spans: Seq<CellSpan>,
    c: int,
    r: int,
    point: Point,
)
    requires
        spans.len() == regions.len(),
    ensures
        topmost_in_cell(regions, spans, c, r, point) is None <==> forall|i: int|
            0 <= i < regions.len() ==> !(spans[i].col_min <= c <= spans[i].col_max && spans[i].row_min <= r
                <= spans[i].row_max && rect_contains(#[trigger] regions[i].rect, point)),
        topmost_in_cell(regions, spans, c, r, point) is Some ==> exists|i: int|
            0 <= i < regions.len() && spans[i].col_min <= c <= spans[i].col_max && spans[i].row_min <= r
                <= spans[i].row_max && rect_contains(#[trigger] regions[i].rect, point) && regions[i].id@
                == topmost_in_cell(regions, spans, c, r, point)->0 && forall|j: int|
                i < j < regions.len() ==> !(spans[j].col_min <= c <= spans[j].col_max && spans[j].row_min
                    <= r <= spans[j].row_max && rect_contains(#[trigger] regions[j].rect, point)),
    decreases regions.len(),
{
    if regions.len() > 0 {
        let n = regions.len() - 1;
        let prev = regions.drop_last();
        let ps = spans.drop_last();
        lemma_topmost_in_cell_is_last_covering(prev, ps, c, r, point);
        if spans.last().covers(c, r) && rect_contains(regions.last().rect, point) {
            assert(rect_contains(regions[n].rect, point));
        } else {
            assert forall|i: int| 0 <= i < n implies #[trigger] regions[i].rect == prev[i].rect && spans[i]
                == ps[i] by {}
            if topmost_in_cell(prev, ps, c, r, point) is Some {
                let i = choose|i: int|
                    0 <= i < prev.len() && ps[i].col_min <= c <= ps[i].col_max && ps[i].row_min <= r
                        <= ps[i].row_max && rect_contains(#[trigger] prev[i].rect, point) && prev[i].id@
                        == topmost_in_cell(prev, ps, c, r, point)->0 && forall|j: int|
                        i < j < prev.len() ==> !(ps[j].col_min <= c <= ps[j].col_max && ps[j].row_min <= r
                            <= ps[j].row_max && rect_contains(#[trigger] prev[j].rect, point));
                assert(regions[i] == prev[i]);
                assert(spans[i] == ps[i]);
                assert forall|j: int| i < j < regions.len() implies !(spans[j].col_min <= c <= spans[j].col_max
                    && spans[j].row_min <= r <= spans[j].row_max && rect_contains(
                    #[trigger] regions[j].rect,
                    point,
                )) by {
                    if j < n {
                        assert(regions[j] == prev[j]);
                        assert(spans[j] == ps[j]);
                    }
                }
            } else {
                assert forall|i: int| 0 <= i < regions.len() implies !(spans[i].col_min <= c <= spans[i].col_max
                    && spans[i].row_min <= r <= spans[i].row_max && rect_contains(
                    #[trigger] regions[i].rect,
                    point,
                )) by {
                    if i < n {
                        assert(regions[i] == prev[i]);
                        assert(spans[i] == ps[i]);
                    }
                }
            }
        }
    }
}

proof fn lemma_topmost_skip(
    regions: Seq<HitRegion>,
    spans: Seq<CellSpan>,
    c: int,
    r: int,
    point: Point,
    a: int,
    m: int,
)
    requires
        spans.len() == regions.len(),
        0 <= a <= m <= regions.len(),
        forall|i: int| a <= i < m ==> !spans[i].covers(c, r),
    ensures
        topmost_in_cell(regions.take(m), spans.take(m), c, r, point) == topmost_in_cell(
            regions.take(a),
            spans.take(a),
            c,
            r,
            point,
        ),
    decreases m - a,
{
    if m > a {
        assert(regions.take(m).drop_last() =~= regions.take(m - 1));
        assert(spans.take(m).drop_last() =~= spans.take(m - 1));
        lemma_topmost_skip(regions, spans, c, r, point, a, m - 1);
    }
}

/// The closed intervals `[a1, b1]` and `[a2, b2]` share an integer.
pub open spec fn intervals_meet(a1: int, b1: int, a2: int, b2: int) -> bool {
    a1 <= b1 && a2 <= b2 && a1 <= b2 && a2 <= b1
}

/// Some cell of `q` that a column-by-column scan has visited before it
/// reaches cell `(col, row)` lies in `s`: the scan visits every row of
/// `q` in each column from `q.col_min` up, and in column `col` the rows
/// below `row`.
pub open spec fn visited(s: CellSpan, q: CellSpan, col: int, row: int) -> bool {
    ||| (intervals_meet(s.col_min as int, s.col_max as int, q.col_min as int, col - 1)
        && intervals_meet(s.row_min as int, s.row_max as int, q.row_min as int, q.row_max as int))
    ||| (q.col_min <= col <= q.col_max && s.col_min <= col <= s.col_max && intervals_meet(
        s.row_min as int,
        s.row_max as int,
        q.row_min as int,
        row - 1,
    ))
}

/// The ids of the regions whose cell span shares a cell with `q` and
/// whose rectangle overlaps `query`.
pub open spec fn ids_in_range(
    regions: Seq<HitRegion>,
    spans: Seq<CellSpan>,
    q: CellSpan,
    query: Rect,
) -> Set<Seq<char>> {
    Set::new(
        |id: Seq<char>|
            exists|i: int|
                0 <= i < regions.len() && spans[i].meets(q) && rect_overlaps(regions[i].rect, query)
                    && #[trigger] regions[i].id@ == id,
    )
}

/// The cell index agrees with a scan over all regions: when every region
/// whose rectangle contains `point` covers cell `(c, r)` (as it does when
/// `(c, r)` is the point's cell and each span holds the cells of its
/// region's rectangle), the topmost region in that cell containing the
/// point is the topmost region overall containing it.
pub proof fn lemma_cell_hit_matches_scan(
    regions: Seq<HitRegion>,
    spans: Seq<CellSpan>,
    c: int,
    r: int,
    point: Point,
)
    requires
        spans.len() == regions.len(),
        forall|i: int|
            0 <= i < regions.len() && rect_contains(regions[i].rect, point) ==> spans[i].covers(c, r),
    ensures
        topmost_in_cell(regions, spans, c, r, point) == topmost_hit(regions, point),
    decreases regions.len(),
{
    if regions.len() > 0 {
        let n = regions.len() - 1;
        assert(regions.drop_last().len() == n);
        assert forall|i: int|
            0 <= i < regions.drop_last().len() && rect_contains(regions.drop_last()[i].rect, point)
                implies spans.drop_last()[i].covers(c, r) by {
            assert(regions.drop_last()[i] == regions[i]);
            assert(spans.drop_last()[i] == spans[i]);
        }
        lemma_cell_hit_matches_scan(regions.drop_last(), spans.drop_last(), c, r, point);
    }
}

/// The range query agrees with a scan over all regions: when every region
/// whose rectangle overlaps `query` has a span that shares a cell with `q`
/// (as it does when `q` holds the cells of `query` and each span holds the
/// cells of its region's rectangle), the ids found are exactly the ids of
/// the regions whose rectangle overlaps `query`.
pub proof fn lemma_range_matches_scan(
    regions: Seq<HitRegion>,
    spans: Seq<CellSpan>,
    q: CellSpan,
    query: Rect,
)
    requires
        spans.len() == regions.len(),
        forall|i: int|
            0 <= i < regions.len() && rect_overlaps(regions[i].rect, query) ==> spans[i].meets(q),
    ensures
        ids_in_range(regions, spans, q, query) == Set::new(
            |id: Seq<char>|
                exists|i: int|
                    0 <= i < regions.len() && rect_overlaps(regions[i].rect, query)
                        && #[trigger] regions[i].id@ == id,
        ),
{
    let scan = Set::new(
        |id: Seq<char>|
            exists|i: int|
                0 <= i < regions.len() && rect_overlaps(regions[i].rect, query)
                    && #[trigger] regions[i].id@ == id,
    );
    assert forall|id: Seq<char>| ids_in_range(regions, spans, q, query).contains(id) <==> scan.contains(id) by {
        if scan.contains(id) {
            let i = choose|i: int|
                0 <= i < regions.len() && rect_overlaps(regions[i].rect, query)
                    && #[trigger] regions[i].id@ == id;
            assert(spans[i].meets(q));
        }
    }
    assert(ids_in_range(regions, spans, q, query) =~= scan);
}

/// Regions indexed by the grid cells their bounding boxes cover.
#[derive(Debug)]
pub struct SpatialCells {
    cells: HashMap<i64, Vec<usize>>,
    regions: Vec<HitRegion>,
    spans: Vec<CellSpan>,
}

impl Clone for SpatialCells {
    fn clone(&self) -> (res: Self)
        ensures
            self.wf() ==> res.wf(),
            res.spans() == self.spans(),
            res.regions().len() == self.regions().len(),
            forall|i: int|
                0 <= i < self.regions().len() ==> (#[trigger] res.regions()[i]).id@
                    == self.regions()[i].id@ && res.regions()[i].rect == self.regions()[i].rect,
    {
        let mut regions: Vec<HitRegion> = Vec::new();
        let n = self.regions.len();
        let mut i: usize = 0;
        while i < n
            invariant
                n == self.regions@.len(),
                i <= n,
                regions@.len() == i,
                forall|j: int|
                    0 <= j < i ==> (#[trigger] regions@[j]).id@ == self.regions@[j].id@
                        && regions@[j].rect == self.regions@[j].rect,
            decreases n - i,
        {
            regions.push(self.regions[i].clone());
            i = i + 1;
        }
        let mut spans: Vec<CellSpan> = Vec::new();
        let mut i: usize = 0;
        while i < self.spans.len()
            invariant
                i <= self.spans@.len(),
                spans@ == self.spans@.take(i as int),
            decreases self.spans@.len() - i,
        {
            spans.push(self.spans[i]);
            assert(spans@ =~= self.spans@.take(i + 1));
            i = i + 1;
        }
        assert(spans@ =~= self.spans@);
        let res = SpatialCells { cells: self.cells.clone(), regions, spans };
        assert forall|c: i32, r: i32| #[trigger] res.cell_indices(c, r) == self.cell_indices(c, r) by {}
        assert forall|c: i32, r: i32, k: int| #[trigger] res.listed(c, r, k) == self.listed(c, r, k) by {
            assert(res.cell_indices(c, r) == self.cell_indices(c, r));
        }
        assert forall|c: i32, r: i32, k: int| #[trigger] res.covered(k, c, r) == self.covered(k, c, r) by {}
        res
    }
}

impl SpatialCells {
    /// The registered regions, in insertion order.
    pub closed spec fn regions(&self) -> Seq<HitRegion> {
        self.regions@
    }

    /// The cell span each region was registered with.
    pub closed spec fn spans(&self) -> Seq<CellSpan> {
        self.spans@
    }

    /// The regions listed at cell `(c, r)`.
    closed spec fn cell_indices(&self, c: i32, r: i32) -> Seq<usize> {
        if self.cells@.contains_key(cell_key(c, r)) {
            self.cells@[cell_key(c, r)]@
        } else {
            Seq::empty()
        }
    }

    closed spec fn listed(&self, c: i32, r: i32, i: int) -> bool {
        self.cell_indices(c, r).contains(i as usize)
    }

    closed spec fn covered(&self, i: int, c: i32, r: i32) -> bool {
        self.spans@[i].covers(c as int, r as int)
    }

    /// The ids of the regions among `seen` whose rectangle overlaps `query`.
    closed spec fn found(&self, query: Rect, seen: Set<usize>) -> Set<Seq<char>> {
        Set::new(
            |id: Seq<char>|
                exists|i: int|
                    0 <= i < self.regions@.len() && seen.contains(i as usize) && rect_overlaps(
                        self.regions@[i].rect,
                        query,
                    ) && #[trigger] self.regions@[i].id@ == id,
        )
    }

    /// Each cell lists, in increasing order, exactly the regions whose
    /// span covers it.
    pub closed spec fn wf(&self) -> bool {
        &&& self.spans@.len() == self.regions@.len()
        &&& forall|c: i32, r: i32|
            increasing_below(#[trigger] self.cell_indices(c, r), self.regions@.len() as int)
        &&& forall|c: i32, r: i32, i: int|
            #![trigger self.listed(c, r, i)]
            #![trigger self.covered(i, c, r)]
            0 <= i < self.regions@.len() ==> (self.listed(c, r, i) <==> self.covered(i, c, r))
    }

    /// An empty index.
    pub fn new() -> (res: Self)
        ensures
            res.wf(),
            res.regions() == Seq::<HitRegion>::empty(),
            res.spans() == Seq::<CellSpan>::empty(),
    {
        let res = SpatialCells { cells: HashMap::new(), regions: Vec::new(), spans: Vec::new() };
        assert forall|c: i32, r: i32| #[trigger] res.cell_indices(c, r) =~= Seq::<usize>::empty() by {}
        res
    }

    /// Remove every region.
    pub fn clear(&mut self)
        ensures
            final(self).wf(),
            final(self).regions() == Seq::<HitRegion>::empty(),
            final(self).spans() == Seq::<CellSpan>::empty(),
    {
        self.cells.clear();
        self.regions.clear();
        self.spans.clear();
        assert forall|c: i32, r: i32| #[trigger] self.cell_indices(c, r) =~= Seq::<usize>::empty() by {}
    }

    /// Number of registered regions.
    pub fn len(&self) -> (res: usize)
        ensures
            res == self.regions().len(),
    {
        self.regions.len()
    }

    /// Whether no region is registered.
    pub fn is_empty(&self) -> (res: bool)
        ensures
            res == (self.regions().len() == 0),
    {
        self.regions.len() == 0
    }

    /// Append `idx` to the list of cell `(c, r)`.
    fn push_to_cell(&mut self, c: i32, r: i32, idx: usize)
        ensures
            final(self).regions@ == old(self).regions@,
            final(self).spans@ == old(self).spans@,
            final(self).cell_indices(c, r) == old(self).cell_indices(c, r).push(idx),
            forall|c2: i32, r2: i32|
                !(c2 == c && r2 == r) ==> #[trigger] final(self).cell_indices(c2, r2)
                    == old(self).cell_indices(c2, r2),
    {
        let key = key_of(c, r);
        let ghost before = self.cells@;
        let list = match self.cells.remove(&key) {
            Some(mut v) => {
                v.push(idx);
                v
            },
            None => {
                let mut v = Vec::new();
                v.push(idx);
                v
            },
        };
        self.cells.insert(key, list);
        proof {
            assert(self.cell_indices(c, r) =~= old(self).cell_indices(c, r).push(idx));
            assert forall|c2: i32, r2: i32| !(c2 == c && r2 == r) implies #[trigger] self.cell_indices(c2, r2)
                == old(self).cell_indices(c2, r2) by {
                lemma_cell_key_injective(c, r, c2, r2);
            }
        }
    }

    /// Register `region`, whose bounding box covers the cells of `span`.
    /// It becomes the topmost region.
    pub fn insert(&mut self, region: HitRegion, span: CellSpan)
        requires
            old(self).wf(),
            old(self).regions().len() < usize::MAX,
        ensures
            final(self).wf(),
            final(self).regions() == old(self).regions().push(region),
            final(self).spans() == old(self).spans().push(span),
    {
        let idx = self.regions.len();
        let ghost n = idx as int;
        let mut col: i64 = span.col_min as i64;
        while col <= span.col_max as i64
            invariant
                self.regions@ == old(self).regions@,
                self.spans@ == old(self).spans@,
                idx == self.regions@.len(),
                span.col_min <= col <= span.col_max + 1 || (col == span.col_min
                    && span.col_min > span.col_max),
                forall|c: i32, r: i32| #[trigger]
                    self.cell_indices(c, r) == (if span.col_min <= c < col && span.row_min <= r
                        <= span.row_max {
                        old(self).cell_indices(c, r).push(idx)
                    } else {
                        old(self).cell_indices(c, r)
                    }),
            decreases span.col_max as i64 + 1 - col,
        {
            let c = col as i32;
            let mut row: i64 = span.row_min as i64;
            while row <= span.row_max as i64
                invariant
                    self.regions@ == old(self).regions@,
                    self.spans@ == old(self).spans@,
                    idx == self.regions@.len(),
                    span.col_min <= col <= span.col_max,
                    c == col,
                    span.row_min <= row <= span.row_max + 1 || (row == span.row_min
                        && span.row_min > span.row_max),
                    forall|c2: i32, r: i32| #[trigger]
                        self.cell_indices(c2, r) == (if ((span.col_min <= c2 < col && span.row_min
                            <= r <= span.row_max) || (c2 == col && span.row_min <= r < row)) {
                            old(self).cell_indices(c2, r).push(idx)
                        } else {
                            old(self).cell_indices(c2, r)
                        }),
                decreases span.row_max as i64 + 1 - row,
            {
                self.push_to_cell(c, row as i32, idx);
                row = row + 1;
            }
            col = col + 1;
        }
        let ghost filled = *self;
        proof {
            assert forall|c: i32, r: i32| #[trigger] filled.cell_indices(c, r) == (if span.covers(c as int, r as int) {
                old(self).cell_indices(c, r).push(idx)
            } else {
                old(self).cell_indices(c, r)
            }) by {
                assert(self.cell_indices(c, r) == filled.cell_indices(c, r));
            }
        }
        self.regions.push(region);
        self.spans.push(span);
        proof {
            assert forall|c: i32, r: i32|
                increasing_below(#[trigger] self.cell_indices(c, r), self.regions@.len() as int) by {
                let s = old(self).cell_indices(c, r);
                let t = self.cell_indices(c, r);
                assert(t == filled.cell_indices(c, r));
                assert(increasing_below(s, n));
                if span.covers(c as int, r as int) {
                    assert(t == s.push(idx));
                    assert forall|a: int, b: int| 0 <= a < b < t.len() implies t[a] < t[b] by {
                        if b < s.len() {
                            assert(s[a] < s[b]);
                        } else {
                            assert(s[a] < n);
                        }
                    }
                } else {
                    assert(t == s);
                }
            }
            assert forall|c: i32, r: i32, i: int|
                0 <= i < self.regions@.len() implies (self.listed(c, r, i) <==> self.covered(
                    i,
                    c,
                    r,
                )) by {
                let s = old(self).cell_indices(c, r);
                let t = self.cell_indices(c, r);
                assert(t == filled.cell_indices(c, r));
                assert(increasing_below(s, n));
                if i < n {
                    assert(old(self).listed(c, r, i) <==> old(self).covered(i, c, r));
                    assert(self.covered(i, c, r) == old(self).covered(i, c, r));
                    if span.covers(c as int, r as int) {
                        assert(t == s.push(idx));
                        if t.contains(i as usize) {
                            let k = choose|k: int| 0 <= k < t.len() && t[k] == i as usize;
                            assert(k < s.len());
                            assert(s.contains(i as usize));
                        }
                        if s.contains(i as usize) {
                            let k = choose|k: int| 0 <= k < s.len() && s[k] == i as usize;
                            assert(t[k] == i as usize);
                        }
                    } else {
                        assert(t == s);
                    }
                } else {
                    assert(self.spans@[i] == span);
                    if span.covers(c as int, r as int) {
                        assert(t == s.push(idx));
                        assert(t[t.len() - 1] == idx);
                    } else {
                        assert(t == s);
                        if s.contains(idx) {
                            let k = choose|k: int| 0 <= k < s.len() && s[k] == idx;
                            assert(s[k] < n);
                        }
                    }
                }
            }
        }
    }

    /// Marking region `idx` seen, and collecting its id when it is newly
    /// seen and overlaps `query`, keeps the collected ids equal to
    /// `found` of the seen regions.
    proof fn lemma_found_step(
        &self,
        query: Rect,
        seen_before: Set<usize>,
        idx: usize,
        res_before: Set<Seq<char>>,
        res_after: Set<Seq<char>>,
    )
        requires
            idx < self.regions@.len(),
            self.regions@.len() <= usize::MAX,
            res_before == self.found(query, seen_before),
            res_after == (if !seen_before.contains(idx) && rect_overlaps(self.regions@[idx as int].rect, query) {
                res_before.insert(self.regions@[idx as int].id@)
            } else {
                res_before
            }),
        ensures
            res_after == self.found(query, seen_before.insert(idx)),
    {
        let seen = seen_before.insert(idx);
        assert forall|id: Seq<char>| res_after.contains(id) <==> self.found(query, seen).contains(id) by {
            if res_before.contains(id) {
                let i = choose|i: int| 0 <= i < self.regions@.len() && seen_before.contains(i as usize) && rect_overlaps(self.regions@[i].rect, query) && #[trigger] self.regions@[i].id@ == id;
                assert(seen.contains(i as usize));
            }
            if res_after.contains(id) && !res_before.contains(id) {
                assert(seen.contains((idx as int) as usize));
            }
            if self.found(query, seen).contains(id) {
                let i = choose|i: int| 0 <= i < self.regions@.len() && seen.contains(i as usize) && rect_overlaps(self.regions@[i].rect, query) && #[trigger] self.regions@[i].id@ == id;
                if i != idx as int {
                    assert(seen_before.contains(i as usize));
                } else if seen_before.contains(idx) {
                    assert(seen_before.contains(i as usize));
                }
            }
        }
        assert(res_after =~= self.found(query, seen));
    }

    /// Test the regions of `list` not seen before against `query`: each is
    /// marked seen, and its id is collected when its rectangle overlaps.
    fn scan_cell(&self, list: &Vec<usize>, query: &Rect, seen: &mut HashSet<usize>, res: &mut IdSet)
        requires
            self.wf(),
            increasing_below(list@, self.regions@.len() as int),
            old(res)@ == self.found(*query, old(seen)@),
        ensures
            forall|i: usize| #[trigger] final(seen)@.contains(i) <==> (old(seen)@.contains(i) || list@.contains(i)),
            final(res)@ == self.found(*query, final(seen)@),
    {
        let len = list.len();
        let total = self.regions.len();
        let mut k: usize = 0;
        while k < len
            invariant
                self.wf(),
                total == self.regions@.len(),
                len == list@.len(),
                k <= len,
                increasing_below(list@, self.regions@.len() as int),
                forall|i: usize| #[trigger] seen@.contains(i) <==> (old(seen)@.contains(i) || list@.take(k as int).contains(i)),
                res@ == self.found(*query, seen@),
            decreases len - k,
        {
            let idx = list[k];
            let ghost seen_before = seen@;
            let ghost res_before = res@;
            let fresh = seen.insert(idx);
            if fresh && overlaps(&self.regions[idx].rect, query) {
                res.insert(self.regions[idx].id.clone());
            }
            proof {
                self.lemma_found_step(*query, seen_before, idx, res_before, res@);
            }
            proof {
                assert(list@.take(k + 1) =~= list@.take(k as int).push(idx));
                assert forall|i: usize| #[trigger] seen@.contains(i) <==> (old(seen)@.contains(i) || list@.take(k + 1).contains(i)) by {
                    assert(seen@.contains(i) == (seen_before.contains(i) || i == idx));
                    assert(list@.take(k + 1)[k as int] == idx);
                    if list@.take(k + 1).contains(i) && i != idx {
                        let t = list@.take(k + 1);
                        let j = choose|j: int| 0 <= j < k + 1 && #[trigger] t[j] == i;
                        assert(list@.take(k as int)[j] == i);
                    }
                    if list@.take(k as int).contains(i) {
                        let t = list@.take(k as int);
                        let j = choose|j: int| 0 <= j < k && #[trigger] t[j] == i;
                        assert(list@.take(k + 1)[j] == i);
                    }
                }
            }
            k = k + 1;
        }
        proof {
            assert(list@.take(len as int) =~= list@);
        }
    }

    /// Range query over the cells of `span`: the ids of all regions that
    /// cover one of these cells and whose rectangle overlaps `query`. Each
    /// region is tested once, however many of the cells it covers.
    pub fn query_rect(&self, query: &Rect, span: CellSpan) -> (res: IdSet)
        requires
            self.wf(),
        ensures
            res@ == ids_in_range(self.regions(), self.spans(), span, *query),
            forall|i: int|
                0 <= i < self.regions().len() && rect_overlaps(self.regions()[i].rect, *query)
                    && self.spans()[i].col_min <= self.spans()[i].col_max
                    && self.spans()[i].row_min <= self.spans()[i].row_max
                    && span.col_min <= span.col_max && span.row_min <= span.row_max
                    && self.spans()[i].col_min <= span.col_max && span.col_min <= self.spans()[i].col_max
                    && self.spans()[i].row_min <= span.row_max && span.row_min <= self.spans()[i].row_max
                    ==> #[trigger] res@.contains(self.regions()[i].id@),
            forall|id: Seq<char>|
                #[trigger] res@.contains(id) ==> exists|i: int|
                    0 <= i < self.regions().len() && #[trigger] self.regions()[i].id@ == id
                        && rect_overlaps(self.regions()[i].rect, *query)
                        && self.spans()[i].col_min <= span.col_max && span.col_min <= self.spans()[i].col_max
                        && self.spans()[i].row_min <= span.row_max && span.row_min <= self.spans()[i].row_max,
    {
        let total = self.regions.len();
        let ghost n = self.regions@.len() as int;
        let ghost spans = self.spans@;
        let mut res = IdSet::new();
        let mut seen: HashSet<usize> = HashSet::new();
        proof {
            assert(res@ =~= self.found(*query, seen@));
        }
        let mut col: i64 = span.col_min as i64;
        while col <= span.col_max as i64
            invariant
                self.wf(),
                n == self.regions@.len(),
                n == total,
                spans == self.spans@,
                span.col_min <= col <= span.col_max + 1 || (col == span.col_min
                    && span.col_min > span.col_max),
                forall|i: usize| #[trigger] seen@.contains(i) <==> (i < n && visited(spans[i as int], span, col as int, span.row_min as int)),
                res@ == self.found(*query, seen@),
            decreases span.col_max as i64 + 1 - col,
        {
            let c = col as i32;
            let mut row: i64 = span.row_min as i64;
            while row <= span.row_max as i64
                invariant
                    self.wf(),
                    n == self.regions@.len(),
                    n == total,
                    spans == self.spans@,
                    span.col_min <= col <= span.col_max,
                    c == col,
                    span.row_min <= row <= span.row_max + 1 || (row == span.row_min
                        && span.row_min > span.row_max),
                    forall|i: usize| #[trigger] seen@.contains(i) <==> (i < n && visited(spans[i as int], span, col as int, row as int)),
                    res@ == self.found(*query, seen@),
                decreases span.row_max as i64 + 1 - row,
            {
                let r = row as i32;
                let key = key_of(c, r);
                let ghost seen_before = seen@;
                match self.cells.get(&key) {
                    Some(list) => {
                        proof {
                            assert(list@ == self.cell_indices(c, r));
                        }
                        self.scan_cell(list, query, &mut seen, &mut res);
                        proof {
                            assert forall|i: usize| #[trigger] seen@.contains(i) <==> (i < n && visited(spans[i as int], span, col as int, row + 1)) by {
                                if i < n {
                                    assert(self.listed(c, r, i as int) <==> self.covered(i as int, c, r));
                                }
                                if list@.contains(i) {
                                    let k = choose|k: int| 0 <= k < list@.len() && list@[k] == i;
                                    assert(list@[k] < n);
                                    assert(self.listed(c, r, i as int));
                                }
                            }
                        }
                    },
                    None => {
                        proof {
                            assert forall|i: usize| #[trigger] seen@.contains(i) <==> (i < n && visited(spans[i as int], span, col as int, row + 1)) by {
                                if i < n {
                                    assert(self.listed(c, r, i as int) <==> self.covered(i as int, c, r));
                                }
                            }
                        }
                    },
                }
                row = row + 1;
            }
            proof {
                assert forall|i: usize| #[trigger] seen@.contains(i) <==> (i < n && visited(spans[i as int], span, col + 1, span.row_min as int)) by {
                    if i < n {
                        let s = spans[i as int];
                        assert(visited(s, span, col as int, row as int) == visited(s, span, col + 1, span.row_min as int));
                    }
                }
            }
            col = col + 1;
        }
        proof {
            assert(res@ =~= ids_in_range(self.regions@, self.spans@, span, *query)) by {
                assert forall|id: Seq<char>| res@.contains(id) <==> ids_in_range(self.regions@, self.spans@, span, *query).contains(id) by {
                    if res@.contains(id) {
                        let i = choose|i: int| 0 <= i < self.regions@.len() && seen@.contains(i as usize) && rect_overlaps(self.regions@[i].rect, *query) && #[trigger] self.regions@[i].id@ == id;
                        assert(seen@.contains(i as usize));
                        assert(visited(spans[i], span, col as int, span.row_min as int));
                    }
                    if ids_in_range(self.regions@, self.spans@, span, *query).contains(id) {
                        let i = choose|i: int| 0 <= i < self.regions@.len() && self.spans@[i].meets(span) && rect_overlaps(self.regions@[i].rect, *query) && #[trigger] self.regions@[i].id@ == id;
                        assert(seen@.contains(i as usize));
                    }
                }
            }
            assert forall|id: Seq<char>| #[trigger] res@.contains(id) implies exists|i: int|
                0 <= i < self.regions().len() && #[trigger] self.regions()[i].id@ == id
                    && rect_overlaps(self.regions()[i].rect, *query)
                    && self.spans()[i].col_min <= span.col_max && span.col_min <= self.spans()[i].col_max
                    && self.spans()[i].row_min <= span.row_max && span.row_min <= self.spans()[i].row_max by {
                assert(ids_in_range(self.regions@, self.spans@, span, *query).contains(id));
                let i = choose|i: int| 0 <= i < self.regions@.len() && self.spans@[i].meets(span) && rect_overlaps(self.regions@[i].rect, *query) && #[trigger] self.regions@[i].id@ == id;
                assert(self.regions()[i].id@ == id);
            }
        }
        res
    }

    /// Point query at cell `(col, row)`: the id of the topmost region that
    /// covers the cell and whose rectangle contains `point`.
    pub fn hit_test(&self, col: i32, row: i32, point: Point) -> (res: Option<String>)
        requires
            self.wf(),
        ensures
            opt_id(res) == topmost_in_cell(self.regions(), self.spans(), col as int, row as int, point),
            res is None <==> forall|i: int|
                0 <= i < self.regions().len() ==> !(self.spans()[i].col_min <= col <= self.spans()[i].col_max
                    && self.spans()[i].row_min <= row <= self.spans()[i].row_max && rect_contains(
                    #[trigger] self.regions()[i].rect,
                    point,
                )),
            res matches Some(id) ==> exists|i: int|
                0 <= i < self.regions().len() && self.spans()[i].col_min <= col <= self.spans()[i].col_max
                    && self.spans()[i].row_min <= row <= self.spans()[i].row_max && rect_contains(
                    #[trigger] self.regions()[i].rect,
                    point,
                ) && self.regions()[i].id@ == id@ && forall|j: int|
                    i < j < self.regions().len() ==> !(self.spans()[j].col_min <= col
                        <= self.spans()[j].col_max && self.spans()[j].row_min <= row
                        <= self.spans()[j].row_max && rect_contains(#[trigger] self.regions()[j].rect, point)),
    {
        let ghost regions = self.regions@;
        let ghost spans = self.spans@;
        let total = self.regions.len();
        let ghost n = regions.len() as int;
        proof {
            lemma_topmost_in_cell_is_last_covering(regions, spans, col as int, row as int, point);
            assert(regions.take(n) =~= regions);
            assert(spans.take(n) =~= spans);
        }
        let key = key_of(col, row);
        match self.cells.get(&key) {
            None => {
                proof {
                    assert forall|i: int| 0 <= i < n implies !spans[i].covers(col as int, row as int) by {
                        assert(!self.listed(col, row, i));
                        assert(self.covered(i, col, row) == spans[i].covers(col as int, row as int));
                    }
                    lemma_topmost_skip(regions, spans, col as int, row as int, point, 0, n);
                    assert(regions.take(0) =~= Seq::<HitRegion>::empty());
                }
                None
            },
            Some(list) => {
                proof {
                    assert(list@ == self.cell_indices(col, row));
                    assert(increasing_below(list@, n));
                    assert(list@.take(list@.len() as int) =~= list@);
                    assert forall|i: int| 0 <= i < n && spans[i].covers(col as int, row as int) implies list@.contains(i as usize) by {
                        assert(self.covered(i, col, row));
                        assert(self.listed(col, row, i));
                        assert(self.cell_indices(col, row).contains(i as usize));
                    }
                }
                let mut j: usize = list.len();
                let ghost mut m: int = n;
                while j > 0
                    invariant
                        j <= list@.len(),
                        0 <= m <= n,
                        n == regions.len(),
                        n == total,
                        regions == self.regions@,
                        spans == self.spans@,
                        spans.len() == n,
                        self.wf(),
                        list@ == self.cell_indices(col, row),
                        increasing_below(list@, n),
                        forall|k: int| 0 <= k < j ==> list@[k] < m,
                        forall|i: int|
                            0 <= i < m && spans[i].covers(col as int, row as int) ==> list@.take(
                                j as int,
                            ).contains(i as usize),
                        topmost_in_cell(regions, spans, col as int, row as int, point)
                            == topmost_in_cell(regions.take(m), spans.take(m), col as int, row as int, point),
                    decreases j,
                {
                    let idx = list[j - 1];
                    proof {
                        assert(list@[j - 1] < m);
                        assert forall|i: int|
                            idx < i < m implies !spans[i].covers(col as int, row as int) by {
                            if spans[i].covers(col as int, row as int) {
                                assert(i < n);
                                assert((i as usize) as int == i);
                                assert(list@.take(j as int).contains(i as usize));
                                let k = choose|k: int| 0 <= k < j && list@.take(j as int)[k] == i as usize;
                                assert(list@[k] == i as usize);
                                if k < j - 1 {
                                    assert(list@[k] < list@[j - 1]);
                                }
                            }
                        }
                        lemma_topmost_skip(regions, spans, col as int, row as int, point, idx + 1, m);
                        assert(regions.take(idx + 1).drop_last() =~= regions.take(idx as int));
                        assert(spans.take(idx + 1).drop_last() =~= spans.take(idx as int));
                        assert(self.listed(col, row, idx as int));
                        assert(self.covered(idx as int, col, row));
                    }
                    if contains_point(&self.regions[idx].rect, point) {
                        proof {
                            lemma_topmost_in_cell_is_last_covering(regions, spans, col as int, row as int, point);
                        }
                        return Some(self.regions[idx].id.clone());
                    }
                    proof {
                        m = idx as int;
                        assert forall|i: int|
                            0 <= i < m && spans[i].covers(col as int, row as int) implies list@.take(
                                (j - 1) as int,
                            ).contains(i as usize) by {
                            assert(list@.take(j as int).contains(i as usize));
                            let k = choose|k: int| 0 <= k < j && list@.take(j as int)[k] == i as usize;
                            assert(list@.take((j - 1) as int)[k] == i as usize);
                        }
                        assert forall|k: int| 0 <= k < j - 1 implies list@[k] < m by {
                            assert(list@[k] < list@[j - 1]);
                        }
                    }
                    j = j - 1;
                }
                proof {
                    assert forall|i: int| 0 <= i < m implies !spans[i].covers(col as int, row as int) by {
                        if spans[i].covers(col as int, row as int) {
                            assert(list@.take(0).contains(i as usize));
                        }
                    }
                    lemma_topmost_skip(regions, spans, col as int, row as int, point, 0, m);
                    assert(regions.take(0) =~= Seq::<HitRegion>::empty());
                }
                None
            },
        }
    }
}

} // verus!
