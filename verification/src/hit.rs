//! Hit regions, pointer-interaction state and event payloads.

use vstd::prelude::*;

use blinc_core::layer::{Point, Rect};

use crate::coords::{contains_point, rect_contains};

verus! {

/// Content-space bounding box registered as an interactive region.
///
/// Register during the draw callback via `kit.hit_rect(id, rect)`.
/// Z-order matches draw order: last registered = topmost.
#[derive(Debug)]
pub struct HitRegion {
    pub id: String,
    pub rect: Rect,
}

impl Clone for HitRegion {
    fn clone(&self) -> (res: Self)
        ensures
            res.id@ == self.id@,
            res.rect == self.rect,
    {
        HitRegion { id: self.id.clone(), rect: self.rect }
    }
}

impl HitRegion {
    /// A region with the given id and content-space bounds.
    pub fn new<S: Into<String>>(id: S, rect: Rect) -> (res: Self)
        ensures
            res.rect == rect,
            call_ensures(<S as Into<String>>::into, (id,), res.id),
    {
        HitRegion { id: id.into(), rect }
    }
}

/// Tracks current pointer interaction state.
#[derive(Debug)]
pub struct InteractionState {
    /// Region currently under the pointer (hover).
    pub hovered: Option<String>,
    /// Region being dragged (set on POINTER_DOWN over a region).
    pub active: Option<String>,
    /// Content-space point where the current drag started.
    pub drag_start: Option<Point>,
    /// Whether a DRAG event has fired since POINTER_DOWN (distinguishes click from drag).
    pub did_drag: bool,
}

impl Clone for InteractionState {
    fn clone(&self) -> (res: Self)
        ensures
            res == *self,
    {
        InteractionState {
            hovered: clone_opt_string(&self.hovered),
            active: clone_opt_string(&self.active),
            drag_start: self.drag_start,
            did_drag: self.did_drag,
        }
    }
}

impl Default for InteractionState {
    fn default() -> (res: Self)
        ensures
            res.hovered is None,
            res.active is None,
            res.drag_start is None,
            !res.did_drag,
    {
        InteractionState { hovered: None, active: None, drag_start: None, did_drag: false }
    }
}

/// A copy of an optional id.
pub(crate) fn clone_opt_string(s: &Option<String>) -> (res: Option<String>)
    ensures
        res == *s,
{
    match s {
        Some(v) => Some(v.clone()),
        None => None,
    }
}

/// The view of an optional id.
pub open spec fn opt_id(s: Option<String>) -> Option<Seq<char>> {
    match s {
        Some(v) => Some(v@),
        None => None,
    }
}

/// Event passed to click and hover callbacks.
#[derive(Debug)]
pub struct CanvasEvent {
    /// Mouse position in content-space.
    pub content_point: Point,
    /// Mouse position in screen-space.
    pub screen_point: Point,
    /// Hit region id, or `None` if the pointer is over the background.
    pub region_id: Option<String>,
}

/// Event passed to element drag callbacks.
#[derive(Debug)]
pub struct CanvasDragEvent {
    /// Current mouse position in content-space.
    pub content_point: Point,
    /// Drag delta in content-space since last event.
    pub content_delta: Point,
    /// Current mouse position in screen-space.
    pub screen_point: Point,
    /// The region being dragged.
    pub region_id: String,
}

impl Clone for CanvasEvent {
    fn clone(&self) -> (res: Self)
        ensures
            res == *self,
    {
        CanvasEvent {
            content_point: self.content_point,
            screen_point: self.screen_point,
            region_id: clone_opt_string(&self.region_id),
        }
    }
}

impl Clone for CanvasDragEvent {
    fn clone(&self) -> (res: Self)
        ensures
            res == *self,
    {
        CanvasDragEvent {
            content_point: self.content_point,
            content_delta: self.content_delta,
            screen_point: self.screen_point,
            region_id: self.region_id.clone(),
        }
    }
}

/// The id of the last region of `regions` whose rectangle contains
/// `point` (the topmost one), if any.
pub open spec fn topmost_hit(regions: Seq<HitRegion>, point: Point) -> Option<Seq<char>>
    decreases regions.len(),
{
    if regions.len() == 0 {
        None
    } else if rect_contains(regions.last().rect, point) {
        Some(regions.last().id@)
    } else {
        topmost_hit(regions.drop_last(), point)
    }
}

/// `topmost_hit` finds nothing exactly when no region contains the
/// point; when it finds `id`, some region `i` with that id contains the
/// point and no region after `i` (drawn above it) does.
pub proof fn lemma_topmost_hit_is_last_containing(regions: Seq<HitRegion>, point: Point)
    ensures
        topmost_hit(regions, point) is None <==> forall|i: int|
            0 <= i < regions.len() ==> !rect_contains(#[trigger] regions[i].rect, point),
        topmost_hit(regions, point) is Some ==> exists|i: int|
            0 <= i < regions.len() && rect_contains(#[trigger] regions[i].rect, point)
                && regions[i].id@ == topmost_hit(regions, point)->0 && forall|j: int|
                i < j < regions.len() ==> !rect_contains(#[trigger] regions[j].rect, point),
    decreases regions.len(),
{
    if regions.len() > 0 {
        let n = regions.len() - 1;
        let prev = regions.drop_last();
        lemma_topmost_hit_is_last_containing(prev, point);
        if rect_contains(regions.last().rect, point) {
            assert(rect_contains(regions[n].rect, point));
        } else {
            assert forall|i: int| 0 <= i < n implies #[trigger] regions[i].rect == prev[i].rect by {}
            if topmost_hit(prev, point) is Some {
                let i = choose|i: int|
                    0 <= i < prev.len() && rect_contains(#[trigger] prev[i].rect, point)
                        && prev[i].id@ == topmost_hit(prev, point)->0 && forall|j: int|
                        i < j < prev.len() ==> !rect_contains(#[trigger] prev[j].rect, point);
                assert(regions[i] == prev[i]);
                assert forall|j: int| i < j < regions.len() implies !rect_contains(#[trigger] regions[j].rect, point) by {
                    if j < n {
                        assert(regions[j] == prev[j]);
                    }
                }
            } else {
                assert forall|i: int| 0 <= i < regions.len() implies !rect_contains(#[trigger] regions[i].rect, point) by {
                    if i < n {
                        assert(regions[i] == prev[i]);
                    }
                }
            }
        }
    }
}

/// Hit-test a point against regions in reverse order (topmost first).
///
/// Returns the id of the last region whose bounding rect contains the point.
pub fn hit_test(regions: &[HitRegion], content_point: Point) -> (res: Option<String>)
    ensures
        opt_id(res) == topmost_hit(regions@, content_point),
        res is None <==> forall|i: int|
            0 <= i < regions@.len() ==> !rect_contains(#[trigger] regions@[i].rect, content_point),
        res matches Some(id) ==> exists|i: int|
            0 <= i < regions@.len() && rect_contains(#[trigger] regions@[i].rect, content_point)
                && regions@[i].id@ == id@ && forall|j: int|
                i < j < regions@.len() ==> !rect_contains(#[trigger] regions@[j].rect, content_point),
{
    proof {
        lemma_topmost_hit_is_last_containing(regions@, content_point);
    }
    let mut i: usize = regions.len();
    proof {
        assert(regions@.take(i as int) =~= regions@);
    }
    while i > 0
        invariant
            i <= regions@.len(),
            topmost_hit(regions@, content_point) == topmost_hit(regions@.take(i as int), content_point),
        decreases i,
    {
        proof {
            assert(regions@.take(i as int).drop_last() =~= regions@.take(i - 1));
        }
        if contains_point(&regions[i - 1].rect, content_point) {
            let id = regions[i - 1].id.clone();
            proof {
                lemma_topmost_hit_is_last_containing(regions@, content_point);
            }
            return Some(id);
        }
        i = i - 1;
    }
    proof {
        assert(regions@.take(0) =~= Seq::<HitRegion>::empty());
    }
    None
}

} // verus!
