//! Content- and screen-space geometry values of `blinc_core`.
//!
//! The library carries points and rectangles through its state machines
//! without reading their coordinates; the few geometric predicates it
//! needs (containment, overlap) are calls into `blinc_core`.

use vstd::prelude::*;

use blinc_core::layer::{Point, Rect};

verus! {

/// `blinc_core::layer::Point`, carried through opaquely.
#[verifier::external_type_specification]
#[verifier::external_body]
pub struct ExPoint(Point);

/// `blinc_core::layer::Rect`, carried through opaquely.
#[verifier::external_type_specification]
#[verifier::external_body]
pub struct ExRect(Rect);

/// Whether `blinc_core`'s `Rect::contains` holds of `rect` and `point`
/// (closed bounds on all four sides).
pub uninterp spec fn rect_contains(rect: Rect, point: Point) -> bool;

/// Calls `blinc_core::layer::Rect::contains`.
///
/// Trusted: the result is the value named by `rect_contains` for these
/// arguments; `contains` is a pure comparison of coordinates.
#[verifier::external_body]
pub(crate) fn contains_point(rect: &Rect, point: Point) -> (res: bool)
    ensures
        res == rect_contains(*rect, point),
{
    rect.contains(point)
}

} // verus!

verus! {

/// `r` is a rectangle that `blinc_core`'s `Rect::from_points` can build
/// from the corner points `p1` and `p2` (normalized to a non-negative
/// size). A relation, not a function: with infinite or NaN corners the
/// float subtraction yields a NaN whose bits Rust leaves open, so two calls
/// on the same corners need not agree bit for bit.
pub uninterp spec fn rect_spanning(p1: Point, p2: Point, r: Rect) -> bool;

/// Calls `blinc_core::layer::Rect::from_points`.
///
/// Trusted: the result is a rectangle that `rect_spanning` relates to
/// these corners; `from_points` is a min/max computation on the corner
/// coordinates. Nothing is claimed about two calls giving equal results.
#[verifier::external_body]
pub(crate) fn span_rect(p1: Point, p2: Point) -> (res: Rect)
    ensures
        rect_spanning(p1, p2, res),
{
    Rect::from_points(p1, p2)
}

/// Whether `blinc_core`'s `Rect::intersects` holds of `a` and `b` (open
/// overlap: rectangles that only touch do not intersect).
pub uninterp spec fn rect_overlaps(a: Rect, b: Rect) -> bool;

/// Calls `blinc_core::layer::Rect::intersects`.
///
/// Trusted: the result is the value named by `rect_overlaps` for these
/// arguments; `intersects` is a pure comparison of coordinates.
#[verifier::external_body]
pub(crate) fn overlaps(a: &Rect, b: &Rect) -> (res: bool)
    ensures
        res == rect_overlaps(*a, *b),
{
    a.intersects(b)
}

} // verus!
