//! Zoom anchoring.

use vstd::prelude::*;

verus! {

/// Which screen-space point to anchor a zoom step against.
///
/// "Anchor" = the point that stays fixed in CONTENT space as the
/// viewport rescales. Picking the cursor (image-editor convention)
/// pulls content toward the pointer; picking the viewport centre
/// (UI / vector editor convention) keeps the centred work pinned
/// while the surrounding content scales away symmetrically.
#[derive(Clone, Copy, Debug, PartialEq, Eq, Structural)]
pub enum ZoomAnchor {
    /// Anchor at the mouse cursor's screen position. Content under
    /// the cursor stays put; works well when the user is zooming
    /// at a specific feature.
    Cursor,
    /// Anchor at the canvas's viewport centre. Content centred in
    /// the canvas stays put; left/right edges scale symmetrically.
    /// Better default for design-canvas apps (UI / vector editors)
    /// where the user is typically working on whatever's centred.
    ViewportCenter,
}

impl Default for ZoomAnchor {
    fn default() -> (res: Self)
        ensures
            res == ZoomAnchor::ViewportCenter,
    {
        ZoomAnchor::ViewportCenter
    }
}

} // verus!
