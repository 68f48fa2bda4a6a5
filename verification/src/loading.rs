//! One-shot camera framing for scenes that load asynchronously.
//!
//! [`AutoFramer`] lets the first render that has the scene's bounding box
//! fit the camera to it, exactly once; later renders leave the camera to
//! the user's drag and zoom.

use vstd::prelude::*;

use std::sync::atomic::{AtomicBool, Ordering};
use std::sync::Arc;

verus! {

/// One-shot helper for fitting a camera to a scene bounding box.
///
/// Hold one across rebuilds and consult it every frame with whether the
/// scene's bounding box is known yet. The first consultation with a
/// bounding box claims the framing; every later one is refused. Clones
/// share the same flag (one `Arc`), so the framing happens once for all
/// of them.
#[derive(Clone, Default)]
pub struct AutoFramer {
    framed: Arc<AtomicBool>,
}

impl AutoFramer {
    /// A framer that has not framed yet.
    pub fn new() -> Self {
        AutoFramer { framed: Arc::new(AtomicBool::new(false)) }
    }

    /// Has the camera been auto-framed yet? Useful when you want to
    /// gate other "first render of the scene" effects.
    pub fn is_framed(&self) -> bool {
        self.framed.load(Ordering::Acquire)
    }

    /// Decide whether this frame fits the camera: only when the bounding
    /// box is known (`has_aabb`) and no earlier call, on this framer or a
    /// clone of it, has claimed the framing. A successful claim marks the
    /// framer as framed.
    pub fn claim(&self, has_aabb: bool) -> (res: bool)
        ensures
            res ==> has_aabb,
    {
        if self.framed.load(Ordering::Acquire) {
            return false;
        }
        if !has_aabb {
            return false;
        }
        if self.framed.swap(true, Ordering::AcqRel) {
            return false;
        }
        true
    }
}

} // verus!
