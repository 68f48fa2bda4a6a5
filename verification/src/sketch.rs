//! Frame bookkeeping of the "setup + draw" sketch runner.
//!
//! A sketch's `setup()` runs once, before its first `draw()`. The frame
//! counter reads `0` inside `setup`, `0` on the first `draw()`, and
//! increments after every drawn frame.

use vstd::prelude::*;

verus! {

/// Frame counter and setup flag of a running sketch.
#[derive(Clone, Copy, Debug, PartialEq, Eq, Structural)]
pub struct SketchFrames {
    /// Frames drawn since `setup()`.
    pub frame_count: u64,
    /// Whether `setup()` has run.
    pub did_setup: bool,
}

impl SketchFrames {
    /// A sketch that has not drawn yet.
    pub fn new() -> (res: Self)
        ensures
            res.frame_count == 0,
            !res.did_setup,
    {
        SketchFrames { frame_count: 0, did_setup: false }
    }

    /// Start a frame; returns whether `setup()` must run before this
    /// frame's `draw()`, which is so on the first frame only.
    pub fn begin_frame(&mut self) -> (run_setup: bool)
        ensures
            run_setup == !old(self).did_setup,
            final(self).did_setup,
            final(self).frame_count == old(self).frame_count,
    {
        let run_setup = !self.did_setup;
        self.did_setup = true;
        run_setup
    }

    /// Finish a drawn frame.
    pub fn end_frame(&mut self)
        requires
            old(self).frame_count < u64::MAX,
        ensures
            final(self).frame_count == old(self).frame_count + 1,
            final(self).did_setup == old(self).did_setup,
    {
        self.frame_count = self.frame_count + 1;
    }
}

/// Starting from a fresh sketch, setup runs on the first frame, which
/// draws with frame count 0, and on no later frame; the frame after
/// `n` drawn frames reads `n`.
pub proof fn lemma_setup_once(n: nat)
    requires
        n <= u64::MAX,
    ensures
        frames_after(n).did_setup <==> n > 0,
        frames_after(n).frame_count == n,
    decreases n,
{
    if n > 0 {
        lemma_setup_once((n - 1) as nat);
    }
}

/// The state after one frame (`begin_frame`, draw, `end_frame`).
pub open spec fn after_frame(s: SketchFrames) -> SketchFrames {
    SketchFrames { frame_count: (s.frame_count + 1) as u64, did_setup: true }
}

/// The state after `n` frames from a fresh sketch.
pub open spec fn frames_after(n: nat) -> SketchFrames
    decreases n,
{
    if n == 0 {
        SketchFrames { frame_count: 0, did_setup: false }
    } else {
        after_frame(frames_after((n - 1) as nat))
    }
}

} // verus!
