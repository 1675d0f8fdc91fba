//! The offscreen smoke shot (`LOCALGPT_MD_SCREENSHOT=out.png`): render the
//! first stop, wait for shaders to warm up, capture once, and exit — a
//! visual check that needs no human and no display. The renderer does the
//! capturing; the frame-by-frame decisions are here.

use vstd::prelude::*;

verus! {

/// Frames to wait before capturing, so pipelines have compiled.
pub const WARM_UP: u32 = 240;

/// Give up after this many frames if no capture arrives.
pub const TIMEOUT: u32 = 1200;

/// How the run ends.
#[derive(Clone, Copy, Debug, PartialEq, Eq)]
pub enum SmokeExit {
    /// The screenshot was saved.
    Success,
    /// No screenshot arrived in time.
    Error,
}

/// What to do this frame.
#[derive(Clone, Copy, Debug, PartialEq, Eq)]
pub struct SmokeFrame {
    /// Request the screenshot of the offscreen target now.
    pub capture: bool,
    /// Exit the application, and how.
    pub exit: Option<SmokeExit>,
}

/// Where the smoke run stands.
#[derive(Clone, Copy, Debug, PartialEq, Eq)]
pub struct Smoke {
    /// Frames rendered so far.
    pub frame: u32,
    /// The offscreen target exists.
    pub has_target: bool,
    /// The screenshot has been saved.
    pub saved: bool,
}

/// The decision for the frame after `frame` frames: capture on the
/// warm-up frame when there is a target; exit once saved, or with an error
/// past the timeout.
pub open spec fn smoke_frame(frame: u32, has_target: bool, saved: bool) -> SmokeFrame {
    let next = frame + 1;
    SmokeFrame {
        capture: next == WARM_UP && has_target,
        exit: if saved {
            Some(SmokeExit::Success)
        } else if next > TIMEOUT {
            Some(SmokeExit::Error)
        } else {
            None
        },
    }
}

impl Smoke {
    /// Nothing rendered yet, no target, nothing saved.
    pub fn new() -> (s: Smoke)
        ensures
            s == (Smoke { frame: 0, has_target: false, saved: false }),
    {
        Smoke { frame: 0, has_target: false, saved: false }
    }

    /// The offscreen target is in place.
    pub fn target_ready(&mut self)
        ensures
            *final(self) == (Smoke { has_target: true, ..*old(self) }),
    {
        self.has_target = true;
    }

    /// The capture arrived and was written.
    pub fn captured(&mut self)
        ensures
            *final(self) == (Smoke { saved: true, ..*old(self) }),
    {
        self.saved = true;
    }

    /// One frame: count it and decide.
    pub fn tick(&mut self) -> (f: SmokeFrame)
        requires
            old(self).frame < u32::MAX,
        ensures
            f == smoke_frame(old(self).frame, old(self).has_target, old(self).saved),
            *final(self) == (Smoke { frame: (old(self).frame + 1) as u32, ..*old(self) }),
    {
        self.frame = self.frame + 1;
        let capture = self.frame == WARM_UP && self.has_target;
        let exit = if self.saved {
            Some(SmokeExit::Success)
        } else if self.frame > TIMEOUT {
            Some(SmokeExit::Error)
        } else {
            None
        };
        SmokeFrame { capture, exit }
    }
}

} // verus!
