//! Decisions of a scrolling-capture session: which status the capture panel
//! shows while frames come in, what the session produces when it stops, and
//! what a request to begin one does. The capture loop itself (a thread, a
//! timer and the screen grabber) runs in the application shell.

use vstd::prelude::*;
use crate::frame::RgbaFrame;
use crate::stitch::{PushResult, Stitcher, finished_view, out_height, stitcher_wf};

verus! {

/// Screen region selected for a scrolling capture, in logical points.
#[derive(Clone, Copy, Debug, PartialEq, Eq)]
pub struct Region {
    pub x: u32,
    pub y: u32,
    pub width: u32,
    pub height: u32,
}

/// Progress of a running session as the capture panel sees it.
pub struct ProgressView {
    /// Frames captured so far.
    pub frames: u32,
    /// Consecutive frames dropped for lack of a trusted match.
    pub lowconf_run: u32,
    /// The "scrolling too fast" warning is showing.
    pub warned: bool,
}

/// Low-confidence frames in a row after which the panel warns that the
/// user scrolls too fast.
pub const TOO_FAST_RUN: u32 = 2;

/// What the panel's status becomes after one more frame result: `Some(true)`
/// raises the warning, `Some(false)` clears it, `None` leaves it.
pub open spec fn observe_step(p: ProgressView, r: PushResult) -> (ProgressView, Option<bool>) {
    let frames = (p.frames + 1) as u32;
    match r {
        PushResult::SkippedLowConfidence => {
            let run = (p.lowconf_run + 1) as u32;
            if run >= TOO_FAST_RUN && !p.warned {
                (ProgressView { frames, lowconf_run: run, warned: true }, Some(true))
            } else {
                (ProgressView { frames, lowconf_run: run, warned: p.warned }, None)
            }
        },
        PushResult::AppendedRows(_) | PushResult::HardAppended => {
            if p.warned {
                (ProgressView { frames, lowconf_run: 0, warned: false }, Some(false))
            } else {
                (ProgressView { frames, lowconf_run: 0, warned: false }, None)
            }
        },
        _ => (ProgressView { frames, lowconf_run: p.lowconf_run, warned: p.warned }, None),
    }
}

/// Counts frames and decides the "too fast" status of a session.
pub struct ScrollProgress {
    frames: u32,
    lowconf_run: u32,
    warned: bool,
}

impl View for ScrollProgress {
    type V = ProgressView;

    closed spec fn view(&self) -> ProgressView {
        ProgressView { frames: self.frames, lowconf_run: self.lowconf_run, warned: self.warned }
    }
}

impl ScrollProgress {
    pub closed spec fn wf(&self) -> bool {
        self.lowconf_run <= self.frames
    }

    /// No frame seen, no warning.
    pub fn new() -> (p: ScrollProgress)
        ensures
            p.wf(),
            p@ == (ProgressView { frames: 0, lowconf_run: 0, warned: false }),
    {
        ScrollProgress { frames: 0, lowconf_run: 0, warned: false }
    }

    /// Frames captured so far.
    pub fn frames(&self) -> (n: u32)
        ensures
            n == self@.frames,
    {
        self.frames
    }

    /// Records the result of pushing one more frame and returns the status
    /// change to announce, if any.
    pub fn observe(&mut self, r: &PushResult) -> (status: Option<bool>)
        requires
            old(self).wf(),
            old(self)@.frames < u32::MAX,
        ensures
            final(self).wf(),
            (final(self)@, status) == observe_step(old(self)@, *r),
    {
        let status = match r {
            PushResult::SkippedLowConfidence => {
                self.lowconf_run = self.lowconf_run + 1;
                if self.lowconf_run >= TOO_FAST_RUN && !self.warned {
                    self.warned = true;
                    Some(true)
                } else {
                    None
                }
            },
            PushResult::AppendedRows(_) | PushResult::HardAppended => {
                self.lowconf_run = 0;
                if self.warned {
                    self.warned = false;
                    Some(false)
                } else {
                    None
                }
            },
            _ => None,
        };
        self.frames = self.frames + 1;
        status
    }
}

/// The warning goes up only when it is down and comes down only when it is
/// up, so every raise is followed by at most one clear; it goes up only
/// after `TOO_FAST_RUN` unmatched frames in a row, and any append clears the
/// run.
pub proof fn lemma_warning_toggles(p: ProgressView, r: PushResult)
    requires
        p.lowconf_run <= p.frames < u32::MAX,
    ensures
        ({
            let (q, status) = observe_step(p, r);
            &&& status == Some(true) ==> !p.warned && q.warned && q.lowconf_run >= TOO_FAST_RUN
            &&& status == Some(false) ==> p.warned && !q.warned
            &&& status is None ==> q.warned == p.warned
            &&& (r is AppendedRows || r is HardAppended) ==> q.lowconf_run == 0 && !q.warned
            &&& q.frames == p.frames + 1
        }),
{
}

/// What a stopped session produces: the stitched image, or nothing when no
/// frame was captured (or only empty ones).
pub fn stitched_output(stitcher: Stitcher) -> (out: Option<RgbaFrame>)
    requires
        stitcher_wf(stitcher@),
    ensures
        out is None <==> out_height(stitcher@) == 0,
        out matches Some(img) ==> img@ == finished_view(stitcher@),
{
    if stitcher.height() == 0 {
        return None;
    }
    Some(stitcher.finish())
}

/// What a request to begin a scrolling capture does.
#[derive(Clone, Copy, Debug, PartialEq, Eq)]
pub enum BeginAction {
    /// A session is already running: the request is ignored.
    Ignore,
    /// Screen Recording is not granted: ask for it and explain.
    RequestPermission,
    /// Show the region selector.
    ShowSelector,
}

/// A running session ignores re-triggers; without the Screen Recording
/// grant no session starts; otherwise the selector opens.
pub fn begin_action(session_running: bool, screen_recording_granted: bool) -> (a: BeginAction)
    ensures
        session_running ==> a == BeginAction::Ignore,
        !session_running && !screen_recording_granted ==> a == BeginAction::RequestPermission,
        !session_running && screen_recording_granted ==> a == BeginAction::ShowSelector,
{
    if session_running {
        BeginAction::Ignore
    } else if !screen_recording_granted {
        BeginAction::RequestPermission
    } else {
        BeginAction::ShowSelector
    }
}

} // verus!
