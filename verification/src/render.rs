//! What the frame loop decides between two frames.
//!
//! The loop itself, the window and the device stand outside: they report
//! the window's size and the outcome of a draw, and carry out the step that
//! is decided here.

use vstd::prelude::*;

verus! {

/// What the loop remembers from frame to frame.
pub struct RenderState {
    /// The surface no longer fits the window.
    pub out_of_date: bool,
    /// The window is minimized; nothing is drawn.
    pub idle: bool,
    /// How long the last draw took, in nanoseconds.
    pub frame_time: u128,
}

/// What the loop does next.
#[derive(PartialEq, Eq, Structural, Clone, Copy, Debug)]
pub enum FrameStep {
    /// Build the surface anew, for the window's present size.
    Recreate,
    /// Do nothing: the window has no area.
    Wait,
    /// Update the frame's parameters and draw.
    Draw,
}

impl RenderState {
    /// The state before the first frame.
    pub fn new() -> (r: RenderState)
        ensures
            r == (RenderState { out_of_date: false, idle: false, frame_time: 0 }),
    {
        RenderState { out_of_date: false, idle: false, frame_time: 0 }
    }

    /// The step for a window of `width` by `height`. A surface out of date
    /// is built anew if the window has an area, and the loop idles if it
    /// has none; a surface in date is drawn to.
    pub open spec fn step_spec(self, width: u32, height: u32) -> (RenderState, FrameStep) {
        if self.out_of_date {
            if width > 0 && height > 0 {
                (RenderState { idle: false, out_of_date: false, ..self }, FrameStep::Recreate)
            } else {
                (RenderState { idle: true, ..self }, FrameStep::Wait)
            }
        } else {
            (self, FrameStep::Draw)
        }
    }

    /// Decides the next step and takes note of it.
    pub fn next_step(&mut self, width: u32, height: u32) -> (step: FrameStep)
        ensures
            (*final(self), step) == old(self).step_spec(width, height),
    {
        if self.out_of_date {
            if width > 0 && height > 0 {
                self.idle = false;
                self.out_of_date = false;
                FrameStep::Recreate
            } else {
                self.idle = true;
                FrameStep::Wait
            }
        } else {
            FrameStep::Draw
        }
    }

    /// Takes note of a draw: whether it found the surface out of date, and
    /// how long it took.
    pub fn drawn(&mut self, out_of_date: bool, frame_time: u128)
        ensures
            *final(self) == (RenderState { out_of_date, frame_time, ..*old(self) }),
    {
        self.out_of_date = out_of_date;
        self.frame_time = frame_time;
    }
}

} // verus!
