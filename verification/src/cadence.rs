//! The pace of the frames: how many there were, and which of them may spawn.

use vstd::prelude::*;

verus! {

/// What one frame is told.
#[derive(Clone, Copy, Debug, PartialEq, Eq, Structural)]
pub struct Frame {
    /// The frames shown per second before this one, on average.
    pub fps: u64,
    /// Whether this frame is one in which a particle may spawn.
    pub spawn_gate: bool,
}

/// The frame rate of `frames` frames shown in `elapsed_secs` whole seconds,
/// where less than a second counts as one.
pub open spec fn frame_rate(frames: nat, elapsed_secs: nat) -> nat {
    if elapsed_secs == 0 {
        frames
    } else {
        frames / elapsed_secs
    }
}

/// Counts frames and lets every frame spawn whose number is a multiple of
/// the period.
#[derive(Clone, Copy, Debug)]
pub struct FrameClock {
    frames: u64,
    period: u64,
}

impl FrameClock {
    /// The number of frames counted so far.
    pub closed spec fn frames(&self) -> nat {
        self.frames as nat
    }

    /// The number of frames from one that may spawn to the next.
    pub closed spec fn period(&self) -> nat {
        self.period as nat
    }

    /// The period is positive.
    pub closed spec fn wf(&self) -> bool {
        self.period > 0
    }

    /// A clock that has counted no frame, if `period` is positive.
    pub fn new(period: u64) -> (clock: Option<FrameClock>)
        ensures
            clock is Some <==> period > 0,
            clock matches Some(c) ==> c.wf() && c.frames() == 0 && c.period() == period,
    {
        if period > 0 {
            Some(FrameClock { frames: 0, period })
        } else {
            None
        }
    }

    /// The number of frames counted so far.
    pub fn frame_count(&self) -> (n: u64)
        ensures
            n == self.frames(),
    {
        self.frames
    }

    /// Counts one frame, `elapsed_secs` whole seconds after the first.
    ///
    /// The frame rate is taken over the frames before this one. The frame
    /// may spawn if the number of frames, with this one, is a multiple of
    /// the period. The count stops at the largest machine word.
    pub fn advance(&mut self, elapsed_secs: u64) -> (frame: Frame)
        requires
            old(self).wf(),
        ensures
            final(self).wf(),
            final(self).period() == old(self).period(),
            final(self).frames() == if old(self).frames() < u64::MAX {
                old(self).frames() + 1
            } else {
                old(self).frames()
            },
            frame.fps == frame_rate(old(self).frames(), elapsed_secs as nat),
            frame.spawn_gate == (final(self).frames() % final(self).period() == 0),
    {
        let fps: u64 = if elapsed_secs == 0 {
            self.frames
        } else {
            self.frames / elapsed_secs
        };
        if self.frames < u64::MAX {
            self.frames = self.frames + 1;
        }
        Frame { fps, spawn_gate: self.frames % self.period == 0 }
    }
}

} // verus!
