use vstd::prelude::*;

use crate::frame::Frame;

verus! {

/// The shared slot that holds the latest frame. Every write bumps the generation;
/// a reader waits until the generation differs from the one it last saw.
pub struct FrameSlot {
    pub generation: u64,
    pub frame: Option<Frame>,
}

/// The generation that follows `g`; it wraps around after the largest value.
pub open spec fn next_generation(g: u64) -> u64 {
    if g == u64::MAX {
        0
    } else {
        (g + 1) as u64
    }
}

impl FrameSlot {
    pub fn new() -> (s: Self)
        ensures
            s.generation == 0,
            s.frame is None,
    {
        FrameSlot { generation: 0, frame: None }
    }

    /// Replaces the frame as a whole.
    pub fn write(&mut self, f: Frame)
        ensures
            final(self).frame == Some(f),
            final(self).generation == next_generation(old(self).generation),
    {
        self.frame = Some(f);
        self.generation = if self.generation == u64::MAX {
            0
        } else {
            self.generation + 1
        };
    }

    /// A reader that last saw generation `seen` has something new to read.
    pub fn has_news(&self, seen: u64) -> (b: bool)
        ensures
            b == (self.generation != seen),
    {
        self.generation != seen
    }
}

/// A write releases every reader that is waiting for the slot to change.
pub proof fn lemma_write_wakes_readers(before: FrameSlot, after: FrameSlot, seen: u64)
    requires
        after.generation == next_generation(before.generation),
        seen == before.generation,
    ensures
        after.generation != seen,
{
}

} // verus!
