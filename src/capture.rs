use vstd::prelude::*;

verus! {

/// Default time between two captures, in milliseconds.
pub const CAPTURE_PERIOD_MS: u64 = 50;

/// When the capture worker takes its next frame. Deadlines are absolute: the k-th
/// capture is due at `start + k * period`, however late the earlier ones ran.
#[derive(Clone, Copy, PartialEq, Eq, Structural, Debug)]
pub struct CaptureSchedule {
    pub period: u64,
    pub next_deadline: u64,
}

impl CaptureSchedule {
    /// The schedule of a worker started at `start`: the first capture is due one period later.
    pub fn new(period: u64, start: u64) -> (s: Self)
        requires
            start + period <= u64::MAX,
        ensures
            s.period == period,
            s.deadline() == start + period,
    {
        CaptureSchedule { period, next_deadline: start + period }
    }

    /// The deadline of the next capture.
    pub open spec fn deadline(self) -> int {
        self.next_deadline as int
    }

    /// How long to sleep at `now` before the next capture; zero where it is overdue.
    pub fn sleep_before_next(&self, now: u64) -> (d: u64)
        ensures
            d == (if self.deadline() > now {
                self.deadline() - now
            } else {
                0
            }),
    {
        if self.next_deadline > now {
            self.next_deadline - now
        } else {
            0
        }
    }

    /// Whether one more capture can be scheduled without the clock running out.
    pub fn can_advance(&self) -> (b: bool)
        ensures
            b == (self.deadline() + self.period <= u64::MAX),
    {
        self.next_deadline <= u64::MAX - self.period
    }

    /// Records that the due capture was taken: the next one is due a period after
    /// the previous deadline, not after the moment the capture finished.
    pub fn captured(&mut self)
        requires
            old(self).deadline() + old(self).period <= u64::MAX,
        ensures
            final(self).period == old(self).period,
            final(self).deadline() == old(self).deadline() + old(self).period,
    {
        self.next_deadline = self.next_deadline + self.period;
    }
}

} // verus!
