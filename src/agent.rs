use vstd::prelude::*;

use crate::frame::{Frame, Rect};
use crate::matcher::Matcher;

verus! {

// ---------------------------------------------------------------- one evaluation

/// The matcher after trying the candidates from index `k` on, and the first result:
/// a candidate wins when `check` passes and then `match_image` gives a result.
pub open spec fn scan<M: Matcher>(m: M, f: Frame, c: Seq<Rect>, k: int) -> (M, Option<
    M::MatchResult,
>)
    decreases c.len() - k,
{
    if k < 0 || k >= c.len() {
        (m, None)
    } else {
        let passed = m.check_spec(f, c[k]);
        let m2 = m.remember(c[k], passed);
        if passed && m2.match_spec(f, c[k]) is Some {
            (m2, m2.match_spec(f, c[k]))
        } else {
            scan(m2, f, c, k + 1)
        }
    }
}

/// Runs the matcher over the frame's candidates in order; the first that passes
/// `check` and `match_image` wins.
pub fn find_first_match<M: Matcher>(m: &mut M, f: &Frame) -> (r: Option<M::MatchResult>)
    requires
        old(m).inv(),
        f.wf(),
        old(m).frame_fits(*f),
    ensures
        final(m).inv(),
        (*final(m), r) == scan(*old(m), *f, old(m).candidates_spec(*f), 0),
{
    let cands = m.candidates_iter(f);
    let ghost c = cands@;
    let ghost m0 = *m;
    let n = cands.len();
    let mut k: usize = 0;
    while k < n
        invariant
            m.inv(),
            f.wf(),
            c == cands@,
            m0 == *old(m),
            c == old(m).candidates_spec(*f),
            n == c.len(),
            k <= n,
            forall|j: int| 0 <= j < c.len() ==> m.region_fits(*f, #[trigger] c[j]),
            scan(m0, *f, c, 0) == scan(*m, *f, c, k as int),
        decreases n - k,
    {
        let r = cands[k];
        let ghost before = *m;
        let passed = m.check(f, r);
        if passed {
            let res = m.match_image(f, r);
            if res.is_some() {
                assert(scan(before, *f, c, k as int) == (*m, res));
                return res;
            }
        }
        k = k + 1;
    }
    None
}

// ---------------------------------------------------------------- worker decisions

/// What a worker does with a wake-up.
#[derive(Clone, Copy, PartialEq, Eq, Structural, Debug)]
pub enum WakeAction {
    Skip,
    Evaluate,
}

/// What happens to a worker.
#[derive(Clone, Copy, PartialEq, Eq, Structural, Debug)]
pub enum AgentEvent {
    /// A new frame may be there; `now` is the clock reading.
    WakeUp { now: u64, has_frame: bool },
    /// The worker tried to publish a result; `sent` tells whether the slot took it.
    Published { sent: bool },
    /// A consumer re-armed the worker.
    Woken,
}

/// The decision state of a match worker.
#[derive(Clone, Copy, PartialEq, Eq, Structural, Debug)]
pub struct AgentCore {
    /// Least time between two evaluations, in clock units.
    pub rate_limit: u64,
    /// When the last wake-up passed the rate limit.
    pub last_match: Option<u64>,
    /// Whether a published result pauses the worker.
    pub suspendable: bool,
    /// Paused until a consumer re-arms it.
    pub suspended: bool,
}

/// A wake-up at `now` gets past the rate limit.
pub open spec fn passes_rate_limit(s: AgentCore, now: u64) -> bool {
    match s.last_match {
        None => true,
        Some(l) => l + s.rate_limit <= now,
    }
}

/// The state after an event, and what the worker does about it.
pub open spec fn step(s: AgentCore, e: AgentEvent) -> (AgentCore, WakeAction) {
    match e {
        AgentEvent::WakeUp { now, has_frame } => if passes_rate_limit(s, now) {
            (
                AgentCore { last_match: Some(now), ..s },
                if has_frame && !(s.suspendable && s.suspended) {
                    WakeAction::Evaluate
                } else {
                    WakeAction::Skip
                },
            )
        } else {
            (s, WakeAction::Skip)
        },
        AgentEvent::Published { sent } => (
            AgentCore { suspended: s.suspended || (sent && s.suspendable), ..s },
            WakeAction::Skip,
        ),
        AgentEvent::Woken => (AgentCore { suspended: false, ..s }, WakeAction::Skip),
    }
}

/// The state after the first `k` events.
pub open spec fn state_after(s: AgentCore, es: Seq<AgentEvent>, k: int) -> AgentCore
    decreases k,
{
    if k <= 0 {
        s
    } else {
        step(state_after(s, es, k - 1), es[k - 1]).0
    }
}

/// Event `k` makes the worker evaluate the matcher.
pub open spec fn evaluates_at(s: AgentCore, es: Seq<AgentEvent>, k: int) -> bool {
    0 <= k < es.len() && step(state_after(s, es, k), es[k]).1 == WakeAction::Evaluate
}

impl AgentCore {
    pub fn new(rate_limit: u64, suspendable: bool) -> (s: Self)
        ensures
            s == (AgentCore { rate_limit, last_match: None, suspendable, suspended: false }),
    {
        AgentCore { rate_limit, last_match: None, suspendable, suspended: false }
    }

    /// Decides what to do with a wake-up at `now`.
    pub fn on_wake(&mut self, now: u64, has_frame: bool) -> (a: WakeAction)
        ensures
            (*final(self), a) == step(*old(self), AgentEvent::WakeUp { now, has_frame }),
    {
        let passes = match self.last_match {
            None => true,
            Some(l) => (l as u128) + (self.rate_limit as u128) <= now as u128,
        };
        if !passes {
            return WakeAction::Skip;
        }
        self.last_match = Some(now);
        if has_frame && !(self.suspendable && self.suspended) {
            WakeAction::Evaluate
        } else {
            WakeAction::Skip
        }
    }

    /// Records the outcome of publishing a result.
    pub fn on_published(&mut self, sent: bool)
        ensures
            *final(self) == step(*old(self), AgentEvent::Published { sent }).0,
    {
        if sent && self.suspendable {
            self.suspended = true;
        }
    }

    /// Re-arms a suspended worker.
    pub fn wake(&mut self)
        ensures
            *final(self) == step(*old(self), AgentEvent::Woken).0,
    {
        self.suspended = false;
    }
}

proof fn lemma_last_match_grows(s: AgentCore, es: Seq<AgentEvent>, i: int, k: int, t: u64)
    requires
        0 <= i < k <= es.len(),
        state_after(s, es, i + 1).last_match == Some(t),
    ensures
        state_after(s, es, k).last_match matches Some(l) && l >= t,
        state_after(s, es, k).rate_limit == s.rate_limit,
    decreases k,
{
    lemma_rate_limit_kept(s, es, k);
    if k > i + 1 {
        lemma_last_match_grows(s, es, i, k - 1, t);
    }
}

proof fn lemma_rate_limit_kept(s: AgentCore, es: Seq<AgentEvent>, k: int)
    ensures
        state_after(s, es, k).rate_limit == s.rate_limit,
        state_after(s, es, k).suspendable == s.suspendable,
    decreases k,
{
    if k > 0 {
        lemma_rate_limit_kept(s, es, k - 1);
    }
}

/// Two evaluations of the matcher are at least the rate limit apart, whatever
/// happens between them.
pub proof fn lemma_rate_limit(s: AgentCore, es: Seq<AgentEvent>, i: int, j: int)
    requires
        i < j,
        evaluates_at(s, es, i),
        evaluates_at(s, es, j),
    ensures
        es[i] matches AgentEvent::WakeUp { now: ti, .. } && es[j] matches AgentEvent::WakeUp {
            now: tj,
            ..
        } && ti + s.rate_limit <= tj,
{
    lemma_rate_limit_kept(s, es, i);
    if let AgentEvent::WakeUp { now: ti, .. } = es[i] {
        lemma_last_match_grows(s, es, i, j, ti);
    }
}

/// After a result has been published on a suspendable worker, no wake-up makes it
/// evaluate until it is re-armed.
pub proof fn lemma_suspension(s: AgentCore, es: Seq<AgentEvent>, i: int, j: int)
    requires
        0 <= i < j < es.len(),
        s.suspendable,
        es[i] == (AgentEvent::Published { sent: true }),
        forall|k: int| i < k < j ==> es[k] != AgentEvent::Woken,
    ensures
        !evaluates_at(s, es, j),
        state_after(s, es, j).suspended,
    decreases j,
{
    lemma_rate_limit_kept(s, es, j);
    lemma_rate_limit_kept(s, es, i);
    if j > i + 1 {
        lemma_suspension(s, es, i, j - 1);
    }
}

} // verus!
