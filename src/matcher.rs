use vstd::prelude::*;

use crate::frame::{Frame, Rect};

verus! {

/// A pattern detector: proposes regions of a frame and tests them.
pub trait Matcher: Sized {
    type MatchResult;

    /// The matcher's configuration is consistent.
    spec fn inv(&self) -> bool;

    /// The `(width, height)` that the matcher expects.
    spec fn dims_spec(&self) -> (u32, u32);

    /// The frame is large enough for `candidates_iter`.
    spec fn frame_fits(&self, f: Frame) -> bool;

    /// Every pixel that `check` and `match_image` read of the region lies in the frame.
    spec fn region_fits(&self, f: Frame, r: Rect) -> bool;

    /// The regions worth testing, in the order in which they are tried.
    spec fn candidates_spec(&self, f: Frame) -> Seq<Rect>;

    /// Outcome of the cheap test.
    spec fn check_spec(&self, f: Frame, r: Rect) -> bool;

    /// Outcome of the full test.
    spec fn match_spec(&self, f: Frame, r: Rect) -> Option<Self::MatchResult>;

    /// The matcher as it stands after `check` returned `passed` on `r`.
    spec fn remember(&self, r: Rect, passed: bool) -> Self;

    fn view_dimensions(&self) -> (d: (u32, u32))
        requires
            self.inv(),
        ensures
            d == self.dims_spec(),
    ;

    fn fits_frame(&self, f: &Frame) -> (b: bool)
        requires
            self.inv(),
            f.wf(),
        ensures
            b == self.frame_fits(*f),
    ;

    fn fits_region(&self, f: &Frame, r: Rect) -> (b: bool)
        requires
            self.inv(),
            f.wf(),
        ensures
            b == self.region_fits(*f, r),
    ;

    fn candidates_iter(&self, f: &Frame) -> (v: Vec<Rect>)
        requires
            self.inv(),
            f.wf(),
            self.frame_fits(*f),
        ensures
            v@ == self.candidates_spec(*f),
            forall|k: int| 0 <= k < v@.len() ==> self.region_fits(*f, #[trigger] v@[k]),
    ;

    fn check(&mut self, f: &Frame, r: Rect) -> (b: bool)
        requires
            old(self).inv(),
            f.wf(),
            old(self).region_fits(*f, r),
        ensures
            b == old(self).check_spec(*f, r),
            *final(self) == old(self).remember(r, b),
            final(self).inv(),
            forall|g: Frame, r2: Rect| #[trigger]
                final(self).region_fits(g, r2) == old(self).region_fits(g, r2),
            forall|g: Frame, r2: Rect| #[trigger]
                final(self).match_spec(g, r2) == old(self).match_spec(g, r2),
    ;

    fn match_image(&self, f: &Frame, r: Rect) -> (m: Option<Self::MatchResult>)
        requires
            self.inv(),
            f.wf(),
            self.region_fits(*f, r),
        ensures
            m == self.match_spec(*f, r),
    ;
}

/// Wraps a matcher and remembers the last region that passed `check`; from then
/// on that region is the only candidate.
pub struct BoundsCachedMatcher<T> {
    pub inner: T,
    pub cache: Option<Rect>,
}

impl<T> BoundsCachedMatcher<T> {
    pub fn new(x: T) -> (m: Self)
        ensures
            m.inner == x,
            m.cache is None,
    {
        BoundsCachedMatcher { inner: x, cache: None }
    }
}

impl<T: Matcher> Matcher for BoundsCachedMatcher<T> {
    type MatchResult = T::MatchResult;

    open spec fn inv(&self) -> bool {
        self.inner.inv()
    }

    open spec fn dims_spec(&self) -> (u32, u32) {
        self.inner.dims_spec()
    }

    open spec fn frame_fits(&self, f: Frame) -> bool {
        match self.cache {
            Some(b) => self.inner.region_fits(f, b),
            None => self.inner.frame_fits(f),
        }
    }

    open spec fn region_fits(&self, f: Frame, r: Rect) -> bool {
        self.inner.region_fits(f, r)
    }

    open spec fn candidates_spec(&self, f: Frame) -> Seq<Rect> {
        match self.cache {
            Some(b) => seq![b],
            None => self.inner.candidates_spec(f),
        }
    }

    open spec fn check_spec(&self, f: Frame, r: Rect) -> bool {
        self.inner.check_spec(f, r)
    }

    open spec fn match_spec(&self, f: Frame, r: Rect) -> Option<T::MatchResult> {
        self.inner.match_spec(f, r)
    }

    open spec fn remember(&self, r: Rect, passed: bool) -> Self {
        BoundsCachedMatcher {
            inner: self.inner.remember(r, passed),
            cache: if passed {
                Some(r)
            } else {
                self.cache
            },
        }
    }

    fn view_dimensions(&self) -> (d: (u32, u32)) {
        self.inner.view_dimensions()
    }

    fn fits_frame(&self, f: &Frame) -> (b: bool) {
        match self.cache {
            Some(b) => self.inner.fits_region(f, b),
            None => self.inner.fits_frame(f),
        }
    }

    fn fits_region(&self, f: &Frame, r: Rect) -> (b: bool) {
        self.inner.fits_region(f, r)
    }

    fn candidates_iter(&self, f: &Frame) -> (v: Vec<Rect>) {
        match self.cache {
            Some(b) => {
                let v = vec![b];
                assert(v@ =~= seq![b]);
                v
            },
            None => self.inner.candidates_iter(f),
        }
    }

    fn check(&mut self, f: &Frame, r: Rect) -> (b: bool) {
        if self.inner.check(f, r) {
            self.cache = Some(r);
            true
        } else {
            false
        }
    }

    fn match_image(&self, f: &Frame, r: Rect) -> (m: Option<T::MatchResult>) {
        self.inner.match_image(f, r)
    }
}

/// Once a check has passed on region `r`, the cached matcher proposes `r` alone, on
/// every frame, however many candidates the wrapped matcher has.
pub proof fn lemma_bounds_cached_single_candidate<T: Matcher>(
    m: BoundsCachedMatcher<T>,
    r: Rect,
    g: Frame,
)
    ensures
        m.remember(r, true).candidates_spec(g) == seq![r],
        m.remember(r, true).remember(r, true).candidates_spec(g) == seq![r],
{
}

/// With nothing cached, the cached matcher proposes exactly what the wrapped one
/// does, on the same frames, and keeps nothing cached until a check passes.
pub proof fn lemma_bounds_cached_empty<T: Matcher>(m: BoundsCachedMatcher<T>, f: Frame, r: Rect)
    requires
        m.cache is None,
    ensures
        m.frame_fits(f) == m.inner.frame_fits(f),
        m.candidates_spec(f) == m.inner.candidates_spec(f),
        m.remember(r, false).cache is None,
{
}

} // verus!
