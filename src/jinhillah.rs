use rayon::prelude::{IndexedParallelIterator, IntoParallelRefIterator, ParallelIterator};
use vstd::prelude::*;
use vstd::arithmetic::div_mod::lemma_fundamental_div_mod_converse;

use crate::frame::{lemma_index_in_bounds, pixel_of, Bgra, Frame, Rect, RegularizedEqPixel};
use crate::matcher::Matcher;
use crate::view_ext::{grid_rects, view_bounds_like, view_eq, views_equal};

verus! {

/// First column of the health bar that is sampled.
pub const HP_X_START: u32 = 40;

/// Column after the last one sampled on rows 9 and 10; it is sampled on rows 8 and 9.
pub const HP_X_END: u32 = 796;

/// Number of samples along the bar.
pub const MAX_PIXELS: u32 = HP_X_END - HP_X_START + 1;

/// Width of the region that holds the health bar.
pub const HP_VIEW_WIDTH: u32 = 800;

/// Height of the region that holds the health bar.
pub const HP_VIEW_HEIGHT: u32 = 37;

/// What the health bar shows: the colour phase reached and where it changes.
#[derive(Clone, Copy, PartialEq, Eq, Structural, Debug)]
pub struct JinHillahHpMatchResult {
    pub level: usize,
    pub remaining_pixels: u32,
}

impl JinHillahHpMatchResult {
    /// Phase of the fight: level 0 counts as phase 1, levels 1 to 4 are their own phase.
    pub fn phase(&self) -> (p: u32)
        requires
            self.level <= 4,
        ensures
            p == (if self.level == 0 {
                1
            } else {
                self.level as u32
            }),
    {
        if self.level == 0 {
            1
        } else {
            self.level as u32
        }
    }
}

/// The (upper, lower) pixel pair of each of the four bar colours.
pub open spec fn hp_bar_color(i: int) -> (Bgra, Bgra) {
    if i == 0 {
        (Bgra { b: 102, g: 68, r: 204, a: 255 }, Bgra { b: 102, g: 68, r: 187, a: 255 })
    } else if i == 1 {
        (Bgra { b: 153, g: 102, r: 238, a: 255 }, Bgra { b: 153, g: 102, r: 221, a: 255 })
    } else if i == 2 {
        (Bgra { b: 34, g: 170, r: 170, a: 255 }, Bgra { b: 17, g: 153, r: 136, a: 255 })
    } else {
        (Bgra { b: 17, g: 119, r: 85, a: 255 }, Bgra { b: 17, g: 102, r: 68, a: 255 })
    }
}

/// Index of the first bar colour equal to `pair`, 4 where none is.
pub open spec fn color_index(pair: (Bgra, Bgra)) -> int {
    if pair == hp_bar_color(0) {
        0
    } else if pair == hp_bar_color(1) {
        1
    } else if pair == hp_bar_color(2) {
        2
    } else if pair == hp_bar_color(3) {
        3
    } else {
        4
    }
}

fn pair_is(pair: (Bgra, Bgra), i: usize) -> (r: bool)
    requires
        i < 4,
    ensures
        r == (pair == hp_bar_color(i as int)),
{
    let (top, bottom) = if i == 0 {
        (Bgra { b: 102, g: 68, r: 204, a: 255 }, Bgra { b: 102, g: 68, r: 187, a: 255 })
    } else if i == 1 {
        (Bgra { b: 153, g: 102, r: 238, a: 255 }, Bgra { b: 153, g: 102, r: 221, a: 255 })
    } else if i == 2 {
        (Bgra { b: 34, g: 170, r: 170, a: 255 }, Bgra { b: 17, g: 153, r: 136, a: 255 })
    } else {
        (Bgra { b: 17, g: 119, r: 85, a: 255 }, Bgra { b: 17, g: 102, r: 68, a: 255 })
    };
    pair.0 == top && pair.1 == bottom
}

pub fn find_color(pair: (Bgra, Bgra)) -> (r: usize)
    ensures
        r == color_index(pair),
{
    if pair_is(pair, 0) {
        0
    } else if pair_is(pair, 1) {
        1
    } else if pair_is(pair, 2) {
        2
    } else if pair_is(pair, 3) {
        3
    } else {
        4
    }
}

/// Colour index of sample `k` of the bar in region `r`.
pub open spec fn hp_sample(f: Frame, r: Rect, k: int) -> int {
    if k < (HP_X_END - HP_X_START) as int {
        color_index(
            (
                f.region_pixel(r, HP_X_START + k, 9),
                f.region_pixel(r, HP_X_START + k, 10),
            ),
        )
    } else {
        color_index((f.region_pixel(r, HP_X_END as int, 8), f.region_pixel(r, HP_X_END as int, 9)))
    }
}

/// Sample `k` differs from the one before it.
pub open spec fn hp_transition(f: Frame, r: Rect, k: int) -> bool {
    1 <= k < MAX_PIXELS && hp_sample(f, r, k) != hp_sample(f, r, k - 1)
}

/// The reading of the bar: rejected where the colour changes twice or more;
/// else the last colour, and the sample at which it starts (all samples if it never changes).
pub open spec fn hp_match_spec(f: Frame, r: Rect) -> Option<JinHillahHpMatchResult> {
    if exists|k1: int, k2: int|
        k1 < k2 && #[trigger] hp_transition(f, r, k1) && #[trigger] hp_transition(f, r, k2) {
        None
    } else {
        Some(
            JinHillahHpMatchResult {
                level: hp_sample(f, r, MAX_PIXELS - 1) as usize,
                remaining_pixels: if exists|k: int| hp_transition(f, r, k) {
                    (choose|k: int| hp_transition(f, r, k)) as u32
                } else {
                    MAX_PIXELS
                },
            },
        )
    }
}

/// Reads the boss health bar of a fixed-size region.
pub struct JinHillahHpMatcher {
    /// The icon drawn at offset (3, 3) of the bar's region.
    pub icon: Frame,
}

impl JinHillahHpMatcher {
    pub fn new(icon: Frame) -> (m: Self)
        requires
            icon.wf(),
            icon.width + 3 <= HP_VIEW_WIDTH,
            icon.height + 3 <= HP_VIEW_HEIGHT,
        ensures
            m.icon == icon,
    {
        JinHillahHpMatcher { icon }
    }

    /// Where the icon lies inside region `r`.
    pub open spec fn icon_rect(&self, r: Rect) -> Rect {
        Rect { x: (r.x + 3) as u32, y: (r.y + 3) as u32, w: self.icon.width, h: self.icon.height }
    }

    pub open spec fn icon_bounds(&self) -> Rect {
        Rect { x: 0, y: 0, w: self.icon.width, h: self.icon.height }
    }
}

impl Matcher for JinHillahHpMatcher {
    type MatchResult = JinHillahHpMatchResult;

    open spec fn inv(&self) -> bool {
        &&& self.icon.wf()
        &&& self.icon.width + 3 <= HP_VIEW_WIDTH
        &&& self.icon.height + 3 <= HP_VIEW_HEIGHT
    }

    open spec fn dims_spec(&self) -> (u32, u32) {
        (HP_VIEW_WIDTH, HP_VIEW_HEIGHT)
    }

    open spec fn frame_fits(&self, f: Frame) -> bool {
        &&& HP_VIEW_WIDTH <= f.width
        &&& HP_VIEW_HEIGHT <= f.height
    }

    open spec fn region_fits(&self, f: Frame, r: Rect) -> bool {
        &&& r.x + HP_VIEW_WIDTH <= f.width
        &&& r.y + HP_VIEW_HEIGHT <= f.height
    }

    open spec fn candidates_spec(&self, f: Frame) -> Seq<Rect> {
        grid_rects(Rect { x: 0, y: 0, w: f.width, h: HP_VIEW_HEIGHT }, HP_VIEW_WIDTH, HP_VIEW_HEIGHT, 1)
    }

    open spec fn check_spec(&self, f: Frame, r: Rect) -> bool {
        views_equal(f, self.icon_rect(r), self.icon, self.icon_bounds())
    }

    open spec fn match_spec(&self, f: Frame, r: Rect) -> Option<JinHillahHpMatchResult> {
        hp_match_spec(f, r)
    }

    open spec fn remember(&self, r: Rect, passed: bool) -> Self {
        *self
    }

    fn view_dimensions(&self) -> (d: (u32, u32)) {
        (HP_VIEW_WIDTH, HP_VIEW_HEIGHT)
    }

    fn fits_frame(&self, f: &Frame) -> (b: bool) {
        HP_VIEW_WIDTH <= f.width && HP_VIEW_HEIGHT <= f.height
    }

    fn fits_region(&self, f: &Frame, r: Rect) -> (b: bool) {
        r.x as u64 + HP_VIEW_WIDTH as u64 <= f.width as u64 && r.y as u64 + HP_VIEW_HEIGHT as u64
            <= f.height as u64
    }

    fn candidates_iter(&self, f: &Frame) -> (v: Vec<Rect>) {
        let bounds = Rect { x: 0, y: 0, w: f.width, h: HP_VIEW_HEIGHT };
        let v = view_bounds_like(bounds, (HP_VIEW_WIDTH, HP_VIEW_HEIGHT), 1);
        v
    }

    fn check(&mut self, f: &Frame, r: Rect) -> (b: bool) {
        let ir = Rect { x: r.x + 3, y: r.y + 3, w: self.icon.width, h: self.icon.height };
        let ib = Rect { x: 0, y: 0, w: self.icon.width, h: self.icon.height };
        view_eq(f, ir, &self.icon, ib)
    }

    fn match_image(&self, f: &Frame, r: Rect) -> (m: Option<JinHillahHpMatchResult>) {
        let mut last_idx: usize = 0;
        let mut changed: Option<u32> = None;
        let mut i: u32 = 0;
        while i < MAX_PIXELS
            invariant
                f.wf(),
                self.region_fits(*f, r),
                i <= MAX_PIXELS,
                i > 0 ==> last_idx == hp_sample(*f, r, i - 1),
                changed is None ==> forall|k: int| 1 <= k < i ==> !#[trigger] hp_transition(*f, r, k),
                changed matches Some(c) ==> {
                    &&& 1 <= c < i
                    &&& hp_transition(*f, r, c as int)
                    &&& forall|k: int|
                        1 <= k < i && k != c ==> !#[trigger] hp_transition(*f, r, k)
                },
            decreases MAX_PIXELS - i,
        {
            let pair = if i < HP_X_END - HP_X_START {
                (
                    f.get_pixel(r.x + HP_X_START + i, r.y + 9),
                    f.get_pixel(r.x + HP_X_START + i, r.y + 10),
                )
            } else {
                (f.get_pixel(r.x + HP_X_END, r.y + 8), f.get_pixel(r.x + HP_X_END, r.y + 9))
            };
            let idx = find_color(pair);
            assert(idx == hp_sample(*f, r, i as int));
            if i == 0 {
                last_idx = idx;
            } else if idx != last_idx {
                if let Some(c) = changed {
                    assert(c < i && hp_transition(*f, r, c as int) && hp_transition(
                        *f,
                        r,
                        i as int,
                    ));
                    return None;
                }
                changed = Some(i);
                last_idx = idx;
            }
            i = i + 1;
        }
        match changed {
            Some(c) => {
                assert(hp_transition(*f, r, c as int));
                Some(JinHillahHpMatchResult { level: last_idx, remaining_pixels: c })
            },
            None => Some(JinHillahHpMatchResult { level: last_idx, remaining_pixels: MAX_PIXELS }),
        }
    }
}

// ---------------------------------------------------------------- reap motions

/// One pose of the reap motion: the picture to compare with, and how many of its pixels are good.
pub struct ReapTemplate {
    pub image: Frame,
    pub good_pixels: usize,
}

/// Pixel `(x, y)` of the template made from `img`: the centre half of `img`, each pixel doubled.
pub open spec fn reap_source_pixel(img: Frame, x: int, y: int) -> Bgra {
    img.pixel(x / 2 + img.width / 4, y / 2 + img.height / 4)
}

/// Number of good pixels among the first `k` pixels of a byte sequence.
pub open spec fn good_count(s: Seq<u8>, k: int) -> int
    decreases k,
{
    if k <= 0 {
        0
    } else {
        good_count(s, k - 1) + if pixel_of(s, k - 1).is_good() {
            1int
        } else {
            0int
        }
    }
}

pub open spec fn template_wf(t: ReapTemplate) -> bool {
    &&& t.image.wf()
    &&& t.good_pixels == good_count(t.image.data@, t.image.width * t.image.height)
}

/// Builds a template from a picture of the motion: the centre half of the picture,
/// scaled up twice so that it keeps the picture's size.
pub fn reap_template(img: &Frame) -> (t: ReapTemplate)
    requires
        img.wf(),
    ensures
        template_wf(t),
        t.image.width == img.width,
        t.image.height == img.height,
        forall|x: int, y: int|
            t.image.contains(x, y) ==> #[trigger] t.image.pixel(x, y) == reap_source_pixel(
                *img,
                x,
                y,
            ),
{
    let _len: usize = img.data.len();
    let w = img.width;
    let h = img.height;
    let mut data: Vec<u8> = Vec::new();
    let mut y: u32 = 0;
    while y < h
        invariant
            img.wf(),
            w == img.width,
            h == img.height,
            4 * (w * h) <= usize::MAX,
            y <= h,
            data@.len() == 4 * (y * w),
            forall|x2: int, y2: int|
                0 <= x2 < w && 0 <= y2 < y ==> #[trigger] pixel_of(data@, y2 * w + x2)
                    == reap_source_pixel(*img, x2, y2),
        decreases h - y,
    {
        let mut x: u32 = 0;
        while x < w
            invariant
                img.wf(),
                w == img.width,
                h == img.height,
                4 * (w * h) <= usize::MAX,
                y < h,
                x <= w,
                data@.len() == 4 * (y * w + x),
                forall|x2: int, y2: int|
                    (0 <= x2 < w && 0 <= y2 < y) || (0 <= x2 < x && y2 == y) ==> #[trigger] pixel_of(
                        data@,
                        y2 * w + x2,
                    ) == reap_source_pixel(*img, x2, y2),
            decreases w - x,
        {
            proof {
                lemma_index_in_bounds(x as int, y as int, w as int, h as int);
            }
            let p = img.get_pixel(x / 2 + w / 4, y / 2 + h / 4);
            let ghost before = data@;
            data.push(p.b);
            data.push(p.g);
            data.push(p.r);
            data.push(p.a);
            proof {
                assert(data@ == before + seq![p.b, p.g, p.r, p.a]);
                assert forall|x2: int, y2: int|
                    (0 <= x2 < w && 0 <= y2 < y) || (0 <= x2 < x + 1 && y2 == y) implies #[trigger] pixel_of(
                    data@,
                    y2 * w + x2,
                ) == reap_source_pixel(*img, x2, y2) by {
                    lemma_index_in_bounds(x2, y2, w as int, h as int);
                    if !(x2 == x && y2 == y) {
                        assert(y2 * w + x2 < y * w + x) by (nonlinear_arith)
                            requires
                                (0 <= x2 < w && 0 <= y2 < y) || (0 <= x2 < x && y2 == y),
                                x < w,
                        ;
                        assert(pixel_of(before, y2 * w + x2) == reap_source_pixel(*img, x2, y2));
                    }
                }
            }
            x = x + 1;
        }
        proof {
            assert((y + 1) * w == y * w + w) by (nonlinear_arith);
        }
        y = y + 1;
    }
    assert(h * w == w * h) by (nonlinear_arith);
    let image = Frame { width: w, height: h, data };
    let n: usize = w as usize * h as usize;
    let mut good: usize = 0;
    let mut m: usize = 0;
    while m < n
        invariant
            image.wf(),
            image.width == w,
            image.height == h,
            n == w * h,
            4 * n <= usize::MAX,
            m <= n,
            good <= m,
            good == good_count(image.data@, m as int),
        decreases n - m,
    {
        let p = Bgra {
            b: image.data[4 * m],
            g: image.data[4 * m + 1],
            r: image.data[4 * m + 2],
            a: image.data[4 * m + 3],
        };
        assert(p == pixel_of(image.data@, m as int));
        if p.good_pixel() {
            good = good + 1;
        }
        m = m + 1;
    }
    ReapTemplate { image, good_pixels: good }
}

/// The template pixel counts against the match: it is good and the region differs there.
pub open spec fn is_bad(t: Frame, f: Frame, r: Rect, x: int, y: int) -> bool {
    t.pixel(x, y).is_good() && t.pixel(x, y) != f.region_pixel(r, x, y)
}

/// Bad pixels among the first `k` columns of row `y`.
pub open spec fn bad_in_row(t: Frame, f: Frame, r: Rect, y: int, k: int) -> int
    decreases k,
{
    if k <= 0 {
        0
    } else {
        bad_in_row(t, f, r, y, k - 1) + if is_bad(t, f, r, k - 1, y) {
            1int
        } else {
            0int
        }
    }
}

/// Bad pixels among the first `k` rows.
pub open spec fn bad_in_rows(t: Frame, f: Frame, r: Rect, k: int) -> int
    decreases k,
{
    if k <= 0 {
        0
    } else {
        bad_in_rows(t, f, r, k - 1) + bad_in_row(t, f, r, k - 1, t.width as int)
    }
}

/// Error budget of a template: 30% of its good pixels, rounded down.
pub open spec fn budget(t: ReapTemplate) -> int {
    (3 * t.good_pixels) / 10
}

/// The template matches the region: it has fewer bad pixels than its budget.
pub open spec fn template_fits(t: ReapTemplate, f: Frame, r: Rect) -> bool {
    bad_in_rows(t.image, f, r, t.image.height as int) < budget(t)
}

proof fn lemma_bad_in_row_monotone(t: Frame, f: Frame, r: Rect, y: int, k1: int, k2: int)
    requires
        0 <= k1 <= k2,
    ensures
        0 <= bad_in_row(t, f, r, y, k1) <= bad_in_row(t, f, r, y, k2),
    decreases k2,
{
    if k2 > k1 {
        lemma_bad_in_row_monotone(t, f, r, y, k1, k2 - 1);
    } else if k1 > 0 {
        lemma_bad_in_row_monotone(t, f, r, y, k1 - 1, k1 - 1);
    }
}

proof fn lemma_bad_in_rows_monotone(t: Frame, f: Frame, r: Rect, k1: int, k2: int)
    requires
        0 <= k1 <= k2,
    ensures
        0 <= bad_in_rows(t, f, r, k1) <= bad_in_rows(t, f, r, k2),
    decreases k2,
{
    if k2 > 0 {
        lemma_bad_in_row_monotone(t, f, r, k2 - 1, 0, t.width as int);
    }
    if k2 > k1 {
        lemma_bad_in_rows_monotone(t, f, r, k1, k2 - 1);
    } else if k1 > 0 {
        lemma_bad_in_rows_monotone(t, f, r, k1 - 1, k1 - 1);
    }
}

/// Tests one template against the region; stops counting once the budget is spent.
pub fn template_matches(t: &ReapTemplate, f: &Frame, r: Rect) -> (b: bool)
    requires
        template_wf(*t),
        f.wf(),
        r.x + t.image.width <= f.width,
        r.y + t.image.height <= f.height,
    ensures
        b == template_fits(*t, *f, r),
{
    let _len: usize = t.image.data.len();
    proof {
        assert(t.good_pixels <= usize::MAX);
    }
    let limit: u64 = (3 * (t.good_pixels as u128) / 10) as u64;
    if limit == 0 {
        proof {
            lemma_bad_in_rows_monotone(t.image, *f, r, 0, t.image.height as int);
        }
        return false;
    }
    let mut bad: u64 = 0;
    let mut y: u32 = 0;
    while y < t.image.height
        invariant
            template_wf(*t),
            f.wf(),
            r.x + t.image.width <= f.width,
            r.y + t.image.height <= f.height,
            limit == budget(*t),
            y <= t.image.height,
            bad == bad_in_rows(t.image, *f, r, y as int),
            bad < limit,
        decreases t.image.height - y,
    {
        let mut x: u32 = 0;
        while x < t.image.width
            invariant
                template_wf(*t),
                f.wf(),
                r.x + t.image.width <= f.width,
                r.y + t.image.height <= f.height,
                limit == budget(*t),
                y < t.image.height,
                x <= t.image.width,
                bad == bad_in_rows(t.image, *f, r, y as int) + bad_in_row(
                    t.image,
                    *f,
                    r,
                    y as int,
                    x as int,
                ),
                bad < limit,
            decreases t.image.width - x,
        {
            let q = t.image.get_pixel(x, y);
            let p = f.get_pixel(r.x + x, r.y + y);
            if q.good_pixel() && q != p {
                bad = bad + 1;
                if bad >= limit {
                    proof {
                        lemma_bad_in_row_monotone(
                            t.image,
                            *f,
                            r,
                            y as int,
                            x as int + 1,
                            t.image.width as int,
                        );
                        lemma_bad_in_rows_monotone(
                            t.image,
                            *f,
                            r,
                            y as int + 1,
                            t.image.height as int,
                        );
                    }
                    return false;
                }
            }
            x = x + 1;
        }
        y = y + 1;
    }
    true
}

/// `Some(i)` where template `t` matches the region, `None` where it does not.
pub fn fit_index(i: usize, t: &ReapTemplate, f: &Frame, r: Rect) -> (res: Option<usize>)
    requires
        template_wf(*t),
        f.wf(),
        r.x + t.image.width <= f.width,
        r.y + t.image.height <= f.height,
    ensures
        res == (if template_fits(*t, *f, r) {
            Some(i)
        } else {
            None
        }),
{
    if template_matches(t, f, r) {
        Some(i)
    } else {
        None
    }
}

/// Every template is well formed and has the size of the first one.
pub open spec fn motions_wf(ts: Seq<ReapTemplate>) -> bool {
    &&& 0 < ts.len() <= usize::MAX
    &&& forall|i: int|
        0 <= i < ts.len() ==> template_wf(#[trigger] ts[i]) && ts[i].image.width
            == ts[0].image.width && ts[i].image.height == ts[0].image.height
}

/// Relies on rayon's `find_map_first`: it returns the sequentially first non-`None`
/// value that the closure gives, and `None` where the closure gives `None` for every item.
#[verifier::external_body]
fn first_fitting(ts: &Vec<ReapTemplate>, f: &Frame, r: Rect) -> (res: Option<usize>)
    requires
        motions_wf(ts@),
        f.wf(),
        r.x + ts@[0].image.width <= f.width,
        r.y + ts@[0].image.height <= f.height,
    ensures
        res matches Some(i) ==> i < ts@.len() && template_fits(ts@[i as int], *f, r) && forall|
            j: int,
        | 0 <= j < i ==> !template_fits(#[trigger] ts@[j], *f, r),
        res is None ==> forall|j: int|
            0 <= j < ts@.len() ==> !template_fits(#[trigger] ts@[j], *f, r),
{
    ts.par_iter().enumerate().find_map_first(|(i, t)| fit_index(i, t, f, r))
}

/// The first template, in library order, that matches the region.
pub open spec fn reap_match_spec(ts: Seq<ReapTemplate>, f: Frame, r: Rect) -> Option<usize> {
    if exists|i: int| 0 <= i < ts.len() && #[trigger] template_fits(ts[i], f, r) {
        Some(
            (choose|i: int|
                0 <= i < ts.len() && template_fits(ts[i], f, r) && forall|j: int|
                    0 <= j < i ==> !#[trigger] template_fits(ts[j], f, r)) as usize,
        )
    } else {
        None
    }
}

/// Looks for one of the reap motions at the centre of a frame of a known size.
pub struct JinHillahReapMatcher {
    /// Width of the frames the matcher works on.
    pub width: u32,
    /// Height of the frames the matcher works on.
    pub height: u32,
    /// The motions, in library order.
    pub motions: Vec<ReapTemplate>,
}

/// How far, in pixels, candidates are moved from the centre in each direction.
pub const REAP_RANGE: u32 = 2;

impl JinHillahReapMatcher {
    pub fn new(width: u32, height: u32, motions: Vec<ReapTemplate>) -> (m: Self)
        requires
            motions_wf(motions@),
            motions@[0].image.width == width / 2,
            motions@[0].image.height == height / 2,
            motions@[0].image.width + 2 * REAP_RANGE <= width,
            motions@[0].image.height + 2 * REAP_RANGE <= height,
        ensures
            m.width == width,
            m.height == height,
            m.motions@ == motions@,
    {
        JinHillahReapMatcher { width, height, motions }
    }

    pub open spec fn motion_dims(&self) -> (u32, u32) {
        (self.motions@[0].image.width, self.motions@[0].image.height)
    }

    /// The region of the motions' size at the centre of a frame, moved by `(dx, dy)`.
    pub open spec fn centred(&self, f: Frame, dx: int, dy: int) -> Rect {
        Rect {
            x: ((f.width - self.motion_dims().0) / 2 + dx) as u32,
            y: ((f.height - self.motion_dims().1) / 2 + dy) as u32,
            w: self.motion_dims().0,
            h: self.motion_dims().1,
        }
    }
}

impl Matcher for JinHillahReapMatcher {
    type MatchResult = usize;

    open spec fn inv(&self) -> bool {
        &&& motions_wf(self.motions@)
        &&& self.motion_dims() == self.dims_spec()
        &&& self.motion_dims().0 + 2 * REAP_RANGE <= self.width
        &&& self.motion_dims().1 + 2 * REAP_RANGE <= self.height
    }

    open spec fn dims_spec(&self) -> (u32, u32) {
        (self.width / 2, self.height / 2)
    }

    open spec fn frame_fits(&self, f: Frame) -> bool {
        true
    }

    open spec fn region_fits(&self, f: Frame, r: Rect) -> bool {
        r.x + self.motion_dims().0 <= f.width && r.y + self.motion_dims().1 <= f.height
    }

    open spec fn candidates_spec(&self, f: Frame) -> Seq<Rect> {
        if f.width == self.width && f.height == self.height {
            Seq::new(25, |k: int| self.centred(f, k / 5 - 2, k % 5 - 2))
        } else {
            seq![]
        }
    }

    open spec fn check_spec(&self, f: Frame, r: Rect) -> bool {
        reap_match_spec(self.motions@, f, r) is Some
    }

    open spec fn match_spec(&self, f: Frame, r: Rect) -> Option<usize> {
        reap_match_spec(self.motions@, f, r)
    }

    open spec fn remember(&self, r: Rect, passed: bool) -> Self {
        *self
    }

    fn view_dimensions(&self) -> (d: (u32, u32)) {
        (self.width / 2, self.height / 2)
    }

    fn fits_frame(&self, f: &Frame) -> (b: bool) {
        true
    }

    fn fits_region(&self, f: &Frame, r: Rect) -> (b: bool) {
        r.x as u64 + self.motions[0].image.width as u64 <= f.width as u64 && r.y as u64
            + self.motions[0].image.height as u64 <= f.height as u64
    }

    fn candidates_iter(&self, f: &Frame) -> (v: Vec<Rect>) {
        let mut v: Vec<Rect> = Vec::new();
        if f.width != self.width || f.height != self.height {
            assert(v@ =~= self.candidates_spec(*f));
            return v;
        }
        let tw = self.motions[0].image.width;
        let th = self.motions[0].image.height;
        let cx = (f.width - tw) / 2;
        let cy = (f.height - th) / 2;
        let ghost g = self.candidates_spec(*f);
        let mut a: u32 = 0;
        while a < 5
            invariant
                self.inv(),
                f.width == self.width,
                f.height == self.height,
                tw == self.motion_dims().0,
                th == self.motion_dims().1,
                cx == (f.width - tw) / 2,
                cy == (f.height - th) / 2,
                g == self.candidates_spec(*f),
                a <= 5,
                v@.len() == 5 * a,
                forall|k: int| 0 <= k < v@.len() ==> #[trigger] v@[k] == g[k],
            decreases 5 - a,
        {
            let mut c: u32 = 0;
            while c < 5
                invariant
                    self.inv(),
                    f.width == self.width,
                    f.height == self.height,
                    tw == self.motion_dims().0,
                    th == self.motion_dims().1,
                    cx == (f.width - tw) / 2,
                    cy == (f.height - th) / 2,
                    g == self.candidates_spec(*f),
                    a < 5,
                    c <= 5,
                    v@.len() == 5 * a + c,
                    forall|k: int| 0 <= k < v@.len() ==> #[trigger] v@[k] == g[k],
                decreases 5 - c,
            {
                proof {
                    lemma_fundamental_div_mod_converse(5 * a + c, 5, a as int, c as int);
                }
                v.push(Rect { x: cx + a - 2, y: cy + c - 2, w: tw, h: th });
                c = c + 1;
            }
            a = a + 1;
        }
        assert(v@ =~= g);
        assert forall|k: int| 0 <= k < v@.len() implies self.region_fits(*f, #[trigger] v@[k]) by {
            assert(0 <= k / 5 < 5);
            assert(0 <= k % 5 < 5);
        }
        v
    }

    fn check(&mut self, f: &Frame, r: Rect) -> (b: bool) {
        self.match_image(f, r).is_some()
    }

    fn match_image(&self, f: &Frame, r: Rect) -> (m: Option<usize>) {
        let res = first_fitting(&self.motions, f, r);
        proof {
            let ts = self.motions@;
            match res {
                Some(i) => {
                    let p = |i2: int|
                        0 <= i2 < ts.len() && template_fits(ts[i2], *f, r) && forall|j: int|
                            0 <= j < i2 ==> !#[trigger] template_fits(ts[j], *f, r);
                    assert(p(i as int));
                    let c = choose|i2: int|
                        0 <= i2 < ts.len() && template_fits(ts[i2], *f, r) && forall|j: int|
                            0 <= j < i2 ==> !#[trigger] template_fits(ts[j], *f, r);
                    assert(p(c));
                    if c < i {
                        assert(!template_fits(ts[c], *f, r));
                    }
                    if i < c {
                        assert(!template_fits(ts[i as int], *f, r));
                    }
                },
                None => {},
            }
        }
        res
    }
}

// ---------------------------------------------------------------- laws

/// A bar that shows colour `a` up to sample `t` and colour `b` from there on reads
/// as colour `b`, changing at `t`.
pub proof fn lemma_hp_one_change(f: Frame, r: Rect, t: int, a: int, b: int)
    requires
        1 <= t < MAX_PIXELS,
        a != b,
        forall|k: int| 0 <= k < t ==> #[trigger] hp_sample(f, r, k) == a,
        forall|k: int| t <= k < MAX_PIXELS ==> #[trigger] hp_sample(f, r, k) == b,
    ensures
        hp_match_spec(f, r) == Some(
            JinHillahHpMatchResult { level: b as usize, remaining_pixels: t as u32 },
        ),
{
    assert(hp_sample(f, r, t - 1) == a);
    assert(hp_transition(f, r, t));
    assert forall|k: int| #[trigger] hp_transition(f, r, k) implies k == t by {
        if k < t {
            assert(hp_sample(f, r, k) == a && hp_sample(f, r, k - 1) == a);
        } else if k > t {
            assert(hp_sample(f, r, k) == b && hp_sample(f, r, k - 1) == b);
        }
    }
    assert(hp_sample(f, r, MAX_PIXELS - 1) == b);
}

/// A bar whose colour changes twice is rejected.
pub proof fn lemma_hp_two_changes(f: Frame, r: Rect, k1: int, k2: int)
    requires
        k1 < k2,
        hp_transition(f, r, k1),
        hp_transition(f, r, k2),
    ensures
        hp_match_spec(f, r) is None,
{
}

/// A reading of the bar always has a level of at most 4, so its phase is defined.
pub proof fn lemma_hp_level_bounded(f: Frame, r: Rect)
    ensures
        hp_match_spec(f, r) matches Some(res) ==> res.level <= 4,
{
}

/// The health bar's candidates depend on the frame's size alone, and a check leaves them as they were.
pub proof fn lemma_hp_candidates_restartable(
    m: JinHillahHpMatcher,
    f1: Frame,
    f2: Frame,
    r: Rect,
    passed: bool,
)
    requires
        f1.width == f2.width,
        f1.height == f2.height,
    ensures
        m.candidates_spec(f1) == m.candidates_spec(f2),
        m.remember(r, passed).candidates_spec(f1) == m.candidates_spec(f1),
{
}

/// The health bar is searched by a sweep of stride one along the top of the frame:
/// one region of 800 x 37 for each column where it fits, left to right.
pub proof fn lemma_hp_candidates_sweep(m: JinHillahHpMatcher, f: Frame)
    requires
        m.frame_fits(f),
    ensures
        m.candidates_spec(f).len() == f.width - (HP_VIEW_WIDTH - 1),
        forall|k: int|
            0 <= k < m.candidates_spec(f).len() ==> #[trigger] m.candidates_spec(f)[k] == (Rect {
                x: k as u32,
                y: 0,
                w: HP_VIEW_WIDTH,
                h: HP_VIEW_HEIGHT,
            }),
{
    let n = f.width - HP_VIEW_WIDTH;
    assert(n / 1 == n && 0int / 1 == 0 && (n + 1) * 1 == n + 1);
    assert forall|k: int| 0 <= k < m.candidates_spec(f).len() implies #[trigger] m.candidates_spec(
        f,
    )[k] == (Rect { x: k as u32, y: 0, w: HP_VIEW_WIDTH, h: HP_VIEW_HEIGHT }) by {
        assert(k / 1 == k && k % 1 == 0);
    }
}

/// The reap candidates depend on the frame's size alone, and a check leaves them as they were.
pub proof fn lemma_reap_candidates_restartable(
    m: JinHillahReapMatcher,
    f1: Frame,
    f2: Frame,
    r: Rect,
    passed: bool,
)
    requires
        f1.width == f2.width,
        f1.height == f2.height,
    ensures
        m.candidates_spec(f1) == m.candidates_spec(f2),
        m.remember(r, passed).candidates_spec(f1) == m.candidates_spec(f1),
{
}

proof fn lemma_no_bad_in_row(t: Frame, f: Frame, r: Rect, y: int, k: int)
    requires
        forall|i: int, j: int|
            0 <= i < t.width && 0 <= j < t.height ==> #[trigger] f.region_pixel(r, i, j)
                == t.pixel(i, j),
        0 <= y < t.height,
        k <= t.width,
    ensures
        bad_in_row(t, f, r, y, k) == 0,
    decreases k,
{
    if k > 0 {
        assert(f.region_pixel(r, k - 1, y) == t.pixel(k - 1, y));
        lemma_no_bad_in_row(t, f, r, y, k - 1);
    }
}

proof fn lemma_no_bad_in_rows(t: Frame, f: Frame, r: Rect, k: int)
    requires
        forall|i: int, j: int|
            0 <= i < t.width && 0 <= j < t.height ==> #[trigger] f.region_pixel(r, i, j)
                == t.pixel(i, j),
        k <= t.height,
    ensures
        bad_in_rows(t, f, r, k) == 0,
    decreases k,
{
    if k > 0 {
        lemma_no_bad_in_row(t, f, r, k - 1, t.width as int);
        lemma_no_bad_in_rows(t, f, r, k - 1);
    }
}

/// A region that holds exactly the pixels of motion `i` matches a motion no later
/// than `i` in the library, and `i` itself where no earlier motion matches. This needs a budget of at
/// least one pixel, that is, four good pixels or more in the motion.
pub proof fn lemma_reap_finds_itself(m: JinHillahReapMatcher, f: Frame, r: Rect, i: int)
    requires
        m.inv(),
        0 <= i < m.motions@.len(),
        budget(m.motions@[i]) >= 1,
        r.w == m.motion_dims().0 && r.h == m.motion_dims().1,
        views_equal(
            f,
            r,
            m.motions@[i].image,
            Rect { x: 0, y: 0, w: m.motion_dims().0, h: m.motion_dims().1 },
        ),
    ensures
        m.match_spec(f, r) matches Some(j) && j <= i && template_fits(
            m.motions@[j as int],
            f,
            r,
        ),
        (forall|j: int| 0 <= j < i ==> !#[trigger] template_fits(m.motions@[j], f, r)) ==> m.match_spec(
            f,
            r,
        ) == Some(i as usize),
{
    let t = m.motions@[i].image;
    assert forall|x: int, y: int| 0 <= x < t.width && 0 <= y < t.height implies #[trigger] f.region_pixel(
        r,
        x,
        y,
    ) == t.pixel(x, y) by {
        assert(f.region_pixel(r, x, y) == t.region_pixel(
            Rect { x: 0, y: 0, w: m.motion_dims().0, h: m.motion_dims().1 },
            x,
            y,
        ));
    }
    lemma_no_bad_in_rows(t, f, r, t.height as int);
    assert(m.motions@.len() <= usize::MAX);
    lemma_first_fit(m.motions@, f, r, i);
}

/// The candidate in the middle of the reap neighbourhood is the centred region.
pub proof fn lemma_reap_centre_candidate(m: JinHillahReapMatcher, f: Frame)
    requires
        f.width == m.width,
        f.height == m.height,
    ensures
        m.candidates_spec(f).len() == 25,
        m.candidates_spec(f)[12] == m.centred(f, 0, 0),
{
    assert(12int / 5 == 2 && 12int % 5 == 2);
}

proof fn lemma_first_fit(ts: Seq<ReapTemplate>, f: Frame, r: Rect, i: int)
    requires
        0 <= i < ts.len() <= usize::MAX,
        template_fits(ts[i], f, r),
    ensures
        reap_match_spec(ts, f, r) matches Some(j) && j <= i && template_fits(ts[j as int], f, r),
        (forall|j: int| 0 <= j < i ==> !#[trigger] template_fits(ts[j], f, r)) ==> reap_match_spec(
            ts,
            f,
            r,
        ) == Some(i as usize),
{
    lemma_first_fit_exists(ts, f, r, i);
    let c = choose|i2: int|
        0 <= i2 < ts.len() && template_fits(ts[i2], f, r) && forall|j: int|
            0 <= j < i2 ==> !#[trigger] template_fits(ts[j], f, r);
    if c > i {
        assert(!template_fits(ts[i], f, r));
    }
    if forall|j: int| 0 <= j < i ==> !#[trigger] template_fits(ts[j], f, r) {
        if c < i {
            assert(!template_fits(ts[c], f, r));
        }
    }
}

proof fn lemma_first_fit_exists(ts: Seq<ReapTemplate>, f: Frame, r: Rect, i: int)
    requires
        0 <= i < ts.len(),
        template_fits(ts[i], f, r),
    ensures
        exists|i2: int|
            0 <= i2 < ts.len() && template_fits(ts[i2], f, r) && forall|j: int|
                0 <= j < i2 ==> !#[trigger] template_fits(ts[j], f, r),
    decreases i,
{
    if exists|j: int| 0 <= j < i && #[trigger] template_fits(ts[j], f, r) {
        let j = choose|j: int| 0 <= j < i && #[trigger] template_fits(ts[j], f, r);
        lemma_first_fit_exists(ts, f, r, j);
    } else {
        assert(0 <= i < ts.len() && template_fits(ts[i], f, r) && forall|j: int|
            0 <= j < i ==> !#[trigger] template_fits(ts[j], f, r));
    }
}

} // verus!
