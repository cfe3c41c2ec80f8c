use vstd::prelude::*;
use vstd::arithmetic::div_mod::{lemma_fundamental_div_mod, lemma_mod_pos_bound};

use crate::frame::{pixel_of, Bgra, Frame, Rect};
use crate::matcher::Matcher;
use crate::view_ext::{grid_rects, view_bounds_like};

verus! {

/// Side of the buff icon, in pixels.
pub const BUFF_ICON_SIZE: u32 = 32;

/// Largest channel value of a pixel that counts as black on the icon's outline.
pub const BLACK_LIMIT: u8 = 50;

/// Thresholds are given in thousandths: 1000 stands for a correlation of 1.
pub const THRESHOLD_SCALE: i32 = 1000;

// ---------------------------------------------------------------- outline

/// Positions, in row-major order, of the opaque pixels among the first `m` pixels of `f`.
pub open spec fn opaque_prefix(f: Frame, m: int) -> Seq<(u32, u32)>
    decreases m,
{
    if m <= 0 {
        seq![]
    } else {
        let s = opaque_prefix(f, m - 1);
        if pixel_of(f.data@, m - 1).a == 255 {
            s.push((((m - 1) % f.width as int) as u32, ((m - 1) / f.width as int) as u32))
        } else {
            s
        }
    }
}

/// Positions of the fully opaque pixels of `f`, in row-major order.
pub open spec fn opaque_positions(f: Frame) -> Seq<(u32, u32)> {
    opaque_prefix(f, f.width * f.height)
}

proof fn lemma_position_of(m: int, w: int, h: int)
    requires
        0 <= m < w * h,
        0 <= w,
        0 <= h,
    ensures
        0 < w,
        0 <= m % w < w,
        0 <= m / w < h,
        m == (m / w) * w + m % w,
{
    if w == 0 {
        assert(w * h == 0);
    }
    lemma_fundamental_div_mod(m, w);
    lemma_mod_pos_bound(m, w);
    assert(0 <= m / w < h) by (nonlinear_arith)
        requires
            0 <= m < w * h,
            0 < w,
            m == w * (m / w) + m % w,
            0 <= m % w < w,
    ;
    assert((m / w) * w == w * (m / w)) by (nonlinear_arith);
}

/// The outline used by the buff matcher's quick test: every fully opaque pixel of `edge_image`.
pub fn buff_edges(edge_image: &Frame) -> (v: Vec<(u32, u32)>)
    requires
        edge_image.wf(),
    ensures
        v@ == opaque_positions(*edge_image),
        forall|k: int|
            0 <= k < v@.len() ==> (#[trigger] v@[k]).0 < edge_image.width && v@[k].1
                < edge_image.height,
{
    let _len: usize = edge_image.data.len();
    let n: usize = edge_image.width as usize * edge_image.height as usize;
    let mut v: Vec<(u32, u32)> = Vec::new();
    let mut m: usize = 0;
    while m < n
        invariant
            edge_image.wf(),
            n == edge_image.width * edge_image.height,
            4 * n <= usize::MAX,
            m <= n,
            v@ == opaque_prefix(*edge_image, m as int),
            forall|k: int|
                0 <= k < v@.len() ==> (#[trigger] v@[k]).0 < edge_image.width && v@[k].1
                    < edge_image.height,
        decreases n - m,
    {
        if edge_image.data[4 * m + 3] == 255 {
            proof {
                lemma_position_of(m as int, edge_image.width as int, edge_image.height as int);
            }
            let x: u32 = (m % edge_image.width as usize) as u32;
            let y: u32 = (m / edge_image.width as usize) as u32;
            v.push((x, y));
        }
        m = m + 1;
    }
    v
}

/// Pixel of the outline test: near black on every colour channel, and fully opaque.
pub open spec fn is_dark(p: Bgra) -> bool {
    p.b <= BLACK_LIMIT && p.g <= BLACK_LIMIT && p.r <= BLACK_LIMIT && p.a == 255
}

/// How many of the first `k` outline positions are not dark in region `r`.
pub open spec fn edge_failures(f: Frame, r: Rect, edges: Seq<(u32, u32)>, k: int) -> int
    decreases k,
{
    if k <= 0 {
        0
    } else {
        edge_failures(f, r, edges, k - 1) + if is_dark(
            f.region_pixel(r, edges[k - 1].0 as int, edges[k - 1].1 as int),
        ) {
            0int
        } else {
            1int
        }
    }
}

/// The outline test passes unless more than a third of the outline positions fail.
pub open spec fn edges_pass(f: Frame, r: Rect, edges: Seq<(u32, u32)>) -> bool {
    3 * edge_failures(f, r, edges, edges.len() as int) <= edges.len()
}

// ---------------------------------------------------------------- correlation

/// Channel `c` of a pixel: 0 blue, 1 green, 2 red.
pub open spec fn chan(p: Bgra, c: int) -> int {
    if c == 0 {
        p.b as int
    } else if c == 1 {
        p.g as int
    } else {
        p.r as int
    }
}

/// Sums over the opaque icon columns `x < k` of row `y`, on channel `c`:
/// count, sum of icon values, sum of region values, their sums of squares, sum of products.
pub open spec fn row_stats(icon: Frame, f: Frame, r: Rect, y: int, c: int, k: int) -> (
    int,
    int,
    int,
    int,
    int,
    int,
)
    decreases k,
{
    if k <= 0 {
        (0, 0, 0, 0, 0, 0)
    } else {
        let s = row_stats(icon, f, r, y, c, k - 1);
        let p = icon.pixel(k - 1, y);
        if p.a == 255 {
            let a = chan(p, c);
            let b = chan(f.region_pixel(r, k - 1, y), c);
            (s.0 + 1, s.1 + a, s.2 + b, s.3 + a * a, s.4 + b * b, s.5 + a * b)
        } else {
            s
        }
    }
}

/// The normalized cross-correlation of the two value lists summed up in `st` is at
/// least `t / 1000`. With `n` values, `cov = n*Σxy - Σx*Σy`, `vx = n*Σx² - (Σx)²`,
/// `vy = n*Σy² - (Σy)²`, the correlation is `cov / sqrt(vx * vy)`; the test is stated
/// without division or root. Where a list is constant the correlation counts as 0;
/// a row without values is never rejected.
pub open spec fn ncc_at_least(st: (int, int, int, int, int, int), t: int) -> bool {
    let n = st.0;
    let cov = n * st.5 - st.1 * st.2;
    let vx = n * st.3 - st.1 * st.1;
    let vy = n * st.4 - st.2 * st.2;
    if n == 0 {
        true
    } else if vx * vy == 0 {
        t <= 0
    } else if t >= 0 {
        cov >= 0 && 1000000 * (cov * cov) >= (t * t) * (vx * vy)
    } else {
        cov >= 0 || 1000000 * (cov * cov) <= (t * t) * (vx * vy)
    }
}

/// Row `y` correlates on all three colour channels.
pub open spec fn row_passes(icon: Frame, f: Frame, r: Rect, y: int, t: int) -> bool {
    &&& ncc_at_least(row_stats(icon, f, r, y, 0, icon.width as int), t)
    &&& ncc_at_least(row_stats(icon, f, r, y, 1, icon.width as int), t)
    &&& ncc_at_least(row_stats(icon, f, r, y, 2, icon.width as int), t)
}

/// How many of the first `k` rows fail.
pub open spec fn failed_rows(icon: Frame, f: Frame, r: Rect, t: int, k: int) -> int
    decreases k,
{
    if k <= 0 {
        0
    } else {
        failed_rows(icon, f, r, t, k - 1) + if row_passes(icon, f, r, k - 1, t) {
            0int
        } else {
            1int
        }
    }
}

/// The icon is present unless more than a third of its rows fail.
pub open spec fn buff_match_spec(icon: Frame, f: Frame, r: Rect, t: int) -> Option<()> {
    if 3 * failed_rows(icon, f, r, t, icon.height as int) > icon.height {
        None
    } else {
        Some(())
    }
}

proof fn lemma_product_bound(a: int, b: int, ma: int, mb: int)
    requires
        0 <= a <= ma,
        0 <= b <= mb,
    ensures
        0 <= a * b <= ma * mb,
{
    assert(0 <= a * b <= ma * mb) by (nonlinear_arith)
        requires
            0 <= a <= ma,
            0 <= b <= mb,
    ;
}

/// Decides `ncc_at_least` on sums of at most 32 values of at most 255.
fn ncc_passes(st: (u64, u64, u64, u64, u64, u64), t: i32) -> (b: bool)
    requires
        st.0 <= 32,
        st.1 <= 255 * 32,
        st.2 <= 255 * 32,
        st.3 <= 65025 * 32,
        st.4 <= 65025 * 32,
        st.5 <= 65025 * 32,
    ensures
        b == ncc_at_least(
            (st.0 as int, st.1 as int, st.2 as int, st.3 as int, st.4 as int, st.5 as int),
            t as int,
        ),
{
    let n = st.0 as i128;
    let sx = st.1 as i128;
    let sy = st.2 as i128;
    let sxx = st.3 as i128;
    let syy = st.4 as i128;
    let sxy = st.5 as i128;
    proof {
        lemma_product_bound(n as int, sxy as int, 32int, 65025int * 32);
        lemma_product_bound(sx as int, sy as int, 255int * 32, 255int * 32);
        lemma_product_bound(n as int, sxx as int, 32int, 65025int * 32);
        lemma_product_bound(sx as int, sx as int, 255int * 32, 255int * 32);
        lemma_product_bound(n as int, syy as int, 32int, 65025int * 32);
        lemma_product_bound(sy as int, sy as int, 255int * 32, 255int * 32);
    }
    let cov = n * sxy - sx * sy;
    let vx = n * sxx - sx * sx;
    let vy = n * syy - sy * sy;
    if n == 0 {
        return true;
    }
    proof {
        let ac = if cov >= 0 {
            cov as int
        } else {
            -cov
        };
        let avx = if vx >= 0 {
            vx as int
        } else {
            -vx
        };
        let avy = if vy >= 0 {
            vy as int
        } else {
            -vy
        };
        assert(-66585600 <= cov <= 66585600);
        assert(-66585600 <= vx <= 66585600);
        assert(-66585600 <= vy <= 66585600);
        lemma_product_bound(ac, ac, 66585600int, 66585600int);
        lemma_product_bound(avx, avy, 66585600int, 66585600int);
        assert(cov * cov == ac * ac) by (nonlinear_arith)
            requires
                ac == cov || ac == -cov,
        ;
        assert(vx * vy == avx * avy || vx * vy == -(avx * avy)) by (nonlinear_arith)
            requires
                avx == vx || avx == -vx,
                avy == vy || avy == -vy,
        ;
    }
    let vv = vx * vy;
    if vv == 0 {
        return t <= 0;
    }
    proof {
        lemma_product_bound(
            if t >= 0 { t as int } else { -t },
            if t >= 0 { t as int } else { -t },
            0x8000_0000int,
            0x8000_0000int,
        );
        assert(t * t == (if t >= 0 { t as int } else { -t }) * (if t >= 0 { t as int } else { -t }))
            by (nonlinear_arith);
    }
    let tt = (t as i128) * (t as i128);
    proof {
        let at = if t >= 0 {
            t as int
        } else {
            -t
        };
        assert(tt == at * at) by (nonlinear_arith)
            requires
                at == t || at == -t,
                tt == t * t,
        ;
        lemma_product_bound(at, at, 0x8000_0000int, 0x8000_0000int);
        let avv = if vv >= 0 {
            vv as int
        } else {
            -vv
        };
        lemma_product_bound(tt as int, avv, 0x8000_0000int * 0x8000_0000, 66585600int * 66585600);
        assert(tt * vv == tt * avv || tt * vv == -(tt * avv)) by (nonlinear_arith)
            requires
                avv == vv || avv == -vv,
        ;
    }
    let lhs = 1000000 * (cov * cov);
    let rhs = tt * vv;
    if t >= 0 {
        cov >= 0 && lhs >= rhs
    } else {
        cov >= 0 || lhs <= rhs
    }
}

// ---------------------------------------------------------------- matcher

/// Finds a 32 x 32 buff icon on a grid in two horizontal bands of the frame.
pub struct BuffMatcher {
    /// The reference icon.
    pub icon: Frame,
    /// Positions of the icon's outline, relative to the icon's corner.
    pub edges: Vec<(u32, u32)>,
    /// Smallest accepted correlation of a row, in thousandths.
    pub threshold: i32,
    /// The frame size the matcher was set up for.
    pub dims: (u32, u32),
}

/// First column of the candidate grid: the grid is aligned to the frame's right side.
pub open spec fn grid_x0(width: int) -> int {
    (width - 3) % (BUFF_ICON_SIZE as int)
}

/// The band of the frame, starting at row `top`, that the grid covers.
pub open spec fn band(width: int, height: int, top: int) -> Rect {
    Rect {
        x: grid_x0(width) as u32,
        y: top as u32,
        w: (width - grid_x0(width)) as u32,
        h: (if height - top < 400 {
            height - top
        } else {
            400
        }) as u32,
    }
}

proof fn lemma_band_width(width: int)
    requires
        width >= 35,
    ensures
        0 <= grid_x0(width) < 32,
        width - grid_x0(width) >= 32,
{
    lemma_fundamental_div_mod(width - 3, 32);
    lemma_mod_pos_bound(width - 3, 32);
}

impl BuffMatcher {
    pub fn new(icon: Frame, edges: Vec<(u32, u32)>, threshold: i32, dims: (u32, u32)) -> (m: Self)
        requires
            icon.wf(),
            icon.width == BUFF_ICON_SIZE,
            icon.height == BUFF_ICON_SIZE,
            threshold <= THRESHOLD_SCALE,
            forall|k: int|
                0 <= k < edges@.len() ==> (#[trigger] edges@[k]).0 < BUFF_ICON_SIZE && edges@[k].1
                    < BUFF_ICON_SIZE,
        ensures
            m.icon == icon,
            m.edges@ == edges@,
            m.threshold == threshold,
            m.dims == dims,
    {
        BuffMatcher { icon, edges, threshold, dims }
    }

    fn channel_stats(&self, f: &Frame, r: Rect, y: u32, c: u8) -> (st: (
        u64,
        u64,
        u64,
        u64,
        u64,
        u64,
    ))
        requires
            self.inv(),
            f.wf(),
            self.region_fits(*f, r),
            y < BUFF_ICON_SIZE,
            c < 3,
        ensures
            st.0 <= 32,
            st.1 <= 255 * 32,
            st.2 <= 255 * 32,
            st.3 <= 65025 * 32,
            st.4 <= 65025 * 32,
            st.5 <= 65025 * 32,
            (st.0 as int, st.1 as int, st.2 as int, st.3 as int, st.4 as int, st.5 as int)
                == row_stats(self.icon, *f, r, y as int, c as int, BUFF_ICON_SIZE as int),
    {
        let mut st: (u64, u64, u64, u64, u64, u64) = (0, 0, 0, 0, 0, 0);
        let mut x: u32 = 0;
        while x < BUFF_ICON_SIZE
            invariant
                self.inv(),
                f.wf(),
                self.region_fits(*f, r),
                y < BUFF_ICON_SIZE,
                c < 3,
                x <= BUFF_ICON_SIZE,
                st.0 <= x,
                st.1 <= 255 * x,
                st.2 <= 255 * x,
                st.3 <= 65025 * x,
                st.4 <= 65025 * x,
                st.5 <= 65025 * x,
                (st.0 as int, st.1 as int, st.2 as int, st.3 as int, st.4 as int, st.5 as int)
                    == row_stats(self.icon, *f, r, y as int, c as int, x as int),
            decreases BUFF_ICON_SIZE - x,
        {
            let p = self.icon.get_pixel(x, y);
            if p.a == 255 {
                let q = f.get_pixel(r.x + x, r.y + y);
                let a: u64 = if c == 0 {
                    p.b as u64
                } else if c == 1 {
                    p.g as u64
                } else {
                    p.r as u64
                };
                let b: u64 = if c == 0 {
                    q.b as u64
                } else if c == 1 {
                    q.g as u64
                } else {
                    q.r as u64
                };
                proof {
                    lemma_product_bound(a as int, a as int, 255int, 255int);
                    lemma_product_bound(b as int, b as int, 255int, 255int);
                    lemma_product_bound(a as int, b as int, 255int, 255int);
                }
                st = (st.0 + 1, st.1 + a, st.2 + b, st.3 + a * a, st.4 + b * b, st.5 + a * b);
            }
            x = x + 1;
        }
        st
    }

    fn row_ok(&self, f: &Frame, r: Rect, y: u32) -> (b: bool)
        requires
            self.inv(),
            f.wf(),
            self.region_fits(*f, r),
            y < BUFF_ICON_SIZE,
        ensures
            b == row_passes(self.icon, *f, r, y as int, self.threshold as int),
    {
        let s0 = self.channel_stats(f, r, y, 0);
        let s1 = self.channel_stats(f, r, y, 1);
        let s2 = self.channel_stats(f, r, y, 2);
        ncc_passes(s0, self.threshold) && ncc_passes(s1, self.threshold) && ncc_passes(
            s2,
            self.threshold,
        )
    }
}

impl Matcher for BuffMatcher {
    type MatchResult = ();

    open spec fn inv(&self) -> bool {
        &&& self.icon.wf()
        &&& self.icon.width == BUFF_ICON_SIZE
        &&& self.icon.height == BUFF_ICON_SIZE
        &&& self.threshold <= THRESHOLD_SCALE
        &&& forall|k: int|
            0 <= k < self.edges@.len() ==> (#[trigger] self.edges@[k]).0 < BUFF_ICON_SIZE
                && self.edges@[k].1 < BUFF_ICON_SIZE
    }

    open spec fn dims_spec(&self) -> (u32, u32) {
        self.dims
    }

    open spec fn frame_fits(&self, f: Frame) -> bool {
        f.width >= 35 && f.height >= 81 + BUFF_ICON_SIZE
    }

    open spec fn region_fits(&self, f: Frame, r: Rect) -> bool {
        r.x + BUFF_ICON_SIZE <= f.width && r.y + BUFF_ICON_SIZE <= f.height
    }

    open spec fn candidates_spec(&self, f: Frame) -> Seq<Rect> {
        grid_rects(band(f.width as int, f.height as int, 3), 32, 32, 32) + grid_rects(
            band(f.width as int, f.height as int, 81),
            32,
            32,
            32,
        )
    }

    open spec fn check_spec(&self, f: Frame, r: Rect) -> bool {
        edges_pass(f, r, self.edges@)
    }

    open spec fn match_spec(&self, f: Frame, r: Rect) -> Option<()> {
        buff_match_spec(self.icon, f, r, self.threshold as int)
    }

    open spec fn remember(&self, r: Rect, passed: bool) -> Self {
        *self
    }

    fn view_dimensions(&self) -> (d: (u32, u32)) {
        self.dims
    }

    fn fits_frame(&self, f: &Frame) -> (b: bool) {
        f.width >= 35 && f.height >= 81 + BUFF_ICON_SIZE
    }

    fn fits_region(&self, f: &Frame, r: Rect) -> (b: bool) {
        r.x as u64 + BUFF_ICON_SIZE as u64 <= f.width as u64 && r.y as u64 + BUFF_ICON_SIZE as u64
            <= f.height as u64
    }

    fn candidates_iter(&self, f: &Frame) -> (v: Vec<Rect>) {
        proof {
            lemma_band_width(f.width as int);
        }
        let x0 = (f.width - 3) % BUFF_ICON_SIZE;
        let h1 = if f.height - 3 < 400 {
            f.height - 3
        } else {
            400
        };
        let h2 = if f.height - 81 < 400 {
            f.height - 81
        } else {
            400
        };
        let b1 = Rect { x: x0, y: 3, w: f.width - x0, h: h1 };
        let b2 = Rect { x: x0, y: 81, w: f.width - x0, h: h2 };
        assert(b1 == band(f.width as int, f.height as int, 3));
        assert(b2 == band(f.width as int, f.height as int, 81));
        let mut v = view_bounds_like(b1, (BUFF_ICON_SIZE, BUFF_ICON_SIZE), BUFF_ICON_SIZE);
        let mut v2 = view_bounds_like(b2, (BUFF_ICON_SIZE, BUFF_ICON_SIZE), BUFF_ICON_SIZE);
        let ghost g1 = v@;
        let ghost g2 = v2@;
        v.append(&mut v2);
        assert forall|k: int| 0 <= k < v@.len() implies self.region_fits(*f, #[trigger] v@[k]) by {
            if k >= g1.len() {
                assert(v@[k] == g2[k - g1.len()]);
            }
        }
        v
    }

    fn check(&mut self, f: &Frame, r: Rect) -> (b: bool) {
        let n: usize = self.edges.len();
        let mut fail: usize = 0;
        let mut k: usize = 0;
        while k < n
            invariant
                self.inv(),
                f.wf(),
                self.region_fits(*f, r),
                n == self.edges@.len(),
                k <= n,
                fail <= k,
                fail == edge_failures(*f, r, self.edges@, k as int),
            decreases n - k,
        {
            let (ex, ey) = self.edges[k];
            let p = f.get_pixel(r.x + ex, r.y + ey);
            if !(p.b <= BLACK_LIMIT && p.g <= BLACK_LIMIT && p.r <= BLACK_LIMIT && p.a == 255) {
                fail = fail + 1;
            }
            k = k + 1;
        }
        (fail as u128) * 3 <= n as u128
    }

    fn match_image(&self, f: &Frame, r: Rect) -> (m: Option<()>) {
        let mut fail: u32 = 0;
        let mut y: u32 = 0;
        while y < BUFF_ICON_SIZE
            invariant
                self.inv(),
                f.wf(),
                self.region_fits(*f, r),
                y <= BUFF_ICON_SIZE,
                fail <= y,
                fail == failed_rows(self.icon, *f, r, self.threshold as int, y as int),
            decreases BUFF_ICON_SIZE - y,
        {
            if !self.row_ok(f, r, y) {
                fail = fail + 1;
            }
            y = y + 1;
        }
        if 3 * fail > BUFF_ICON_SIZE {
            None
        } else {
            Some(())
        }
    }
}

// ---------------------------------------------------------------- laws

/// The sums of row `y` of the icon on channel `c`, the icon taken against itself.
pub open spec fn icon_row_stats(icon: Frame, y: int, c: int) -> (int, int, int, int, int, int) {
    row_stats(
        icon,
        icon,
        Rect { x: 0, y: 0, w: icon.width, h: icon.height },
        y,
        c,
        icon.width as int,
    )
}

/// `n * Σx² - (Σx)²`: zero exactly where the summed values are all equal.
pub open spec fn spread(st: (int, int, int, int, int, int)) -> int {
    st.0 * st.3 - st.1 * st.1
}

proof fn lemma_stats_of_copy(icon: Frame, f: Frame, r: Rect, y: int, c: int, k: int)
    requires
        forall|i: int, j: int|
            0 <= i < icon.width && 0 <= j < icon.height && #[trigger] icon.pixel(i, j).a == 255
                ==> f.region_pixel(r, i, j) == icon.pixel(i, j),
        0 <= y < icon.height,
        k <= icon.width,
    ensures
        row_stats(icon, f, r, y, c, k) == row_stats(
            icon,
            icon,
            Rect { x: 0, y: 0, w: icon.width, h: icon.height },
            y,
            c,
            k,
        ),
        row_stats(icon, f, r, y, c, k).1 == row_stats(icon, f, r, y, c, k).2,
        row_stats(icon, f, r, y, c, k).3 == row_stats(icon, f, r, y, c, k).4,
        row_stats(icon, f, r, y, c, k).3 == row_stats(icon, f, r, y, c, k).5,
    decreases k,
{
    if k > 0 {
        if icon.pixel(k - 1, y).a == 255 {
            assert(f.region_pixel(r, k - 1, y) == icon.pixel(k - 1, y));
        }
        lemma_stats_of_copy(icon, f, r, y, c, k - 1);
    }
}

proof fn lemma_self_correlation(st: (int, int, int, int, int, int), t: int)
    requires
        st.1 == st.2,
        st.3 == st.4,
        st.3 == st.5,
        st.0 == 0 || spread(st) > 0,
        t <= 1000,
    ensures
        ncc_at_least(st, t),
{
    if st.0 != 0 {
        let v = spread(st);
        assert(v * v > 0) by (nonlinear_arith)
            requires
                v > 0,
        ;
        if t >= 0 {
            assert(1000000 * (v * v) >= (t * t) * (v * v)) by (nonlinear_arith)
                requires
                    0 <= t <= 1000,
                    v * v > 0,
            ;
        }
    }
}

proof fn lemma_no_failed_rows(icon: Frame, f: Frame, r: Rect, t: int, k: int)
    requires
        forall|y: int| 0 <= y < k ==> #[trigger] row_passes(icon, f, r, y, t),
    ensures
        failed_rows(icon, f, r, t, k) == 0,
    decreases k,
{
    if k > 0 {
        lemma_no_failed_rows(icon, f, r, t, k - 1);
    }
}

/// The icon correlates perfectly with a region that holds its pixels wherever the
/// icon is opaque (transparent icon pixels are never compared): the match succeeds at every threshold up to 1000, provided that no row of the icon
/// is constant on a colour channel over its opaque pixels (such a row has no
/// correlation to speak of and counts as 0).
pub proof fn lemma_buff_accepts_itself(m: BuffMatcher, f: Frame, r: Rect)
    requires
        m.inv(),
        forall|i: int, j: int|
            0 <= i < BUFF_ICON_SIZE && 0 <= j < BUFF_ICON_SIZE && #[trigger] m.icon.pixel(i, j).a
                == 255 ==> f.region_pixel(r, i, j) == m.icon.pixel(i, j),
        forall|y: int, c: int|
            0 <= y < BUFF_ICON_SIZE && 0 <= c < 3 ==> (#[trigger] icon_row_stats(m.icon, y, c)).0
                == 0 || spread(icon_row_stats(m.icon, y, c)) > 0,
    ensures
        m.match_spec(f, r) == Some(()),
{
    let icon = m.icon;
    assert forall|y: int| 0 <= y < BUFF_ICON_SIZE implies #[trigger] row_passes(
        icon,
        f,
        r,
        y,
        m.threshold as int,
    ) by {
        let w = icon.width as int;
        lemma_stats_of_copy(icon, f, r, y, 0, w);
        lemma_stats_of_copy(icon, f, r, y, 1, w);
        lemma_stats_of_copy(icon, f, r, y, 2, w);
        assert(icon_row_stats(icon, y, 0).0 == 0 || spread(icon_row_stats(icon, y, 0)) > 0);
        assert(icon_row_stats(icon, y, 1).0 == 0 || spread(icon_row_stats(icon, y, 1)) > 0);
        assert(icon_row_stats(icon, y, 2).0 == 0 || spread(icon_row_stats(icon, y, 2)) > 0);
        lemma_self_correlation(row_stats(icon, f, r, y, 0, w), m.threshold as int);
        lemma_self_correlation(row_stats(icon, f, r, y, 1, w), m.threshold as int);
        lemma_self_correlation(row_stats(icon, f, r, y, 2, w), m.threshold as int);
    }
    lemma_no_failed_rows(icon, f, r, m.threshold as int, BUFF_ICON_SIZE as int);
}

/// The buff candidates depend on the frame's size alone, and a check leaves them as they were.
pub proof fn lemma_buff_candidates_restartable(
    m: BuffMatcher,
    f1: Frame,
    f2: Frame,
    r: Rect,
    passed: bool,
)
    requires
        f1.width == f2.width,
        f1.height == f2.height,
    ensures
        m.candidates_spec(f1) == m.candidates_spec(f2),
        m.remember(r, passed).candidates_spec(f1) == m.candidates_spec(f1),
{
}

} // verus!
