use vstd::prelude::*;
use vstd::arithmetic::div_mod::{
    lemma_fundamental_div_mod, lemma_fundamental_div_mod_converse, lemma_mod_pos_bound,
};

use crate::frame::{Frame, Rect, RegularizedEqPixel};

verus! {

/// How many positions of a window of size `d` fit in `extent`, stepping by `stride`.
pub open spec fn grid_count(extent: int, d: int, stride: int) -> int {
    (extent - d) / stride + 1
}

/// Every window of size `dw` x `dh` inside `b`, stepping by `stride` in both
/// directions; columns outer, rows inner.
pub open spec fn grid_rects(b: Rect, dw: u32, dh: u32, stride: int) -> Seq<Rect> {
    let ny = grid_count(b.h as int, dh as int, stride);
    Seq::new(
        (grid_count(b.w as int, dw as int, stride) * ny) as nat,
        |k: int|
            Rect {
                x: (b.x + (k / ny) * stride) as u32,
                y: (b.y + (k % ny) * stride) as u32,
                w: dw,
                h: dh,
            },
    )
}

proof fn lemma_grid_position(a: int, c: int, ny: int)
    requires
        0 <= a,
        0 <= c < ny,
    ensures
        (a * ny + c) / ny == a,
        (a * ny + c) % ny == c,
        (a + 1) * ny == a * ny + ny,
{
    lemma_fundamental_div_mod_converse(a * ny + c, ny, a, c);
    assert((a + 1) * ny == a * ny + ny) by (nonlinear_arith);
}

proof fn lemma_stride_within(a: int, e: int, s: int)
    requires
        0 <= a <= e / s,
        0 <= e,
        1 <= s,
    ensures
        a * s <= e,
{
    assert(a * s <= (e / s) * s) by (nonlinear_arith)
        requires
            0 <= a <= e / s,
            1 <= s,
    ;
    lemma_fundamental_div_mod(e, s);
    lemma_mod_pos_bound(e, s);
    assert((e / s) * s == s * (e / s)) by (nonlinear_arith);
}

/// The windows of size `dim` inside `bounds`, `stride` apart (see `grid_rects`).
pub fn view_bounds_like(bounds: Rect, dim: (u32, u32), stride: u32) -> (v: Vec<Rect>)
    requires
        stride >= 1,
        dim.0 <= bounds.w,
        dim.1 <= bounds.h,
        bounds.x + bounds.w <= u32::MAX,
        bounds.y + bounds.h <= u32::MAX,
    ensures
        v@ == grid_rects(bounds, dim.0, dim.1, stride as int),
        forall|k: int|
            0 <= k < v@.len() ==> (#[trigger] v@[k]).x + dim.0 <= bounds.x + bounds.w
                && v@[k].y + dim.1 <= bounds.y + bounds.h && bounds.x <= v@[k].x && bounds.y
                <= v@[k].y,
{
    let nx: u64 = ((bounds.w - dim.0) / stride) as u64 + 1;
    let ny: u64 = ((bounds.h - dim.1) / stride) as u64 + 1;
    let ghost g = grid_rects(bounds, dim.0, dim.1, stride as int);
    let mut v: Vec<Rect> = Vec::new();
    let mut a: u64 = 0;
    while a < nx
        invariant
            a <= nx,
            nx == grid_count(bounds.w as int, dim.0 as int, stride as int),
            ny == grid_count(bounds.h as int, dim.1 as int, stride as int),
            g == grid_rects(bounds, dim.0, dim.1, stride as int),
            stride >= 1,
            dim.0 <= bounds.w,
            dim.1 <= bounds.h,
            bounds.x + bounds.w <= u32::MAX,
            bounds.y + bounds.h <= u32::MAX,
            v@.len() == a * ny,
            forall|k: int| 0 <= k < v@.len() ==> #[trigger] v@[k] == g[k],
        decreases nx - a,
    {
        proof {
            lemma_stride_within(a as int, (bounds.w - dim.0) as int, stride as int);
        }
        let x: u64 = bounds.x as u64 + a * stride as u64;
        let mut c: u64 = 0;
        while c < ny
            invariant
                a < nx,
                c <= ny,
                nx == grid_count(bounds.w as int, dim.0 as int, stride as int),
                ny == grid_count(bounds.h as int, dim.1 as int, stride as int),
                g == grid_rects(bounds, dim.0, dim.1, stride as int),
                stride >= 1,
                dim.0 <= bounds.w,
                dim.1 <= bounds.h,
                bounds.x + bounds.w <= u32::MAX,
                bounds.y + bounds.h <= u32::MAX,
                x == bounds.x + a * stride,
                x + dim.0 <= bounds.x + bounds.w,
                v@.len() == a * ny + c,
                forall|k: int| 0 <= k < v@.len() ==> #[trigger] v@[k] == g[k],
            decreases ny - c,
        {
            proof {
                lemma_stride_within(c as int, (bounds.h - dim.1) as int, stride as int);
                lemma_grid_position(a as int, c as int, ny as int);
                assert(a * ny + c < nx * ny) by (nonlinear_arith)
                    requires
                        a < nx,
                        c < ny,
                ;
            }
            let y: u64 = bounds.y as u64 + c * stride as u64;
            v.push(Rect { x: x as u32, y: y as u32, w: dim.0, h: dim.1 });
            c = c + 1;
        }
        proof {
            lemma_grid_position(a as int, 0, ny as int);
        }
        a = a + 1;
    }
    proof {
        assert(v@ =~= g);
        assert forall|k: int| 0 <= k < v@.len() implies (#[trigger] v@[k]).x + dim.0 <= bounds.x
            + bounds.w && v@[k].y + dim.1 <= bounds.y + bounds.h && bounds.x <= v@[k].x
            && bounds.y <= v@[k].y by {
            let ny_i = ny as int;
            let a_k = k / ny_i;
            let c_k = k % ny_i;
            lemma_fundamental_div_mod(k, ny_i);
            lemma_mod_pos_bound(k, ny_i);
            assert(0 <= a_k < nx) by (nonlinear_arith)
                requires
                    0 <= k < nx * ny_i,
                    ny_i >= 1,
                    a_k == k / ny_i,
            ;
            lemma_stride_within(a_k, (bounds.w - dim.0) as int, stride as int);
            lemma_stride_within(c_k, (bounds.h - dim.1) as int, stride as int);
        }
    }
    v
}

/// The two regions hold the same pixels, position by position.
pub open spec fn views_equal(a: Frame, ra: Rect, b: Frame, rb: Rect) -> bool {
    forall|i: int, j: int|
        0 <= i < ra.w && 0 <= j < ra.h ==> #[trigger] a.region_pixel(ra, i, j) == b.region_pixel(
            rb,
            i,
            j,
        )
}

/// The two regions hold the same pixels wherever the first one has a good pixel;
/// positions where it does not (not opaque, pure black, pure white) are left out.
pub open spec fn views_regularized_equal(a: Frame, ra: Rect, b: Frame, rb: Rect) -> bool {
    forall|i: int, j: int|
        0 <= i < ra.w && 0 <= j < ra.h && (#[trigger] a.region_pixel(ra, i, j)).is_good()
            ==> a.region_pixel(ra, i, j) == b.region_pixel(rb, i, j)
}

/// Compares two regions of equal size pixel by pixel.
pub fn view_eq(a: &Frame, ra: Rect, b: &Frame, rb: Rect) -> (r: bool)
    requires
        a.wf(),
        b.wf(),
        ra.w == rb.w,
        ra.h == rb.h,
        ra.fits_in(a.width as int, a.height as int),
        rb.fits_in(b.width as int, b.height as int),
    ensures
        r == views_equal(*a, ra, *b, rb),
{
    let mut j: u32 = 0;
    while j < ra.h
        invariant
            a.wf(),
            b.wf(),
            ra.w == rb.w,
            ra.h == rb.h,
            ra.fits_in(a.width as int, a.height as int),
            rb.fits_in(b.width as int, b.height as int),
            j <= ra.h,
            forall|i2: int, j2: int|
                0 <= i2 < ra.w && 0 <= j2 < j ==> #[trigger] a.region_pixel(ra, i2, j2)
                    == b.region_pixel(rb, i2, j2),
        decreases ra.h - j,
    {
        let mut i: u32 = 0;
        while i < ra.w
            invariant
                a.wf(),
                b.wf(),
                ra.w == rb.w,
                ra.h == rb.h,
                ra.fits_in(a.width as int, a.height as int),
                rb.fits_in(b.width as int, b.height as int),
                j < ra.h,
                i <= ra.w,
                forall|i2: int, j2: int|
                    (0 <= i2 < ra.w && 0 <= j2 < j) || (0 <= i2 < i && j2 == j) ==> #[trigger] a.region_pixel(
                        ra,
                        i2,
                        j2,
                    ) == b.region_pixel(rb, i2, j2),
            decreases ra.w - i,
        {
            let p = a.get_pixel(ra.x + i, ra.y + j);
            let q = b.get_pixel(rb.x + i, rb.y + j);
            if p != q {
                assert(a.region_pixel(ra, i as int, j as int) != b.region_pixel(rb, i as int, j as int));
                return false;
            }
            i = i + 1;
        }
        j = j + 1;
    }
    true
}

/// Like `view_eq`, but positions where the first region's pixel is not good are skipped.
pub fn view_regularized_eq(a: &Frame, ra: Rect, b: &Frame, rb: Rect) -> (r: bool)
    requires
        a.wf(),
        b.wf(),
        ra.w == rb.w,
        ra.h == rb.h,
        ra.fits_in(a.width as int, a.height as int),
        rb.fits_in(b.width as int, b.height as int),
    ensures
        r == views_regularized_equal(*a, ra, *b, rb),
{
    let mut j: u32 = 0;
    while j < ra.h
        invariant
            a.wf(),
            b.wf(),
            ra.w == rb.w,
            ra.h == rb.h,
            ra.fits_in(a.width as int, a.height as int),
            rb.fits_in(b.width as int, b.height as int),
            j <= ra.h,
            forall|i2: int, j2: int|
                0 <= i2 < ra.w && 0 <= j2 < j && (#[trigger] a.region_pixel(ra, i2, j2)).is_good()
                    ==> a.region_pixel(ra, i2, j2) == b.region_pixel(rb, i2, j2),
        decreases ra.h - j,
    {
        let mut i: u32 = 0;
        while i < ra.w
            invariant
                a.wf(),
                b.wf(),
                ra.w == rb.w,
                ra.h == rb.h,
                ra.fits_in(a.width as int, a.height as int),
                rb.fits_in(b.width as int, b.height as int),
                j < ra.h,
                i <= ra.w,
                forall|i2: int, j2: int|
                    ((0 <= i2 < ra.w && 0 <= j2 < j) || (0 <= i2 < i && j2 == j)) && (
                    #[trigger] a.region_pixel(ra, i2, j2)).is_good() ==> a.region_pixel(ra, i2, j2)
                        == b.region_pixel(rb, i2, j2),
            decreases ra.w - i,
        {
            let p = a.get_pixel(ra.x + i, ra.y + j);
            let q = b.get_pixel(rb.x + i, rb.y + j);
            if p.good_pixel() && p != q {
                assert(a.region_pixel(ra, i as int, j as int).is_good());
                assert(a.region_pixel(ra, i as int, j as int) != b.region_pixel(rb, i as int, j as int));
                return false;
            }
            i = i + 1;
        }
        j = j + 1;
    }
    true
}

} // verus!
