use vstd::prelude::*;

verus! {

/// One pixel, channels in blue, green, red, alpha order.
#[derive(Clone, Copy, PartialEq, Eq, Structural, Debug)]
pub struct Bgra {
    pub b: u8,
    pub g: u8,
    pub r: u8,
    pub a: u8,
}

/// Pixels that take part in a tolerant comparison.
pub trait RegularizedEqPixel {
    /// Fully opaque, and neither pure black nor pure white.
    spec fn is_good(&self) -> bool;

    fn good_pixel(&self) -> (r: bool)
        ensures
            r == self.is_good(),
    ;
}

impl RegularizedEqPixel for Bgra {
    open spec fn is_good(&self) -> bool {
        &&& self.a == 255
        &&& !(self.b == 0 && self.g == 0 && self.r == 0)
        &&& !(self.b == 255 && self.g == 255 && self.r == 255)
    }

    fn good_pixel(&self) -> (r: bool) {
        self.a == 255 && !(self.b == 0 && self.g == 0 && self.r == 0) && !(self.b == 255
            && self.g == 255 && self.r == 255)
    }
}

/// A rectangle `(x, y, w, h)` of a frame.
#[derive(Clone, Copy, PartialEq, Eq, Structural, Debug)]
pub struct Rect {
    pub x: u32,
    pub y: u32,
    pub w: u32,
    pub h: u32,
}

impl Rect {
    pub open spec fn fits_in(self, width: int, height: int) -> bool {
        self.x + self.w <= width && self.y + self.h <= height
    }

    /// The rectangle at `(x, y)` of this one, of size `w` x `h`, in the frame's coordinates.
    pub fn view(self, x: u32, y: u32, w: u32, h: u32) -> (r: Rect)
        requires
            x + w <= self.w,
            y + h <= self.h,
            self.x + self.w <= u32::MAX,
            self.y + self.h <= u32::MAX,
        ensures
            r == (Rect { x: (self.x + x) as u32, y: (self.y + y) as u32, w, h }),
    {
        Rect { x: self.x + x, y: self.y + y, w, h }
    }
}

/// The pixel stored at position `m` (row-major) of a byte sequence, four bytes per pixel.
pub open spec fn pixel_of(s: Seq<u8>, m: int) -> Bgra {
    Bgra { b: s[4 * m], g: s[4 * m + 1], r: s[4 * m + 2], a: s[4 * m + 3] }
}

/// A rectangular image, four bytes per pixel, rows stored one after another.
#[derive(Clone, Debug)]
pub struct Frame {
    pub width: u32,
    pub height: u32,
    pub data: Vec<u8>,
}

pub proof fn lemma_index_in_bounds(x: int, y: int, w: int, h: int)
    requires
        0 <= x < w,
        0 <= y < h,
    ensures
        0 <= y * w + x < w * h,
        4 * (y * w + x) + 3 < 4 * (w * h),
{
    assert(0 <= y * w) by (nonlinear_arith)
        requires
            0 <= y,
            0 <= w,
    ;
    assert(y * w + x < w * h) by (nonlinear_arith)
        requires
            0 <= x < w,
            0 <= y < h,
    ;
}

pub proof fn lemma_index_unique(x1: int, y1: int, x2: int, y2: int, w: int)
    requires
        0 <= x1 < w,
        0 <= x2 < w,
        0 <= y1,
        0 <= y2,
        y1 * w + x1 == y2 * w + x2,
    ensures
        x1 == x2,
        y1 == y2,
{
    assert(y1 == y2) by (nonlinear_arith)
        requires
            0 <= x1 < w,
            0 <= x2 < w,
            0 <= y1,
            0 <= y2,
            y1 * w + x1 == y2 * w + x2,
    ;
}

impl Frame {
    pub open spec fn wf(&self) -> bool {
        self.data@.len() == 4 * (self.width as int * self.height as int)
    }

    pub open spec fn contains(&self, x: int, y: int) -> bool {
        0 <= x < self.width && 0 <= y < self.height
    }

    /// The pixel at column `x` and row `y`.
    pub open spec fn pixel(&self, x: int, y: int) -> Bgra {
        pixel_of(self.data@, y * self.width + x)
    }

    /// The pixel at column `i` and row `j` of the region `r`.
    pub open spec fn region_pixel(&self, r: Rect, i: int, j: int) -> Bgra {
        self.pixel(r.x + i, r.y + j)
    }

    /// A frame of the given size whose pixels are all `p`.
    pub fn filled(width: u32, height: u32, p: Bgra) -> (f: Frame)
        requires
            4 * (width as int * height as int) <= usize::MAX,
        ensures
            f.wf(),
            f.width == width,
            f.height == height,
            forall|x: int, y: int| f.contains(x, y) ==> #[trigger] f.pixel(x, y) == p,
    {
        let n: usize = width as usize * height as usize;
        let mut data: Vec<u8> = Vec::new();
        let mut k: usize = 0;
        while k < n
            invariant
                k <= n,
                n == width as int * height as int,
                4 * n <= usize::MAX,
                data@.len() == 4 * k,
                forall|m: int| 0 <= m < k ==> #[trigger] pixel_of(data@, m) == p,
            decreases n - k,
        {
            let ghost before = data@;
            data.push(p.b);
            data.push(p.g);
            data.push(p.r);
            data.push(p.a);
            proof {
                assert(data@ == before + seq![p.b, p.g, p.r, p.a]);
                assert forall|m: int| 0 <= m < k + 1 implies #[trigger] pixel_of(data@, m) == p by {
                    if m < k {
                        assert(pixel_of(before, m) == p);
                    }
                }
            }
            k = k + 1;
        }
        let f = Frame { width, height, data };
        assert forall|x: int, y: int| f.contains(x, y) implies #[trigger] f.pixel(x, y) == p by {
            lemma_index_in_bounds(x, y, width as int, height as int);
        }
        f
    }

    /// Wraps a byte buffer; `None` unless it holds exactly four bytes per pixel.
    pub fn from_raw(width: u32, height: u32, data: Vec<u8>) -> (f: Option<Frame>)
        ensures
            f is Some <==> data@.len() == 4 * (width as int * height as int),
            f matches Some(fr) ==> fr.wf() && fr.width == width && fr.height == height
                && fr.data@ == data@,
    {
        proof {
            assert(width as int * height as int <= u32::MAX as int * u32::MAX as int)
                by (nonlinear_arith)
                requires
                    width <= u32::MAX,
                    height <= u32::MAX,
            ;
        }
        let n: u64 = width as u64 * height as u64;
        let len: usize = data.len();
        if len % 4 == 0 && (len / 4) as u64 == n {
            Some(Frame { width, height, data })
        } else {
            None
        }
    }

    pub fn get_pixel(&self, x: u32, y: u32) -> (p: Bgra)
        requires
            self.wf(),
            x < self.width,
            y < self.height,
        ensures
            p == self.pixel(x as int, y as int),
    {
        proof {
            lemma_index_in_bounds(x as int, y as int, self.width as int, self.height as int);
        }
        let _len: usize = self.data.len();
        let i: usize = 4 * (y as usize * self.width as usize + x as usize);
        Bgra { b: self.data[i], g: self.data[i + 1], r: self.data[i + 2], a: self.data[i + 3] }
    }

    pub fn put_pixel(&mut self, x: u32, y: u32, p: Bgra)
        requires
            old(self).wf(),
            x < old(self).width,
            y < old(self).height,
        ensures
            final(self).wf(),
            final(self).width == old(self).width,
            final(self).height == old(self).height,
            final(self).pixel(x as int, y as int) == p,
            forall|x2: int, y2: int|
                old(self).contains(x2, y2) && !(x2 == x && y2 == y)
                    ==> #[trigger] final(self).pixel(x2, y2) == old(self).pixel(x2, y2),
    {
        proof {
            lemma_index_in_bounds(x as int, y as int, self.width as int, self.height as int);
        }
        let _len: usize = self.data.len();
        let i: usize = 4 * (y as usize * self.width as usize + x as usize);
        self.data.set(i, p.b);
        self.data.set(i + 1, p.g);
        self.data.set(i + 2, p.r);
        self.data.set(i + 3, p.a);
        proof {
            assert forall|x2: int, y2: int|
                old(self).contains(x2, y2) && !(x2 == x && y2 == y) implies #[trigger] self.pixel(x2, y2)
                == old(self).pixel(x2, y2) by {
                lemma_index_in_bounds(x2, y2, self.width as int, self.height as int);
                if y2 * self.width + x2 == y * self.width + x {
                    lemma_index_unique(x2, y2, x as int, y as int, self.width as int);
                }
            }
        }
    }
}

} // verus!
