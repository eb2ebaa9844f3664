//! Owned 2D pixel and depth buffers.
//!
//! The rasterizer needs only two capabilities from its output: set a
//! pixel and read the dimensions. `Image` provides them over an owned
//! row-major buffer; presentation (a window, a file) stays outside.
//! `DepthBuffer` is the z-buffer: one depth per pixel, reset to the
//! smallest value (standing for negative infinity) between frames.

use vstd::prelude::*;

verus! {

/// An 8-bit RGB color.
#[derive(Debug, Copy, Clone, PartialEq, Eq, Structural)]
pub struct Color {
    pub r: u8,
    pub g: u8,
    pub b: u8,
}

/// A row-major owned pixel buffer, indexed by `x + y * width`.
pub struct Image {
    pub width: usize,
    pub height: usize,
    pub data: Vec<Color>,
}

impl Image {
    /// The buffer holds exactly one pixel per coordinate pair.
    pub open spec fn wf(&self) -> bool {
        self.data@.len() == self.width * self.height
    }

    /// The pixel at `(x, y)`.
    pub open spec fn at(&self, x: int, y: int) -> Color {
        self.data@[y * self.width + x]
    }

    /// A `width` by `height` image with every pixel set to `fill`.
    pub fn new(width: usize, height: usize, fill: Color) -> (r: Image)
        requires
            width * height <= 0x4000_0000,
        ensures
            r.wf(),
            r.width == width,
            r.height == height,
            forall|x: int, y: int|
                0 <= x < width && 0 <= y < height ==> #[trigger] r.at(x, y) == fill,
    {
        let n: usize = width * height;
        let mut data: Vec<Color> = Vec::new();
        let mut i: usize = 0;
        while i < n
            invariant
                i <= n,
                data@.len() == i,
                forall|k: int| 0 <= k < i ==> data@[k] == fill,
            decreases n - i,
        {
            data.push(fill);
            i += 1;
        }
        proof {
            vstd::arithmetic::mul::lemma_mul_nonnegative(width as int, height as int);
        }
        let r = Image { width, height, data };
        proof {
            assert forall|x: int, y: int|
                0 <= x < width && 0 <= y < height implies #[trigger] r.at(x, y) == fill by {
                lemma_flat_index(x, y, width as int, height as int);
            }
        }
        r
    }

    /// Writes the pixel at `(x, y)`; every other pixel is kept.
    pub fn set(&mut self, x: usize, y: usize, color: Color)
        requires
            old(self).wf(),
            x < old(self).width,
            y < old(self).height,
        ensures
            final(self).wf(),
            final(self).width == old(self).width,
            final(self).height == old(self).height,
            final(self).at(x as int, y as int) == color,
            forall|i: int, j: int|
                0 <= i < old(self).width && 0 <= j < old(self).height && !(i == x && j == y)
                    ==> #[trigger] final(self).at(i, j) == old(self).at(i, j),
    {
        let n: usize = self.data.len();
        proof {
            lemma_flat_index(x as int, y as int, self.width as int, self.height as int);
        }
        let idx: usize = x + y * self.width;
        self.data.set(idx, color);
        proof {
            assert forall|i: int, j: int|
                0 <= i < self.width && 0 <= j < self.height && !(i == x && j == y)
                    implies #[trigger] final(self).at(i, j) == old(self).at(i, j) by {
                lemma_flat_index(i, j, self.width as int, self.height as int);
                lemma_flat_index_injective(
                    i,
                    j,
                    x as int,
                    y as int,
                    self.width as int,
                    self.height as int,
                );
            }
        }
    }

    /// Reads the pixel at `(x, y)`.
    pub fn get(&self, x: usize, y: usize) -> (r: Color)
        requires
            self.wf(),
            x < self.width,
            y < self.height,
        ensures
            r == self.at(x as int, y as int),
    {
        let n: usize = self.data.len();
        proof {
            lemma_flat_index(x as int, y as int, self.width as int, self.height as int);
        }
        self.data[x + y * self.width]
    }

    /// The image flipped vertically: row `y` of the result is row
    /// `height - 1 - y` of the original.
    pub fn flipv(&self) -> (r: Image)
        requires
            self.wf(),
        ensures
            r.wf(),
            r.width == self.width,
            r.height == self.height,
            forall|x: int, y: int|
                0 <= x < self.width && 0 <= y < self.height ==> #[trigger] r.at(x, y) == self.at(
                    x,
                    self.height - 1 - y,
                ),
    {
        let n: usize = self.data.len();
        let mut data: Vec<Color> = Vec::new();
        let mut y: usize = 0;
        while y < self.height
            invariant
                self.wf(),
                n == self.data@.len(),
                y <= self.height,
                data@.len() == y * self.width,
                forall|i: int, j: int|
                    0 <= i < self.width && 0 <= j < y ==> #[trigger] data@[j * self.width + i]
                        == self.at(i, self.height - 1 - j),
            decreases self.height - y,
        {
            let mut x: usize = 0;
            while x < self.width
                invariant
                    self.wf(),
                    n == self.data@.len(),
                    y < self.height,
                    x <= self.width,
                    data@.len() == y * self.width + x,
                    forall|i: int, j: int|
                        0 <= i < self.width && 0 <= j < y ==> #[trigger] data@[j * self.width + i]
                            == self.at(i, self.height - 1 - j),
                    forall|i: int|
                        0 <= i < x ==> #[trigger] data@[y * self.width + i] == self.at(
                            i,
                            self.height - 1 - y,
                        ),
                decreases self.width - x,
            {
                proof {
                    lemma_flat_index(
                        x as int,
                        (self.height - 1 - y) as int,
                        self.width as int,
                        self.height as int,
                    );
                }
                let c: Color = self.data[x + (self.height - 1 - y) * self.width];
                data.push(c);
                x += 1;
                proof {
                    assert forall|i: int, j: int|
                        0 <= i < self.width && 0 <= j < y
                            implies #[trigger] data@[j * self.width + i] == self.at(
                            i,
                            self.height - 1 - j,
                        ) by {
                        lemma_flat_index(i, j, self.width as int, self.height as int + 1);
                        lemma_flat_below(i, j, y as int, self.width as int);
                    }
                }
            }
            proof {
                assert((y + 1) * self.width == y * self.width + self.width) by (nonlinear_arith);
            }
            y += 1;
        }
        proof {
            vstd::arithmetic::mul::lemma_mul_nonnegative(self.width as int, self.height as int);
            vstd::arithmetic::mul::lemma_mul_is_commutative(self.width as int, self.height as int);
        }
        let r = Image { width: self.width, height: self.height, data };
        proof {
            assert forall|x: int, y: int|
                0 <= x < r.width && 0 <= y < r.height implies #[trigger] r.at(x, y) == self.at(
                x,
                self.height - 1 - y,
            ) by {
                lemma_flat_index(x, y, r.width as int, r.height as int);
            }
        }
        r
    }
}

/// A row-major depth buffer, one depth per pixel, indexed like `Image`.
pub struct DepthBuffer {
    pub width: usize,
    pub height: usize,
    pub data: Vec<i64>,
}

impl DepthBuffer {
    pub open spec fn wf(&self) -> bool {
        self.data@.len() == self.width * self.height
    }

    /// The depth stored at `(x, y)`.
    pub open spec fn at(&self, x: int, y: int) -> i64 {
        self.data@[y * self.width + x]
    }

    /// A fresh buffer with every depth at the minimum, which every
    /// rendered depth beats.
    pub fn new(width: usize, height: usize) -> (r: DepthBuffer)
        requires
            width * height <= 0x4000_0000,
        ensures
            r.wf(),
            r.width == width,
            r.height == height,
            forall|x: int, y: int|
                0 <= x < width && 0 <= y < height ==> #[trigger] r.at(x, y) == i64::MIN,
    {
        let n: usize = width * height;
        let mut data: Vec<i64> = Vec::new();
        let mut i: usize = 0;
        while i < n
            invariant
                i <= n,
                data@.len() == i,
                forall|k: int| 0 <= k < i ==> data@[k] == i64::MIN,
            decreases n - i,
        {
            data.push(i64::MIN);
            i += 1;
        }
        proof {
            vstd::arithmetic::mul::lemma_mul_nonnegative(width as int, height as int);
        }
        let r = DepthBuffer { width, height, data };
        proof {
            assert forall|x: int, y: int|
                0 <= x < width && 0 <= y < height implies #[trigger] r.at(x, y) == i64::MIN by {
                lemma_flat_index(x, y, width as int, height as int);
            }
        }
        r
    }

    /// Resets every depth to the minimum, for the next frame.
    pub fn clear(&mut self)
        requires
            old(self).wf(),
        ensures
            final(self).wf(),
            final(self).width == old(self).width,
            final(self).height == old(self).height,
            forall|x: int, y: int|
                0 <= x < old(self).width && 0 <= y < old(self).height
                    ==> #[trigger] final(self).at(x, y) == i64::MIN,
    {
        let n: usize = self.data.len();
        let mut i: usize = 0;
        while i < n
            invariant
                old(self).wf(),
                self.width == old(self).width,
                self.height == old(self).height,
                self.data@.len() == n,
                n == old(self).data@.len(),
                i <= n,
                forall|k: int| 0 <= k < i ==> self.data@[k] == i64::MIN,
            decreases n - i,
        {
            self.data.set(i, i64::MIN);
            i += 1;
        }
        proof {
            assert forall|x: int, y: int|
                0 <= x < old(self).width && 0 <= y < old(self).height
                    implies #[trigger] final(self).at(x, y) == i64::MIN by {
                lemma_flat_index(x, y, self.width as int, self.height as int);
            }
        }
    }

    /// Writes the depth at `(x, y)`; every other depth is kept.
    pub fn set(&mut self, x: usize, y: usize, depth: i64)
        requires
            old(self).wf(),
            x < old(self).width,
            y < old(self).height,
        ensures
            final(self).wf(),
            final(self).width == old(self).width,
            final(self).height == old(self).height,
            final(self).at(x as int, y as int) == depth,
            forall|i: int, j: int|
                0 <= i < old(self).width && 0 <= j < old(self).height && !(i == x && j == y)
                    ==> #[trigger] final(self).at(i, j) == old(self).at(i, j),
    {
        let n: usize = self.data.len();
        proof {
            lemma_flat_index(x as int, y as int, self.width as int, self.height as int);
        }
        let idx: usize = x + y * self.width;
        self.data.set(idx, depth);
        proof {
            assert forall|i: int, j: int|
                0 <= i < self.width && 0 <= j < self.height && !(i == x && j == y)
                    implies #[trigger] final(self).at(i, j) == old(self).at(i, j) by {
                lemma_flat_index(i, j, self.width as int, self.height as int);
                lemma_flat_index_injective(
                    i,
                    j,
                    x as int,
                    y as int,
                    self.width as int,
                    self.height as int,
                );
            }
        }
    }

    /// Reads the depth at `(x, y)`.
    pub fn get(&self, x: usize, y: usize) -> (r: i64)
        requires
            self.wf(),
            x < self.width,
            y < self.height,
        ensures
            r == self.at(x as int, y as int),
    {
        let n: usize = self.data.len();
        proof {
            lemma_flat_index(x as int, y as int, self.width as int, self.height as int);
        }
        self.data[x + y * self.width]
    }
}

/// The flat index `x + y * w` of an in-bounds pixel is in bounds.
pub proof fn lemma_flat_index(x: int, y: int, w: int, h: int)
    requires
        0 <= x < w,
        0 <= y < h,
    ensures
        0 <= x + y * w < w * h,
{
    assert(x + y * w < w * h) by (nonlinear_arith)
        requires
            0 <= x < w,
            0 <= y < h,
    ;
    vstd::arithmetic::mul::lemma_mul_nonnegative(y, w);
}

/// Distinct in-bounds pixels have distinct flat indices.
pub proof fn lemma_flat_index_injective(x1: int, y1: int, x2: int, y2: int, w: int, h: int)
    requires
        0 <= x1 < w,
        0 <= y1 < h,
        0 <= x2 < w,
        0 <= y2 < h,
        !(x1 == x2 && y1 == y2),
    ensures
        x1 + y1 * w != x2 + y2 * w,
{
    assert(x1 + y1 * w != x2 + y2 * w) by (nonlinear_arith)
        requires
            0 <= x1 < w,
            0 <= y1 < h,
            0 <= x2 < w,
            0 <= y2 < h,
            !(x1 == x2 && y1 == y2),
    ;
}

/// Indices in rows below `y` are unchanged by appends at row `y`.
proof fn lemma_flat_below(i: int, j: int, y: int, w: int)
    requires
        0 <= i < w,
        0 <= j < y,
    ensures
        j * w + i < y * w,
{
    assert(j * w + i < y * w) by (nonlinear_arith)
        requires
            0 <= i < w,
            0 <= j < y,
    ;
}

} // verus!
