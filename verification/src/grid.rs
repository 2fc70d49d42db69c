//! Plain 2D grids: the grayscale depth map that drives the rendering and the
//! color grid that receives it, both row-major with the origin at the top left.

use vstd::prelude::*;

verus! {

/// An 8-bit RGB color.
#[derive(Clone, Copy, PartialEq, Eq, Structural, Debug)]
pub struct Color {
    pub r: u8,
    pub g: u8,
    pub b: u8,
}

impl Color {
    pub fn black() -> (c: Color)
        ensures
            c == (Color { r: 0, g: 0, b: 0 }),
    {
        Color { r: 0, g: 0, b: 0 }
    }
}

/// Distinct in-range cells have distinct row-major indices.
pub proof fn lemma_grid_index_injective(w: int, x1: int, y1: int, x2: int, y2: int)
    requires
        0 <= x1 < w,
        0 <= x2 < w,
        0 <= y1,
        0 <= y2,
        !(x1 == x2 && y1 == y2),
    ensures
        y1 * w + x1 != y2 * w + x2,
{
    if y1 == y2 {
        assert(y1 * w + x1 != y2 * w + x2);
    } else if y1 < y2 {
        assert(y1 * w + x1 < (y1 + 1) * w <= y2 * w + x2) by (nonlinear_arith)
            requires 0 <= x1 < w, 0 <= x2, y1 < y2;
    } else {
        assert(y2 * w + x2 < (y2 + 1) * w <= y1 * w + x1) by (nonlinear_arith)
            requires 0 <= x2 < w, 0 <= x1, y2 < y1;
    }
}

/// A row-major cell index stays below the grid's area.
pub proof fn lemma_grid_index_in_range(w: int, h: int, x: int, y: int)
    requires
        0 <= x < w,
        0 <= y < h,
    ensures
        0 <= y * w + x < h * w,
{
    assert(y * w + x < h * w) by (nonlinear_arith)
        requires 0 <= x < w, 0 <= y < h;
    assert(0 <= y * w) by (nonlinear_arith)
        requires 0 <= y, 0 <= w;
}

/// A read-only grid of normalized depth samples, one byte per cell;
/// `255` is the closest depth (`1.0`), `0` the farthest (`0.0`).
pub struct DepthMap {
    pub width: u32,
    pub height: u32,
    pub data: Vec<u8>,
}

impl DepthMap {
    pub open spec fn wf(&self) -> bool {
        self.data@.len() == self.width as int * self.height as int
    }

    /// The depth sample at column `x` of row `y`.
    pub open spec fn sample(&self, x: int, y: int) -> u8 {
        self.data@[y * self.width as int + x]
    }

    pub fn new(width: u32, height: u32, data: Vec<u8>) -> (z: DepthMap)
        requires
            data@.len() == width as int * height as int,
        ensures
            z.wf(),
            z == (DepthMap { width, height, data }),
    {
        DepthMap { width, height, data }
    }

    pub fn depth_at(&self, x: u32, y: u32) -> (d: u8)
        requires
            self.wf(),
            x < self.width,
            y < self.height,
        ensures
            d == self.sample(x as int, y as int),
    {
        proof {
            lemma_grid_index_in_range(self.width as int, self.height as int, x as int, y as int);
            assert(self.height as int * self.width as int == self.width as int * self.height as int)
                by (nonlinear_arith);
        }
        let _len: usize = self.data.len();
        let idx: usize = (y as usize) * (self.width as usize) + (x as usize);
        self.data[idx]
    }
}

/// A mutable grid of colors with the same layout as the depth map.
pub struct ColorGrid {
    pub width: u32,
    pub height: u32,
    pub data: Vec<Color>,
}

impl ColorGrid {
    pub open spec fn wf(&self) -> bool {
        self.data@.len() == self.width as int * self.height as int
    }

    /// The color at column `x` of row `y`.
    pub open spec fn color_at(&self, x: int, y: int) -> Color {
        self.data@[y * self.width as int + x]
    }

    /// A grid of the given dimensions, all black.
    pub fn new(width: u32, height: u32) -> (g: ColorGrid)
        requires
            width as int * height as int <= usize::MAX,
        ensures
            g.wf(),
            g.width == width,
            g.height == height,
            forall|i: int, j: int| 0 <= i < width && 0 <= j < height
                ==> #[trigger] g.color_at(i, j) == (Color { r: 0, g: 0, b: 0 }),
    {
        let n: usize = (width as usize) * (height as usize);
        let mut data: Vec<Color> = Vec::new();
        while data.len() < n
            invariant
                data@.len() <= n,
                n == width as int * height as int,
                forall|k: int| 0 <= k < data@.len()
                    ==> #[trigger] data@[k] == (Color { r: 0, g: 0, b: 0 }),
            decreases n - data@.len(),
        {
            data.push(Color::black());
        }
        let g = ColorGrid { width, height, data };
        proof {
            assert forall|i: int, j: int| 0 <= i < width && 0 <= j < height
                implies #[trigger] g.color_at(i, j) == (Color { r: 0, g: 0, b: 0 }) by {
                lemma_grid_index_in_range(width as int, height as int, i, j);
                assert(height as int * width as int == width as int * height as int)
                    by (nonlinear_arith);
            }
        }
        g
    }

    pub fn px(&self, x: u32, y: u32) -> (c: Color)
        requires
            self.wf(),
            x < self.width,
            y < self.height,
        ensures
            c == self.color_at(x as int, y as int),
    {
        proof {
            lemma_grid_index_in_range(self.width as int, self.height as int, x as int, y as int);
            assert(self.height as int * self.width as int == self.width as int * self.height as int)
                by (nonlinear_arith);
        }
        let _len: usize = self.data.len();
        let idx: usize = (y as usize) * (self.width as usize) + (x as usize);
        self.data[idx]
    }

    pub fn set_px(&mut self, x: u32, y: u32, c: Color)
        requires
            old(self).wf(),
            x < old(self).width,
            y < old(self).height,
        ensures
            final(self).wf(),
            final(self).width == old(self).width,
            final(self).height == old(self).height,
            final(self).color_at(x as int, y as int) == c,
            forall|i: int, j: int|
                0 <= i < old(self).width && 0 <= j < old(self).height
                    && !(i == x as int && j == y as int)
                    ==> #[trigger] final(self).color_at(i, j) == old(self).color_at(i, j),
    {
        proof {
            lemma_grid_index_in_range(self.width as int, self.height as int, x as int, y as int);
            assert(self.height as int * self.width as int == self.width as int * self.height as int)
                by (nonlinear_arith);
        }
        let _len: usize = self.data.len();
        let idx: usize = (y as usize) * (self.width as usize) + (x as usize);
        self.data.set(idx, c);
        proof {
            assert forall|i: int, j: int|
                0 <= i < old(self).width && 0 <= j < old(self).height
                    && !(i == x as int && j == y as int)
                    implies #[trigger] self.color_at(i, j) == old(self).color_at(i, j) by {
                lemma_grid_index_injective(self.width as int, i, j, x as int, y as int);
                lemma_grid_index_in_range(self.width as int, self.height as int, i, j);
                assert(self.height as int * self.width as int
                    == self.width as int * self.height as int) by (nonlinear_arith);
            }
        }
    }
}

} // verus!
