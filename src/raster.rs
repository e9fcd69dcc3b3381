use vstd::prelude::*;

verus! {

/// A grid of RGBA pixels, `width` wide and `height` high, stored row by row:
/// pixel `(x, y)` is `pixels[y * width + x]`.
pub struct Raster {
    pub width: u32,
    pub height: u32,
    pub pixels: Vec<[u8; 4]>,
}

/// Position of pixel `(x, y)` in a row-by-row grid `w` wide.
pub open spec fn grid_index(w: int, x: int, y: int) -> int {
    y * w + x
}

/// Every pixel of a `w` by `h` grid has a position inside the grid.
pub proof fn lemma_grid_index_bounds(w: int, h: int, x: int, y: int)
    requires
        0 <= x < w,
        0 <= y < h,
    ensures
        0 <= y * w,
        0 <= grid_index(w, x, y) < w * h,
{
    assert(0 <= y * w && y * w + x < w * h) by (nonlinear_arith)
        requires
            0 <= x < w,
            0 <= y < h,
    ;
}

/// Two pixels of a grid `w` wide share a position only if they are the same.
pub proof fn lemma_grid_index_distinct(w: int, x1: int, y1: int, x2: int, y2: int)
    requires
        0 <= x1 < w,
        0 <= x2 < w,
        0 <= y1,
        0 <= y2,
        grid_index(w, x1, y1) == grid_index(w, x2, y2),
    ensures
        x1 == x2,
        y1 == y2,
{
    if y1 < y2 {
        assert(y1 * w + x1 < y2 * w + x2) by (nonlinear_arith)
            requires
                0 <= x1 < w,
                0 <= x2,
                y1 < y2,
        ;
    } else if y2 < y1 {
        assert(y2 * w + x2 < y1 * w + x1) by (nonlinear_arith)
            requires
                0 <= x2 < w,
                0 <= x1,
                y2 < y1,
        ;
    }
}

/// Pixel of `before` after rows `y0 .. y0 + n` of column `x` took `col[0 .. n]`.
pub open spec fn with_column(before: Raster, x: int, y0: int, col: Seq<[u8; 4]>, n: int, xx: int, yy: int) -> [u8; 4] {
    if xx == x && y0 <= yy < y0 + n {
        col[yy - y0]
    } else {
        before.pixel(xx, yy)
    }
}

impl Raster {
    pub open spec fn wf(self) -> bool {
        &&& self.pixels@.len() == self.width * self.height
        &&& self.width * self.height <= usize::MAX / 4
    }

    /// Pixel at column `x`, row `y`.
    pub open spec fn pixel(self, x: int, y: int) -> [u8; 4] {
        self.pixels@[grid_index(self.width as int, x, y)]
    }

    /// A `width` by `height` raster with every channel of every pixel zero.
    pub fn new(width: u32, height: u32) -> (r: Raster)
        requires
            width * height <= usize::MAX / 4,
        ensures
            r.wf(),
            r.width == width,
            r.height == height,
            forall|x: int, y: int| 0 <= x < width && 0 <= y < height ==> #[trigger] r.pixel(x, y) == [0u8, 0u8, 0u8, 0u8],
    {
        let count = width as usize * height as usize;
        let mut pixels: Vec<[u8; 4]> = Vec::new();
        while pixels.len() < count
            invariant
                pixels@.len() <= count,
                forall|i: int| 0 <= i < pixels@.len() ==> #[trigger] pixels@[i] == [0u8, 0u8, 0u8, 0u8],
            decreases count - pixels@.len(),
        {
            pixels.push([0, 0, 0, 0]);
        }
        let r = Raster { width, height, pixels };
        assert forall|x: int, y: int| 0 <= x < width && 0 <= y < height implies #[trigger] r.pixel(x, y) == [0u8, 0u8, 0u8, 0u8] by {
            lemma_grid_index_bounds(width as int, height as int, x, y);
        }
        r
    }

    /// The pixel at column `x`, row `y`.
    pub fn get_pixel(&self, x: u32, y: u32) -> (r: [u8; 4])
        requires
            self.wf(),
            x < self.width,
            y < self.height,
        ensures
            r == self.pixel(x as int, y as int),
    {
        proof {
            lemma_grid_index_bounds(self.width as int, self.height as int, x as int, y as int);
        }
        self.pixels[y as usize * self.width as usize + x as usize]
    }

    /// Writes `col` down column `x`, from row `y0` on; every other pixel keeps its value.
    pub fn put_column(&mut self, x: u32, y0: u32, col: &Vec<[u8; 4]>)
        requires
            old(self).wf(),
            x < old(self).width,
            y0 + col@.len() <= old(self).height,
        ensures
            final(self).wf(),
            final(self).width == old(self).width,
            final(self).height == old(self).height,
            forall|xx: int, yy: int|
                0 <= xx < old(self).width && 0 <= yy < old(self).height ==> #[trigger] final(self).pixel(xx, yy)
                    == with_column(*old(self), x as int, y0 as int, col@, col@.len() as int, xx, yy),
    {
        let ghost start = *self;
        let n = col.len();
        let mut r: usize = 0;
        while r < n
            invariant
                n == col@.len(),
                r <= n,
                self.wf(),
                self.width == start.width,
                self.height == start.height,
                x < start.width,
                y0 + n <= start.height,
                forall|xx: int, yy: int|
                    0 <= xx < start.width && 0 <= yy < start.height ==> #[trigger] self.pixel(xx, yy)
                        == with_column(start, x as int, y0 as int, col@, r as int, xx, yy),
            decreases n - r,
        {
            let y = y0 as usize + r;
            proof {
                lemma_grid_index_bounds(self.width as int, self.height as int, x as int, y as int);
            }
            let ghost before = *self;
            let idx = y * self.width as usize + x as usize;
            self.pixels.set(idx, col[r]);
            assert forall|xx: int, yy: int|
                0 <= xx < start.width && 0 <= yy < start.height implies #[trigger] self.pixel(xx, yy)
                    == with_column(start, x as int, y0 as int, col@, r + 1, xx, yy) by {
                lemma_grid_index_bounds(self.width as int, self.height as int, xx, yy);
                if grid_index(self.width as int, xx, yy) == idx {
                    lemma_grid_index_distinct(self.width as int, xx, yy, x as int, y as int);
                }
                assert(before.pixel(xx, yy) == with_column(start, x as int, y0 as int, col@, r as int, xx, yy));
            }
            r = r + 1;
        }
    }

    /// The raster's channels, pixel by pixel in row order: red, green, blue, alpha.
    pub fn to_rgba_bytes(&self) -> (bytes: Vec<u8>)
        requires
            self.wf(),
        ensures
            bytes@.len() == 4 * self.pixels@.len(),
            forall|i: int, c: int| 0 <= i < self.pixels@.len() && 0 <= c < 4 ==> #[trigger] bytes@[4 * i + c] == self.pixels@[i][c],
    {
        let mut bytes: Vec<u8> = Vec::new();
        let mut i: usize = 0;
        while i < self.pixels.len()
            invariant
                self.wf(),
                i <= self.pixels@.len(),
                bytes@.len() == 4 * i,
                forall|j: int, c: int| 0 <= j < i && 0 <= c < 4 ==> #[trigger] bytes@[4 * j + c] == self.pixels@[j][c],
            decreases self.pixels@.len() - i,
        {
            let px = self.pixels[i];
            bytes.push(px[0]);
            bytes.push(px[1]);
            bytes.push(px[2]);
            bytes.push(px[3]);
            proof {
                assert forall|j: int, c: int| 0 <= j < i + 1 && 0 <= c < 4 implies #[trigger] bytes@[4 * j + c] == self.pixels@[j][c] by {
                    if j == i {
                        assert(c == 0 || c == 1 || c == 2 || c == 3);
                    }
                }
            }
            i = i + 1;
        }
        bytes
    }
}

} // verus!
