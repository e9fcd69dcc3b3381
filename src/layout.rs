use vstd::prelude::*;
use crate::power::{is_pow2, lemma_pow2_multiple_of_four, nearest_power_of_two_below};

verus! {

/// Number of samples in one analysis window.
pub const WINDOW_LEN: usize = 2048;

/// Number of whole analysis windows (image columns) in `sample_count` samples.
pub fn total_columns(sample_count: usize) -> (r: usize)
    ensures
        r == sample_count as int / WINDOW_LEN as int,
{
    sample_count / WINDOW_LEN
}

/// Sample range `[start, end)` of window `index`: it starts at
/// `index * WINDOW_LEN` and is clipped at `sample_count`.
pub fn window_range(index: usize, sample_count: usize) -> (r: (usize, usize))
    requires
        index <= sample_count as int / WINDOW_LEN as int,
    ensures
        r.0 == index * WINDOW_LEN,
        r.1 as int == if (index + 1) * WINDOW_LEN <= sample_count {
            (index + 1) * WINDOW_LEN
        } else {
            sample_count as int
        },
        r.0 <= r.1 <= sample_count,
{
    proof {
        assert(index * WINDOW_LEN <= sample_count) by (nonlinear_arith)
            requires
                index <= sample_count / 2048,
                WINDOW_LEN == 2048,
        ;
    }
    let start = index * WINDOW_LEN;
    let end = if sample_count - start < WINDOW_LEN {
        sample_count
    } else {
        start + WINDOW_LEN
    };
    (start, end)
}

/// Why a band layout cannot be made.
#[derive(Debug, Clone, Copy, PartialEq, Eq, Structural)]
pub enum LayoutError {
    /// Bands would be zero columns wide.
    ZeroBandWidth,
    /// Too many columns to derive a band width from.
    TooManyColumns,
    /// The image height or the band count does not fit in `u32`.
    TooTall,
    /// Four bytes for each pixel do not fit in `usize`.
    TooLarge,
}

/// How a run of columns is wrapped into bands stacked top to bottom.
#[derive(Debug, Clone, Copy, PartialEq, Eq, Structural)]
pub struct BandLayout {
    /// Number of columns (analysis windows) to lay out.
    pub total_columns: u32,
    /// Width of the image: columns held by one band.
    pub columns_per_band: u32,
    /// Height of one band in rows.
    pub rows_per_band: u32,
    /// Number of bands stacked in the image.
    pub band_count: u32,
}

/// Band count for `total` columns, `per_band` to a band.
pub open spec fn band_count_spec(total: int, per_band: int) -> int {
    total / per_band + 1
}

/// Outcome of laying out `total` columns in bands `per_band` columns wide and
/// `rows` rows high.
pub open spec fn layout_spec(total: u32, per_band: u32, rows: u32) -> Result<BandLayout, LayoutError> {
    if per_band == 0 {
        Err(LayoutError::ZeroBandWidth)
    } else {
        let bands = band_count_spec(total as int, per_band as int);
        if bands > u32::MAX || rows * bands > u32::MAX {
            Err(LayoutError::TooTall)
        } else if per_band * (rows * bands) > usize::MAX / 4 {
            Err(LayoutError::TooLarge)
        } else {
            Ok(
                BandLayout {
                    total_columns: total,
                    columns_per_band: per_band,
                    rows_per_band: rows,
                    band_count: bands as u32,
                },
            )
        }
    }
}

impl BandLayout {
    pub open spec fn wf(self) -> bool {
        &&& self.columns_per_band > 0
        &&& self.band_count == band_count_spec(self.total_columns as int, self.columns_per_band as int)
        &&& self.rows_per_band * self.band_count <= u32::MAX
        &&& self.columns_per_band * (self.rows_per_band * self.band_count) <= usize::MAX / 4
    }

    /// Image column that column `column` is drawn in.
    pub open spec fn column_x(self, column: int) -> int {
        column % self.columns_per_band as int
    }

    /// Image row of row `row` of column `column`'s band.
    pub open spec fn column_y(self, column: int, row: int) -> int {
        (column / self.columns_per_band as int) * self.rows_per_band + row
    }

    /// Height of the whole image in rows.
    pub open spec fn height_spec(self) -> int {
        self.rows_per_band * self.band_count
    }

    /// Lays out `total_columns` columns in bands of `columns_per_band` columns
    /// and `rows_per_band` rows.
    pub fn with_band_width(total_columns: u32, columns_per_band: u32, rows_per_band: u32) -> (r:
        Result<BandLayout, LayoutError>)
        ensures
            r == layout_spec(total_columns, columns_per_band, rows_per_band),
            r is Ok ==> r->Ok_0.wf(),
    {
        if columns_per_band == 0 {
            return Err(LayoutError::ZeroBandWidth);
        }
        let bands: u64 = (total_columns / columns_per_band) as u64 + 1;
        if bands > u32::MAX as u64 {
            return Err(LayoutError::TooTall);
        }
        proof {
            assert(rows_per_band * bands <= u32::MAX * u32::MAX) by (nonlinear_arith)
                requires
                    rows_per_band <= u32::MAX,
                    bands <= u32::MAX,
            ;
        }
        let height: u64 = rows_per_band as u64 * bands;
        if height > u32::MAX as u64 {
            return Err(LayoutError::TooTall);
        }
        proof {
            assert(columns_per_band * height <= u32::MAX * u32::MAX) by (nonlinear_arith)
                requires
                    columns_per_band <= u32::MAX,
                    height <= u32::MAX,
            ;
        }
        if columns_per_band as u64 * height > usize::MAX as u64 / 4 {
            return Err(LayoutError::TooLarge);
        }
        Ok(
            BandLayout {
                total_columns,
                columns_per_band,
                rows_per_band,
                band_count: bands as u32,
            },
        )
    }

    /// Lays out `total_columns` columns in bands `rows_per_band` rows high,
    /// as wide as a quarter of `nearest_power_of_two_below(total_columns)`.
    pub fn new(total_columns: u32, rows_per_band: u32) -> (r: Result<BandLayout, LayoutError>)
        ensures
            total_columns > 0x8000_0000 ==> r == Err::<BandLayout, LayoutError>(
                LayoutError::TooManyColumns,
            ),
            total_columns <= 0x8000_0000 ==> total_columns <= 4 ==> r == Err::<
                BandLayout,
                LayoutError,
            >(LayoutError::ZeroBandWidth),
            5 <= total_columns <= 0x8000_0000 ==> exists|w: u32|
                {
                    &&& r == layout_spec(total_columns, w, rows_per_band)
                    &&& is_pow2(4 * w as int)
                    &&& total_columns <= 8 * w
                    &&& 4 * w < total_columns
                },
            r is Ok ==> r->Ok_0.wf(),
    {
        if total_columns > 0x8000_0000 {
            return Err(LayoutError::TooManyColumns);
        }
        let nearest = nearest_power_of_two_below(total_columns);
        let w = nearest / 4;
        proof {
            if nearest >= 4 {
                lemma_pow2_multiple_of_four(nearest as int);
            }
        }
        BandLayout::with_band_width(total_columns, w, rows_per_band)
    }

    /// Height of the whole image in rows.
    pub fn image_height(&self) -> (r: u32)
        requires
            self.wf(),
        ensures
            r == self.height_spec(),
    {
        self.rows_per_band * self.band_count
    }

    /// Band that column `column` is drawn in.
    pub fn band_of(&self, column: u32) -> (r: u32)
        requires
            self.wf(),
        ensures
            r == column / self.columns_per_band,
    {
        column / self.columns_per_band
    }

    /// Horizontal position of column `column` inside its band.
    pub fn x_of(&self, column: u32) -> (r: u32)
        requires
            self.wf(),
        ensures
            r == column % self.columns_per_band,
            r < self.columns_per_band,
    {
        column % self.columns_per_band
    }

    /// First image row of the band that column `column` is drawn in.
    pub fn row_offset_of(&self, column: u32) -> (r: u32)
        requires
            self.wf(),
            column < self.total_columns,
        ensures
            r == (column / self.columns_per_band) * self.rows_per_band,
            r + self.rows_per_band <= self.height_spec(),
    {
        proof {
            self.lemma_band_fits(column);
        }
        (column / self.columns_per_band) * self.rows_per_band
    }

    /// Every column's band lies inside the image.
    pub proof fn lemma_band_fits(self, column: u32)
        requires
            self.wf(),
            column < self.total_columns,
        ensures
            (column / self.columns_per_band) * self.rows_per_band + self.rows_per_band
                <= self.height_spec(),
    {
        let w = self.columns_per_band as int;
        let b = column as int / w;
        vstd::arithmetic::div_mod::lemma_div_is_ordered(column as int, self.total_columns as int, w);
        assert(b + 1 <= self.band_count);
        let rows = self.rows_per_band as int;
        let bands = self.band_count as int;
        assert(b * rows + rows <= rows * bands) by (nonlinear_arith)
            requires
                b + 1 <= bands,
                rows >= 0,
        ;
    }

    /// Two columns drawn at the same image column lie in different bands, the
    /// earlier one above.
    pub proof fn lemma_columns_apart(self, j: int, k: int, rj: int, rk: int)
        requires
            self.wf(),
            0 <= j < k,
            0 <= rj < self.rows_per_band,
            0 <= rk,
            self.column_x(j) == self.column_x(k),
        ensures
            self.column_y(j, rj) < self.column_y(k, rk),
    {
        let w = self.columns_per_band as int;
        let rows = self.rows_per_band as int;
        vstd::arithmetic::div_mod::lemma_div_is_ordered(j, k, w);
        vstd::arithmetic::div_mod::lemma_fundamental_div_mod(j, w);
        vstd::arithmetic::div_mod::lemma_fundamental_div_mod(k, w);
        let bj = j / w;
        let bk = k / w;
        assert(bj != bk);
        assert(bj * rows + rj < bk * rows + rk) by (nonlinear_arith)
            requires
                bj < bk,
                0 <= rj < rows,
                0 <= rk,
        ;
    }
}

/// Every row of every column's band is a pixel of the image.
pub proof fn lemma_column_in_image(layout: BandLayout, column: int, row: int)
    requires
        layout.wf(),
        0 <= column < layout.total_columns,
        0 <= row < layout.rows_per_band,
    ensures
        0 <= layout.column_x(column) < layout.columns_per_band,
        0 <= layout.column_y(column, row) < layout.height_spec(),
{
    layout.lemma_band_fits(column as u32);
    let b = column / layout.columns_per_band as int;
    assert(0 <= b * layout.rows_per_band) by (nonlinear_arith)
        requires
            0 <= b,
            0 <= layout.rows_per_band,
    ;
}

/// With `2 * w + 5` columns in bands `w > 5` wide there are three bands, and
/// column `w + 2` stands in band one at position two.
pub proof fn lemma_band_wrap(layout: BandLayout)
    requires
        layout.wf(),
        layout.columns_per_band > 5,
        layout.total_columns == 2 * layout.columns_per_band + 5,
    ensures
        layout.band_count == 3,
        (layout.columns_per_band + 2) / (layout.columns_per_band as int) == 1,
        (layout.columns_per_band + 2) % (layout.columns_per_band as int) == 2,
{
    let w = layout.columns_per_band as int;
    vstd::arithmetic::div_mod::lemma_fundamental_div_mod_converse(2 * w + 5, w, 2, 5);
    vstd::arithmetic::div_mod::lemma_fundamental_div_mod_converse(w + 2, w, 1, 2);
}

} // verus!
