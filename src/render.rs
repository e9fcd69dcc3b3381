use vstd::prelude::*;
use crate::column::{
    column_level, gray, log_column, strided_column, strided_pixel, strided_span, BinPlacement,
};
use crate::layout::{lemma_column_in_image, BandLayout};
use crate::raster::Raster;

verus! {

/// Pixel `(x, y)` of the image belongs to no row of any column's band.
pub open spec fn unpainted(layout: BandLayout, x: int, y: int) -> bool {
    forall|i: int, row: int|
        0 <= i < layout.total_columns && 0 <= row < layout.rows_per_band ==> !(x == layout.column_x(i)
            && y == #[trigger] layout.column_y(i, row))
}

/// Paints every column of `layout` on the logarithmic axis: column `i` is
/// filled from `frames[i]` down its whole band, at image column
/// `i % columns_per_band`, from row `(i / columns_per_band) * rows_per_band`.
pub fn render_log(layout: &BandLayout, frames: &Vec<Vec<BinPlacement>>) -> (img: Raster)
    requires
        layout.wf(),
        frames@.len() == layout.total_columns,
    ensures
        img.wf(),
        img.width == layout.columns_per_band,
        img.height == layout.height_spec(),
        forall|i: int, row: int|
            0 <= i < layout.total_columns && 0 <= row < layout.rows_per_band ==> #[trigger] img.pixel(
                layout.column_x(i),
                layout.column_y(i, row),
            ) == gray(column_level(frames@[i]@, row)),
        forall|x: int, y: int|
            0 <= x < img.width && 0 <= y < img.height && unpainted(*layout, x, y) ==> #[trigger] img.pixel(x, y)
                == [0u8, 0u8, 0u8, 0u8],
{
    let height = layout.image_height();
    let mut img = Raster::new(layout.columns_per_band, height);
    let mut i: u32 = 0;
    while i < layout.total_columns
        invariant
            layout.wf(),
            frames@.len() == layout.total_columns,
            i <= layout.total_columns,
            img.wf(),
            img.width == layout.columns_per_band,
            img.height == layout.height_spec(),
            forall|j: int, row: int|
                0 <= j < i && 0 <= row < layout.rows_per_band ==> #[trigger] img.pixel(
                    layout.column_x(j),
                    layout.column_y(j, row),
                ) == gray(column_level(frames@[j]@, row)),
            forall|x: int, y: int|
                0 <= x < img.width && 0 <= y < img.height && unpainted(*layout, x, y) ==> #[trigger] img.pixel(x, y)
                    == [0u8, 0u8, 0u8, 0u8],
        decreases layout.total_columns - i,
    {
        let col = log_column(&frames[i as usize], layout.rows_per_band);
        let x = layout.x_of(i);
        let y0 = layout.row_offset_of(i);
        let ghost before = img;
        img.put_column(x, y0, &col);
        proof {
            assert forall|xx: int, yy: int|
                0 <= xx < img.width && 0 <= yy < img.height && unpainted(*layout, xx, yy) implies #[trigger] img.pixel(xx, yy)
                    == [0u8, 0u8, 0u8, 0u8] by {
                if xx == x && y0 <= yy < y0 + col@.len() {
                    assert(layout.column_y(i as int, yy - y0) == yy);
                }
            }
            assert forall|j: int, row: int|
                0 <= j < i + 1 && 0 <= row < layout.rows_per_band implies #[trigger] img.pixel(
                    layout.column_x(j),
                    layout.column_y(j, row),
                ) == gray(column_level(frames@[j]@, row)) by {
                layout.lemma_band_fits(j as u32);
                assert(0 <= layout.column_y(j, row)) by (nonlinear_arith)
                    requires
                        0 <= j,
                        0 <= row,
                        layout.columns_per_band > 0,
                        layout.column_y(j, row) == (j / layout.columns_per_band as int) * layout.rows_per_band + row,
                ;
                if j < i && layout.column_x(j) == x {
                    layout.lemma_columns_apart(j, i as int, row, 0);
                }
            }
        }
        i = i + 1;
    }
    img
}

/// Paints every column of `layout` on the linear axis: column `i`'s pixel
/// `k` of `strided_column(frames[i])` stands on row `k` of its band, and the
/// band's remaining rows in that column stay zero.
pub fn render_strided(layout: &BandLayout, frames: &Vec<Vec<u8>>) -> (img: Raster)
    requires
        layout.wf(),
        frames@.len() == layout.total_columns,
    ensures
        img.wf(),
        img.width == layout.columns_per_band,
        img.height == layout.height_spec(),
        forall|i: int, row: int|
            0 <= i < layout.total_columns && 0 <= row < layout.rows_per_band ==> #[trigger] img.pixel(
                layout.column_x(i),
                layout.column_y(i, row),
            ) == if row < (strided_span(frames@[i]@, layout.rows_per_band) + 3) / 4 {
                strided_pixel(frames@[i]@, row)
            } else {
                [0u8, 0u8, 0u8, 0u8]
            },
        forall|x: int, y: int|
            0 <= x < img.width && 0 <= y < img.height && unpainted(*layout, x, y) ==> #[trigger] img.pixel(x, y)
                == [0u8, 0u8, 0u8, 0u8],
{
    let height = layout.image_height();
    let mut img = Raster::new(layout.columns_per_band, height);
    proof {
        assert forall|j: int, row: int|
            0 <= j < layout.total_columns && 0 <= row < layout.rows_per_band implies #[trigger] img.pixel(
                layout.column_x(j),
                layout.column_y(j, row),
            ) == [0u8, 0u8, 0u8, 0u8] by {
            lemma_column_in_image(*layout, j, row);
        }
    }
    let mut i: u32 = 0;
    while i < layout.total_columns
        invariant
            layout.wf(),
            frames@.len() == layout.total_columns,
            i <= layout.total_columns,
            img.wf(),
            img.width == layout.columns_per_band,
            img.height == layout.height_spec(),
            forall|j: int, row: int|
                0 <= j < i && 0 <= row < layout.rows_per_band ==> #[trigger] img.pixel(
                    layout.column_x(j),
                    layout.column_y(j, row),
                ) == if row < (strided_span(frames@[j]@, layout.rows_per_band) + 3) / 4 {
                    strided_pixel(frames@[j]@, row)
                } else {
                    [0u8, 0u8, 0u8, 0u8]
                },
            forall|j: int, row: int|
                i <= j < layout.total_columns && 0 <= row < layout.rows_per_band ==> #[trigger] img.pixel(
                    layout.column_x(j),
                    layout.column_y(j, row),
                ) == [0u8, 0u8, 0u8, 0u8],
            forall|x: int, y: int|
                0 <= x < img.width && 0 <= y < img.height && unpainted(*layout, x, y) ==> #[trigger] img.pixel(x, y)
                    == [0u8, 0u8, 0u8, 0u8],
        decreases layout.total_columns - i,
    {
        let col = strided_column(&frames[i as usize], layout.rows_per_band);
        let x = layout.x_of(i);
        let y0 = layout.row_offset_of(i);
        let ghost before = img;
        assert(col@.len() <= layout.rows_per_band);
        img.put_column(x, y0, &col);
        proof {
            assert forall|xx: int, yy: int|
                0 <= xx < img.width && 0 <= yy < img.height && unpainted(*layout, xx, yy) implies #[trigger] img.pixel(xx, yy)
                    == [0u8, 0u8, 0u8, 0u8] by {
                if xx == x && y0 <= yy < y0 + col@.len() {
                    assert(layout.column_y(i as int, yy - y0) == yy);
                }
            }
            let rows = layout.rows_per_band as int;
            assert forall|j: int, row: int|
                0 <= j < i + 1 && 0 <= row < rows implies #[trigger] img.pixel(
                    layout.column_x(j),
                    layout.column_y(j, row),
                ) == if row < (strided_span(frames@[j]@, layout.rows_per_band) + 3) / 4 {
                    strided_pixel(frames@[j]@, row)
                } else {
                    [0u8, 0u8, 0u8, 0u8]
                } by {
                lemma_column_in_image(*layout, j, row);
                if j < i && layout.column_x(j) == x {
                    layout.lemma_columns_apart(j, i as int, row, 0);
                }
            }
            assert forall|j: int, row: int|
                i + 1 <= j < layout.total_columns && 0 <= row < rows implies #[trigger] img.pixel(
                    layout.column_x(j),
                    layout.column_y(j, row),
                ) == [0u8, 0u8, 0u8, 0u8] by {
                lemma_column_in_image(*layout, j, row);
                if layout.column_x(j) == x {
                    layout.lemma_columns_apart(i as int, j, rows - 1, row);
                }
            }
        }
        i = i + 1;
    }
    img
}

} // verus!
