use spectrograph::column::{log_column, strided_column, BinPlacement};
use spectrograph::decode::{next_action, DecodeAction, DecodeEvent};
use spectrograph::layout::{total_columns, window_range, BandLayout, LayoutError, WINDOW_LEN};
use spectrograph::power::{nearest_power_of_two_above, nearest_power_of_two_below};
use spectrograph::raster::Raster;
use spectrograph::render::{render_log, render_strided};

fn mapped(row: u32, level: u8) -> BinPlacement {
    BinPlacement::Mapped { row, level }
}

fn levels(col: &[[u8; 4]]) -> Vec<u8> {
    col.iter()
        .map(|p| {
            assert!(p.iter().all(|&c| c == p[0]));
            p[0]
        })
        .collect()
}

#[test]
fn power_below_boundaries() {
    assert_eq!(nearest_power_of_two_below(0), 1);
    assert_eq!(nearest_power_of_two_below(1), 1);
    assert_eq!(nearest_power_of_two_below(2), 1);
    assert_eq!(nearest_power_of_two_below(3), 2);
    assert_eq!(nearest_power_of_two_below(8), 4);
    assert_eq!(nearest_power_of_two_below(9), 8);
    assert_eq!(nearest_power_of_two_below(10), 8);
    assert_eq!(nearest_power_of_two_below(16), 8);
    assert_eq!(nearest_power_of_two_below(0x8000_0000), 0x4000_0000);
}

#[test]
fn power_above_boundaries() {
    assert_eq!(nearest_power_of_two_above(0), 1);
    assert_eq!(nearest_power_of_two_above(1), 1);
    assert_eq!(nearest_power_of_two_above(2), 2);
    assert_eq!(nearest_power_of_two_above(3), 4);
    assert_eq!(nearest_power_of_two_above(8), 8);
    assert_eq!(nearest_power_of_two_above(9), 16);
    assert_eq!(nearest_power_of_two_above(0x8000_0000), 0x8000_0000);
}

#[test]
fn windows_drop_partial_tail() {
    assert_eq!(WINDOW_LEN, 2048);
    assert_eq!(total_columns(0), 0);
    assert_eq!(total_columns(2047), 0);
    assert_eq!(total_columns(2048 * 10), 10);
    assert_eq!(total_columns(2048 * 10 + 100), 10);
    assert_eq!(window_range(0, 2048 * 10), (0, 2048));
    assert_eq!(window_range(9, 2048 * 10), (9 * 2048, 10 * 2048));
    assert_eq!(window_range(10, 2048 * 10 + 100), (10 * 2048, 10 * 2048 + 100));
}

#[test]
fn band_wrap_two_w_plus_five() {
    let w = 8;
    let layout = BandLayout::with_band_width(2 * w + 5, w, 16).unwrap();
    assert_eq!(layout.band_count, 3);
    assert_eq!(layout.band_of(w + 2), 1);
    assert_eq!(layout.x_of(w + 2), 2);
    assert_eq!(layout.row_offset_of(w + 2), 16);
    assert_eq!(layout.image_height(), 48);
}

#[test]
fn ten_windows_layout() {
    let layout = BandLayout::new(10, 64).unwrap();
    assert_eq!(layout.columns_per_band, 2);
    assert_eq!(layout.band_count, 6);
    assert_eq!(layout.image_height(), 64 * 6);
    assert_eq!(layout.band_of(9), 4);
    assert_eq!(layout.x_of(9), 1);
}

#[test]
fn layout_errors() {
    assert_eq!(BandLayout::new(4, 64), Err(LayoutError::ZeroBandWidth));
    assert_eq!(BandLayout::new(0, 64), Err(LayoutError::ZeroBandWidth));
    assert_eq!(BandLayout::new(0x8000_0001, 64), Err(LayoutError::TooManyColumns));
    assert_eq!(BandLayout::with_band_width(3, 0, 64), Err(LayoutError::ZeroBandWidth));
    assert_eq!(BandLayout::with_band_width(10, 1, u32::MAX), Err(LayoutError::TooTall));
    assert_eq!(BandLayout::with_band_width(u32::MAX, 1, 1), Err(LayoutError::TooTall));
    let five = BandLayout::new(5, 3).unwrap();
    assert_eq!(five.columns_per_band, 1);
    assert_eq!(five.band_count, 6);
}

#[test]
fn layout_too_large_for_memory() {
    let r = BandLayout::with_band_width(u32::MAX - 1, u32::MAX - 1, u32::MAX / 2);
    if usize::MAX as u64 / 4 < (u32::MAX as u64 - 1) * (u32::MAX as u64 / 2 * 2) {
        assert_eq!(r, Err(LayoutError::TooLarge));
    }
}

#[test]
fn log_column_step_hold() {
    let bins = vec![mapped(2, 10), mapped(3, 20), mapped(3, 30), mapped(6, 40)];
    let col = log_column(&bins, 8);
    assert_eq!(levels(&col), vec![0, 0, 10, 30, 30, 30, 40, 40]);
}

#[test]
fn log_column_empty_frame_is_zero() {
    let col = log_column(&Vec::new(), 5);
    assert_eq!(levels(&col), vec![0; 5]);
}

#[test]
fn log_column_row_past_band_is_clipped() {
    let bins = vec![mapped(1, 7), mapped(9, 200)];
    let col = log_column(&bins, 4);
    assert_eq!(levels(&col), vec![0, 7, 7, 7]);
}

#[test]
fn log_column_bin_at_band_bottom() {
    let bins = vec![mapped(0, 3), mapped(4, 99)];
    let col = log_column(&bins, 4);
    assert_eq!(levels(&col), vec![3, 3, 3, 3]);
}

#[test]
fn out_of_range_bin_keeps_carried_level() {
    let with_skip = vec![mapped(1, 50), BinPlacement::Skipped, mapped(4, 60)];
    let without = vec![mapped(1, 50), mapped(4, 60)];
    let a = log_column(&with_skip, 6);
    let b = log_column(&without, 6);
    assert_eq!(a, b);
    assert_eq!(levels(&a), vec![0, 50, 50, 50, 60, 60]);
    let only_skips = vec![BinPlacement::Skipped, BinPlacement::Skipped];
    assert_eq!(levels(&log_column(&only_skips, 3)), vec![0, 0, 0]);
}

#[test]
fn ascending_rows_give_step_function() {
    let bins = vec![mapped(0, 1), mapped(2, 2), mapped(2, 3), mapped(5, 4)];
    let col = levels(&log_column(&bins, 7));
    assert_eq!(col, vec![1, 1, 3, 3, 3, 4, 4]);
    for pair in col.windows(2) {
        assert!(pair[0] <= pair[1]);
    }
}

#[test]
fn column_fill_paints_every_row() {
    let sentinel = [7u8, 7, 7, 7];
    let mut img = Raster {
        width: 2,
        height: 12,
        pixels: vec![sentinel; 24],
    };
    let bins = vec![BinPlacement::Skipped, mapped(3, 100), mapped(5, 120)];
    let col = log_column(&bins, 6);
    img.put_column(1, 6, &col);
    for y in 6..12 {
        assert_ne!(img.get_pixel(1, y), sentinel);
    }
    for y in 0..6 {
        assert_eq!(img.get_pixel(1, y), sentinel);
    }
    for y in 0..12 {
        assert_eq!(img.get_pixel(0, y), sentinel);
    }
    assert_eq!(img.get_pixel(1, 8), [0, 0, 0, 0]);
    assert_eq!(img.get_pixel(1, 9), [100, 100, 100, 100]);
    assert_eq!(img.get_pixel(1, 11), [120, 120, 120, 120]);
}

#[test]
fn strided_packs_four_bins() {
    let lv: Vec<u8> = (1..=10).collect();
    let col = strided_column(&lv, 40);
    assert_eq!(col, vec![[1, 2, 3, 4], [5, 6, 7, 8], [9, 10, 0, 0]]);
}

#[test]
fn strided_stops_at_half_band() {
    let lv: Vec<u8> = (1..=20).collect();
    let col = strided_column(&lv, 10);
    assert_eq!(col, vec![[1, 2, 3, 4], [5, 6, 7, 8]]);
    assert_eq!(strided_column(&Vec::new(), 10), Vec::<[u8; 4]>::new());
}

#[test]
fn render_log_places_columns_in_bands() {
    let layout = BandLayout::with_band_width(5, 2, 4).unwrap();
    let frames: Vec<Vec<BinPlacement>> = (0..5u8).map(|i| vec![mapped(1, 10 * (i + 1))]).collect();
    let img = render_log(&layout, &frames);
    assert_eq!((img.width, img.height), (2, 12));
    for i in 0..5u32 {
        let x = i % 2;
        let y0 = (i / 2) * 4;
        let v = 10 * (i as u8 + 1);
        assert_eq!(img.get_pixel(x, y0), [0, 0, 0, 0]);
        for r in 1..4 {
            assert_eq!(img.get_pixel(x, y0 + r), [v, v, v, v]);
        }
    }
    assert_eq!(img.get_pixel(1, 9), [0, 0, 0, 0]);
    let bytes = img.to_rgba_bytes();
    assert_eq!(bytes.len(), 2 * 12 * 4);
    assert_eq!(&bytes[(1 * 2 + 1) * 4..(1 * 2 + 1) * 4 + 4], &[20, 20, 20, 20]);
}

#[test]
fn render_strided_leaves_rest_zero() {
    let layout = BandLayout::with_band_width(3, 2, 8).unwrap();
    let frames: Vec<Vec<u8>> = vec![vec![1, 2, 3, 4, 5], vec![9; 2], vec![]];
    let img = render_strided(&layout, &frames);
    assert_eq!((img.width, img.height), (2, 16));
    assert_eq!(img.get_pixel(0, 0), [1, 2, 3, 4]);
    assert_eq!(img.get_pixel(0, 1), [0, 0, 0, 0]);
    assert_eq!(img.get_pixel(1, 0), [9, 9, 0, 0]);
    assert_eq!(img.get_pixel(0, 8), [0, 0, 0, 0]);
}

#[test]
fn new_raster_is_zero() {
    let img = Raster::new(3, 2);
    assert_eq!(img.pixels.len(), 6);
    assert!(img.to_rgba_bytes().iter().all(|&b| b == 0));
}

#[test]
fn decode_policy() {
    assert_eq!(next_action(DecodeEvent::Decoded), DecodeAction::Append);
    assert_eq!(next_action(DecodeEvent::OtherTrack), DecodeAction::SkipPacket);
    assert_eq!(next_action(DecodeEvent::TransientError), DecodeAction::SkipPacket);
    assert_eq!(next_action(DecodeEvent::FatalError), DecodeAction::Stop);
    assert_eq!(next_action(DecodeEvent::NoPacket), DecodeAction::Stop);
}
