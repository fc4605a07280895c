use domino_counter::pixel::{get_range_bounds, is_black_pixel, is_white_pixel};

#[test]
fn lib_test_is_black_pixel() {
    assert_eq!(is_black_pixel((0, 0, 0), None), true);
    assert_eq!(is_black_pixel((40, 41, 39), Some(41)), false);
    assert_eq!(is_black_pixel((39, 20, 39), Some(40)), true);
}

#[test]
fn lib_test_is_white_pixel() {
    assert_eq!(is_white_pixel((180, 180, 180), Some(160)), true);
    assert_eq!(is_white_pixel((200, 0, 0), Some(199)), false);
    assert_eq!(is_white_pixel((100, 100, 100), Some(90)), true);
    assert_eq!(is_white_pixel((255, 255, 255), None), true);
}

#[test]
fn lib_test_rounding() {
    assert!((8.1 as f32).round() as i32 == 8);
    assert!((7.9 as f32).round() as i32 == 8);
}

#[test]
fn main_test_is_black_pixel() {
    assert_eq!(is_black_pixel((0, 0, 0), None), true);
    assert_eq!(is_black_pixel((40, 41, 39), Some(41)), false);
    assert_eq!(is_black_pixel((39, 20, 39), Some(40)), true);
}

#[test]
fn main_test_is_white_pixel() {
    assert_eq!(is_white_pixel((180, 180, 180), Some(160)), true);
    assert_eq!(is_white_pixel((200, 0, 0), Some(199)), false);
    assert_eq!(is_white_pixel((100, 100, 100), Some(90)), true);
    assert_eq!(is_white_pixel((255, 255, 255), None), true);
}

#[test]
fn main_test_rounding() {
    assert!((8.1 as f32).round() as i32 == 8);
    assert!((7.9 as f32).round() as i32 == 8);
}

#[test]
fn default_thresholds_are_strict() {
    assert!(!is_white_pixel((180, 181, 181), None));
    assert!(is_white_pixel((181, 181, 181), None));
    assert!(!is_black_pixel((60, 0, 0), None));
    assert!(is_black_pixel((59, 59, 59), None));
}

#[test]
fn range_bounds_widen_inside_the_channel() {
    let b = get_range_bounds(&(40..100), 10);
    assert_eq!((b.start, b.end), (30, 110));
}

#[test]
fn range_bounds_clamp_at_both_ends() {
    let low = get_range_bounds(&(0..5), 10);
    assert_eq!((low.start, low.end), (0, 15));
    let high = get_range_bounds(&(250..255), 10);
    assert_eq!((high.start, high.end), (240, 255));
}

#[test]
fn range_bounds_fall_back_on_the_extremes() {
    // A lowered start of exactly 255 is not below 255, so it falls back to 0.
    let full = get_range_bounds(&(255..255), 0);
    assert_eq!((full.start, full.end), (0, 255));
    // A lowered start of 0 and a raised end of 0 fall back to 0 and 255.
    let empty = get_range_bounds(&(5..0), 5);
    assert_eq!((empty.start, empty.end), (0, 5));
    let zero = get_range_bounds(&(0..0), 0);
    assert_eq!((zero.start, zero.end), (0, 255));
}

#[test]
fn widened_bounds_keep_every_value_of_the_range() {
    for start in [0u8, 3, 40, 200, 254] {
        for end in [start, start.saturating_add(1), 255] {
            let b = get_range_bounds(&(start..end), 10);
            for v in start..end {
                assert!(b.start <= v && v < b.end);
            }
        }
    }
}
