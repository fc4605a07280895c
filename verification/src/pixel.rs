//! Classification of single pixels and of colour channel ranges.

use vstd::prelude::*;
use core::ops::Range;

verus! {

/// The threshold above which every channel of a pixel must lie for it to count as white.
pub const DEFAULT_WHITE_THRESHOLD: u8 = 180;

/// The threshold below which every channel of a pixel must lie for it to count as black.
pub const DEFAULT_BLACK_THRESHOLD: u8 = 60;

/// The threshold in effect: the given one, or the default.
pub open spec fn threshold_or(threshold: Option<u8>, default: u8) -> u8 {
    match threshold {
        Some(t) => t,
        None => default,
    }
}

/// A pixel is white when each of its three channels exceeds the threshold.
pub open spec fn white_spec(rgb: (u8, u8, u8), threshold: Option<u8>) -> bool {
    let t = threshold_or(threshold, DEFAULT_WHITE_THRESHOLD);
    rgb.0 > t && rgb.1 > t && rgb.2 > t
}

/// A pixel is black when each of its three channels is below the threshold.
pub open spec fn black_spec(rgb: (u8, u8, u8), threshold: Option<u8>) -> bool {
    let t = threshold_or(threshold, DEFAULT_BLACK_THRESHOLD);
    rgb.0 < t && rgb.1 < t && rgb.2 < t
}

/// Whether every channel of `rgb` lies above `threshold` (180 when none is given).
pub fn is_white_pixel(rgb: (u8, u8, u8), threshold: Option<u8>) -> (white: bool)
    ensures
        white == white_spec(rgb, threshold),
{
    let (r, g, b) = rgb;
    let white_pixel_threshold = match threshold {
        Some(t) => t,
        None => DEFAULT_WHITE_THRESHOLD,
    };
    r > white_pixel_threshold && g > white_pixel_threshold && b > white_pixel_threshold
}

/// Whether every channel of `rgb` lies below `threshold` (60 when none is given).
pub fn is_black_pixel(rgb: (u8, u8, u8), threshold: Option<u8>) -> (black: bool)
    ensures
        black == black_spec(rgb, threshold),
{
    let (r, g, b) = rgb;
    let black_pixel_threshold = match threshold {
        Some(t) => t,
        None => DEFAULT_BLACK_THRESHOLD,
    };
    r < black_pixel_threshold && g < black_pixel_threshold && b < black_pixel_threshold
}

/// A pixel is white exactly when all three of its channels, red, green and blue,
/// exceed the threshold: 180 when none is given, the given one otherwise.
pub proof fn lemma_white_needs_every_channel(rgb: (u8, u8, u8), threshold: Option<u8>)
    ensures
        threshold is None ==> (white_spec(rgb, threshold) <==> rgb.0 > 180 && rgb.1 > 180 && rgb.2 > 180),
        forall|t: u8| threshold == Some(t) ==> (white_spec(rgb, threshold) <==> rgb.0 > t && rgb.1 > t && rgb.2 > t),
        white_spec(rgb, threshold) ==> rgb.0 > 0 && rgb.1 > 0 && rgb.2 > 0,
{
}

/// A pixel is black exactly when all three of its channels, red, green and blue,
/// are below the threshold: 60 when none is given, the given one otherwise.
pub proof fn lemma_black_needs_every_channel(rgb: (u8, u8, u8), threshold: Option<u8>)
    ensures
        threshold is None ==> (black_spec(rgb, threshold) <==> rgb.0 < 60 && rgb.1 < 60 && rgb.2 < 60),
        forall|t: u8| threshold == Some(t) ==> (black_spec(rgb, threshold) <==> rgb.0 < t && rgb.1 < t && rgb.2 < t),
        black_spec(rgb, threshold) ==> rgb.0 < 255 && rgb.1 < 255 && rgb.2 < 255,
{
}

/// With the default thresholds no pixel is both white and black.
pub proof fn lemma_white_and_black_exclusive(rgb: (u8, u8, u8))
    ensures
        !(white_spec(rgb, None) && black_spec(rgb, None)),
{
}

/// The lower bound of a channel range widened by `leeway`: the lowered start when
/// it lies strictly between 0 and 255, and 0 otherwise.
pub open spec fn widened_start(start: u8, leeway: u8) -> u8 {
    let lowered = start - leeway;
    if 0 < lowered && lowered < 255 { lowered as u8 } else { 0 }
}

/// The upper bound of a channel range widened by `leeway`: the raised end when it
/// lies strictly between 0 and 255, and 255 otherwise.
pub open spec fn widened_end(end: u8, leeway: u8) -> u8 {
    let raised = end + leeway;
    if 0 < raised && raised < 255 { raised as u8 } else { 255 }
}

/// Widens a channel range by `leeway` on both sides, staying within the channel's values.
pub fn get_range_bounds(range: &Range<u8>, leeway: u8) -> (bounds: Range<u8>)
    ensures
        bounds.start == widened_start(range.start, leeway),
        bounds.end == widened_end(range.end, leeway),
        bounds.start <= range.start,
        range.end <= bounds.end,
{
    let lowered: i16 = range.start as i16 - leeway as i16;
    let range_start = if lowered > u8::MIN as i16 && lowered < u8::MAX as i16 {
        range.start - leeway
    } else {
        0
    };
    let raised: i16 = range.end as i16 + leeway as i16;
    let range_end = if raised < u8::MAX as i16 && raised > u8::MIN as i16 {
        range.end + leeway
    } else {
        255
    };
    Range { start: range_start, end: range_end }
}

/// Whether `value` lies in the half-open range.
pub open spec fn in_range(range: Range<u8>, value: u8) -> bool {
    range.start <= value && value < range.end
}

/// Widening never loses a value: whatever lies in a range lies in its widened bounds.
pub proof fn lemma_widening_keeps_values(range: Range<u8>, leeway: u8, value: u8)
    requires
        in_range(range, value),
    ensures
        in_range(
            Range { start: widened_start(range.start, leeway), end: widened_end(range.end, leeway) },
            value,
        ),
{
}

} // verus!
