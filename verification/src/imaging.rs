//! The operations of the `image` and `imageproc` crates that the analysis calls,
//! each behind a wrapper whose contract states what the crate's source does.

use vstd::prelude::*;
use crate::raster::{GrayImage, RgbImage, MAX_SIDE};

verus! {

/// The intensity image that `image`'s grayscale conversion computes from an RGB
/// buffer (a weighted sum of the channels in floating point, truncated to a byte).
pub uninterp spec fn luma_image(rgb: Seq<u8>, width: u32, height: u32) -> Seq<u8>;

/// The binary edge image that `imageproc`'s Canny detector computes from an
/// intensity buffer with the given hysteresis thresholds.
pub uninterp spec fn canny_image(gray: Seq<u8>, width: u32, height: u32, low: u8, high: u8) -> Seq<u8>;

/// The BGRA buffer that `imageproc`'s median filter computes from a BGRA buffer,
/// with the given radius in both directions.
pub uninterp spec fn median_filtered_image(bgra: Seq<u8>, width: u32, height: u32, radius: u32) -> Seq<u8>;

/// The BGRA conversion of an RGB buffer, as `image`'s `to_bgra8` makes it: the
/// channels reversed and an opaque alpha channel added.
pub open spec fn bgra_of(rgb: Seq<u8>) -> Seq<u8> {
    Seq::new(
        rgb.len() / 3 * 4,
        |i: int|
            {
                let k = i / 4;
                let c = i % 4;
                if c == 0 {
                    rgb[3 * k + 2]
                } else if c == 1 {
                    rgb[3 * k + 1]
                } else if c == 2 {
                    rgb[3 * k]
                } else {
                    255u8
                }
            },
    )
}

/// The median-filtered BGRA conversion of an RGB buffer.
pub open spec fn median_bgra_image(rgb: Seq<u8>, width: u32, height: u32, radius: u32) -> Seq<u8> {
    median_filtered_image(bgra_of(rgb), width, height, radius)
}

/// The RGB buffer after `imageproc` has drawn a line segment between the two points
/// in the given colour (converted to RGB by dropping its alpha channel).
pub uninterp spec fn line_image(
    rgb: Seq<u8>,
    width: u32,
    height: u32,
    start_x: u32,
    start_y: u32,
    end_x: u32,
    end_y: u32,
    color: (u8, u8, u8, u8),
) -> Seq<u8>;

/// The number of pixels among the first `n` of a four-channel buffer whose channel
/// `channel` holds `value`.
pub open spec fn channel_value_count(bgra: Seq<u8>, n: int, channel: int, value: int) -> nat
    decreases n,
{
    if n <= 0 {
        0
    } else {
        channel_value_count(bgra, n - 1, channel, value) + if bgra[4 * (n - 1) + channel] == value {
            1nat
        } else {
            0nat
        }
    }
}

/// `rotated` is `image` turned a quarter turn counter-clockwise.
pub open spec fn is_quarter_turn(rotated: RgbImage, image: RgbImage) -> bool {
    &&& rotated.wf()
    &&& rotated.width == image.height
    &&& rotated.height == image.width
    &&& forall|x: int, y: int|
        0 <= x < image.width && 0 <= y < image.height ==> #[trigger] image.pixel(x, y) == rotated.pixel(
            y,
            image.width - 1 - x,
        )
}

/// Calls `image::imageops::rotate270`: the image turned a quarter turn
/// counter-clockwise. The pixel at column `x`, row `y` of the input lands at
/// column `y`, row `width - 1 - x` of the output, whose dimensions are swapped.
#[verifier::external_body]
pub(crate) fn rotate270(image: &RgbImage) -> (rotated: RgbImage)
    requires
        image.wf(),
    ensures
        is_quarter_turn(rotated, *image),
{
    let buffer = image::RgbImage::from_raw(image.width, image.height, image.data.clone()).unwrap();
    let out = image::imageops::rotate270(&buffer);
    RgbImage { width: out.width(), height: out.height(), data: out.into_raw() }
}

/// The left or top offset of a crop, clamped to the image.
pub open spec fn clamp_offset(offset: u32, size: u32) -> u32 {
    if offset < size { offset } else { size }
}

/// The width or height of a crop, clamped to what remains of the image after the offset.
pub open spec fn clamp_extent(offset: u32, extent: u32, size: u32) -> u32 {
    let start = clamp_offset(offset, size);
    if extent < size - start { extent } else { (size - start) as u32 }
}

/// `piece` is the rectangle of `image` at (`x`, `y`) of the requested size,
/// clamped to the image.
pub open spec fn is_crop(piece: RgbImage, image: RgbImage, x: u32, y: u32, width: u32, height: u32) -> bool {
    &&& piece.wf()
    &&& piece.width == clamp_extent(x, width, image.width)
    &&& piece.height == clamp_extent(y, height, image.height)
    &&& forall|i: int, j: int|
        0 <= i < piece.width && 0 <= j < piece.height ==> #[trigger] piece.pixel(i, j) == image.pixel(
            i + clamp_offset(x, image.width),
            j + clamp_offset(y, image.height),
        )
}

/// Calls `image::imageops::crop_imm` and copies the view out: the rectangle at
/// (`x`, `y`) of the requested size, first clamped to the image as the crate's
/// `crop_dimms` does.
#[verifier::external_body]
pub(crate) fn crop(image: &RgbImage, x: u32, y: u32, width: u32, height: u32) -> (piece: RgbImage)
    requires
        image.wf(),
    ensures
        is_crop(piece, *image, x, y, width, height),
{
    let buffer = image::RgbImage::from_raw(image.width, image.height, image.data.clone()).unwrap();
    let out = image::imageops::crop_imm(&buffer, x, y, width, height).to_image();
    RgbImage { width: out.width(), height: out.height(), data: out.into_raw() }
}

/// Calls `image::imageops::grayscale`; the result has the input's dimensions.
#[verifier::external_body]
pub(crate) fn grayscale(image: &RgbImage) -> (gray: GrayImage)
    requires
        image.wf(),
    ensures
        gray.wf(),
        gray.width == image.width,
        gray.height == image.height,
        gray.data@ == luma_image(image.data@, image.width, image.height),
{
    let buffer = image::RgbImage::from_raw(image.width, image.height, image.data.clone()).unwrap();
    let out = image::imageops::grayscale(&buffer);
    GrayImage { width: out.width(), height: out.height(), data: out.into_raw() }
}

/// Calls `imageproc::edges::canny` with the thresholds converted to floating point. The crate asserts
/// `low <= high` and loops over `1..height - 1` and `1..width - 1`, so both
/// dimensions must be at least one; a positive low threshold keeps its edge tracing
/// off the border. It multiplies width by height in `u32` and its blur converts
/// both sides to `i32`. Its documentation promises a binary image: every value is 0 or 255.
#[verifier::external_body]
pub(crate) fn canny(gray: &GrayImage, low: u8, high: u8) -> (edges: GrayImage)
    requires
        gray.wf(),
        gray.fits(),
        gray.width >= 1,
        gray.height >= 1,
        gray.width * gray.height <= u32::MAX,
        1 <= low <= high,
    ensures
        edges.wf(),
        edges.width == gray.width,
        edges.height == gray.height,
        edges.data@ == canny_image(gray.data@, gray.width, gray.height, low, high),
        forall|i: int| 0 <= i < edges.data@.len() ==> #[trigger] edges.data@[i] == 0 || edges.data@[i] == 255,
{
    let buffer = image::GrayImage::from_raw(gray.width, gray.height, gray.data.clone()).unwrap();
    let out = imageproc::edges::canny(&buffer, low.into(), high.into());
    GrayImage { width: out.width(), height: out.height(), data: out.into_raw() }
}

/// The image in BGRA, four bytes per pixel.
pub fn to_bgra8(image: &RgbImage) -> (bgra: Vec<u8>)
    requires
        image.wf(),
    ensures
        bgra@ == bgra_of(image.data@),
        bgra@.len() == 4 * image.pixel_count(),
{
    let total = image.data.len();
    let n = image.width as usize * image.height as usize;
    let mut bgra: Vec<u8> = Vec::new();
    let mut k: usize = 0;
    while k < n
        invariant
            k <= n,
            n == image.pixel_count(),
            total == image.data@.len(),
            image.wf(),
            bgra@.len() == 4 * k,
            forall|i: int| 0 <= i < 4 * k ==> #[trigger] bgra@[i] == bgra_of(image.data@)[i],
        decreases n - k,
    {
        let ghost prev = bgra@;
        bgra.push(image.data[3 * k + 2]);
        bgra.push(image.data[3 * k + 1]);
        bgra.push(image.data[3 * k]);
        bgra.push(255);
        proof {
            assert forall|i: int| 0 <= i < 4 * (k + 1) implies #[trigger] bgra@[i] == bgra_of(image.data@)[i] by {
                if i < 4 * k {
                    assert(bgra@[i] == prev[i]);
                } else {
                    assert(i / 4 == k);
                }
            }
        }
        k = k + 1;
    }
    proof {
        assert(bgra@ =~= bgra_of(image.data@));
    }
    bgra
}

/// Calls `imageproc::filter::median_filter` on a BGRA buffer with `radius` in both
/// directions; the result has the input's dimensions. The crate computes
/// `(2 * radius + 1)^2` in `u32`, and converts the sides and the radius to `i32`
/// to step the window past a pixel.
#[verifier::external_body]
fn median_filter(bgra: &Vec<u8>, width: u32, height: u32, radius: u32) -> (filtered: Vec<u8>)
    requires
        bgra@.len() == 4 * (width * height),
        width < MAX_SIDE,
        height < MAX_SIDE,
        radius <= 1000,
    ensures
        filtered@.len() == bgra@.len(),
        filtered@ == median_filtered_image(bgra@, width, height, radius),
{
    let buffer = image::ImageBuffer::<image::Bgra<u8>, Vec<u8>>::from_raw(width, height, bgra.clone()).unwrap();
    imageproc::filter::median_filter(&buffer, radius, radius).into_raw()
}

/// The image converted to BGRA and median-filtered with `radius` in both directions.
pub(crate) fn median_filter_bgra(image: &RgbImage, radius: u32) -> (filtered: Vec<u8>)
    requires
        image.wf(),
        image.fits(),
        radius <= 1000,
    ensures
        filtered@.len() == 4 * image.pixel_count(),
        filtered@ == median_bgra_image(image.data@, image.width, image.height, radius),
{
    let bgra = to_bgra8(image);
    median_filter(&bgra, image.width, image.height, radius)
}

/// The median-filtered BGRA buffer of an image.
pub fn median_filtered(image: &RgbImage, radius: u32) -> (filtered: Vec<u8>)
    requires
        image.wf(),
        image.fits(),
        radius <= 1000,
    ensures
        filtered@.len() == 4 * image.pixel_count(),
        filtered@ == median_bgra_image(image.data@, image.width, image.height, radius),
{
    median_filter_bgra(image, radius)
}

/// Calls `imageproc::stats::histogram` on a BGRA buffer: four histograms of 256
/// bins, bin `v` of histogram `c` counting the pixels whose channel `c` is `v`.
/// The crate counts in `u32`.
#[verifier::external_body]
pub(crate) fn channel_histograms(bgra: &Vec<u8>, width: u32, height: u32) -> (histograms: Vec<Vec<u32>>)
    requires
        bgra@.len() == 4 * (width * height),
        width * height <= u32::MAX,
    ensures
        histograms@.len() == 4,
        forall|c: int| 0 <= c < 4 ==> #[trigger] histograms@[c]@.len() == 256,
        forall|c: int, v: int|
            0 <= c < 4 && 0 <= v < 256 ==> #[trigger] histograms@[c]@[v] == channel_value_count(
                bgra@,
                width * height,
                c,
                v,
            ),
{
    let buffer = image::ImageBuffer::<image::Bgra<u8>, Vec<u8>>::from_raw(width, height, bgra.clone()).unwrap();
    let histogram = imageproc::stats::histogram(&buffer);
    histogram.channels.iter().map(|bins| bins.to_vec()).collect()
}

/// A point whose coordinates are both below `MAX_SIDE`.
pub open spec fn drawable_point(point: (u32, u32)) -> bool {
    point.0 < MAX_SIDE && point.1 < MAX_SIDE
}

/// Calls `imageproc::drawing::draw_line_segment_mut` with the end points converted to floating point
/// and the colour converted with `to_rgb`; the dimensions stay as they are. The
/// crate's line iterator converts the end points to `i32` and counts one past the
/// far end, so they stay below `MAX_SIDE`.
#[verifier::external_body]
pub(crate) fn draw_line_segment(
    image: &mut RgbImage,
    start: (u32, u32),
    end: (u32, u32),
    color: (u8, u8, u8, u8),
)
    requires
        old(image).wf(),
        drawable_point(start),
        drawable_point(end),
    ensures
        final(image).wf(),
        final(image).width == old(image).width,
        final(image).height == old(image).height,
        final(image).data@ == line_image(
            old(image).data@,
            old(image).width,
            old(image).height,
            start.0,
            start.1,
            end.0,
            end.1,
            color,
        ),
{
    let data = std::mem::take(&mut image.data);
    let mut buffer = image::RgbImage::from_raw(image.width, image.height, data).unwrap();
    let rgb = image::Pixel::to_rgb(&image::Rgba([color.0, color.1, color.2, color.3]));
    let from = (start.0 as _, start.1 as _);
    let to = (end.0 as _, end.1 as _);
    imageproc::drawing::draw_line_segment_mut(&mut buffer, from, to, rgb);
    image.data = buffer.into_raw();
}

} // verus!
