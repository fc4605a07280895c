//! The analyses of the command-line tool that the library does not run itself:
//! per-channel histograms of the blurred image, and the black-and-white edge map.

use vstd::prelude::*;
use crate::imaging::{canny, canny_image, channel_histograms, channel_value_count, grayscale, luma_image, median_bgra_image, median_filter_bgra};
use crate::location::{CANNY_HIGH, CANNY_LOW};
use crate::ranking::{top_ranked, is_top_ranking, distinct_keys, RankOrder};
use crate::raster::{GrayImage, RgbImage, rgb_at};

verus! {

/// The radius of the median filter applied before the histograms are taken.
pub const HISTOGRAM_MEDIAN_RADIUS: u32 = 5;

/// Whether a channel value is kept in the ranking of histogram `channel`: every
/// channel keeps values below 200, and the first three channels apply their own
/// limits of 240, 220 and 200 as well.
pub open spec fn kept_value(channel: int, value: int) -> bool {
    &&& value < 200
    &&& (channel == 0 ==> value < 240)
    &&& (channel == 1 ==> value < 220)
    &&& (channel == 2 ==> value < 200)
}

/// The most frequent first, and among equally frequent values the larger first.
pub open spec fn most_frequent_first() -> RankOrder {
    RankOrder { count_descending: true, key_descending: true }
}

/// An entry of histogram `channel`: a kept value with its count.
pub open spec fn is_histogram_entry(e: (u32, u32), bgra: Seq<u8>, n: int, channel: int) -> bool {
    e.0 < 256 && kept_value(channel, e.0 as int) && e.1 == channel_value_count(bgra, n, channel, e.0 as int)
}

/// The ten most frequent kept values of a histogram. Sorting the values by
/// ascending count while keeping equal counts in ascending order of value, and
/// then taking ten from the end, gives exactly this order.
fn top_channel_values(bins: &Vec<u32>, channel: usize, bgra: Ghost<Seq<u8>>, n: Ghost<int>) -> (top: Vec<(usize, u32)>)
    requires
        bins@.len() == 256,
        channel < 4,
        forall|v: int| 0 <= v < 256 ==> #[trigger] bins@[v] == channel_value_count(bgra@, n@, channel as int, v),
    ensures
        is_top_ranking(
            top@.map_values(|e: (usize, u32)| (e.0 as u32, e.1)),
            |e: (u32, u32)| is_histogram_entry(e, bgra@, n@, channel as int),
            10,
            most_frequent_first(),
        ),
        forall|i: int| 0 <= i < top@.len() ==> (#[trigger] top@[i]).0 < 256,
{
    let mut entries: Vec<(u32, u32)> = Vec::new();
    let mut value: u32 = 0;
    while value < 256
        invariant
            value <= 256,
            channel < 4,
            bins@.len() == 256,
            forall|v: int| 0 <= v < 256 ==> #[trigger] bins@[v] == channel_value_count(bgra@, n@, channel as int, v),
            forall|i: int| 0 <= i < entries@.len() ==> (#[trigger] entries@[i]).0 < value,
            distinct_keys(entries@),
            forall|i: int| 0 <= i < entries@.len() ==> is_histogram_entry(#[trigger] entries@[i], bgra@, n@, channel as int),
            forall|e: (u32, u32)|
                #[trigger] is_histogram_entry(e, bgra@, n@, channel as int) && e.0 < value ==> entries@.contains(e),
        decreases 256 - value,
    {
        let general = value < 200;
        let specific = if channel == 0 {
            value < 240
        } else if channel == 1 {
            value < 220
        } else if channel == 2 {
            value < 200
        } else {
            true
        };
        if general && specific {
            let ghost prev = entries@;
            entries.push((value, bins[value as usize]));
            proof {
                assert forall|e: (u32, u32)| #[trigger] is_histogram_entry(e, bgra@, n@, channel as int) && e.0 < value
                    + 1 implies entries@.contains(e) by {
                    if e.0 < value {
                        let i = choose|i: int| 0 <= i < prev.len() && prev[i] == e;
                        assert(entries@[i] == e);
                    } else {
                        assert(entries@[prev.len() as int] == e);
                    }
                }
            }
        }
        value = value + 1;
    }
    let order = RankOrder { count_descending: true, key_descending: true };
    let ranked = top_ranked(&entries, order, 10);
    let mut top: Vec<(usize, u32)> = Vec::new();
    let mut i: usize = 0;
    while i < ranked.len()
        invariant
            i <= ranked@.len(),
            top@.len() == i,
            forall|a: int| 0 <= a < i ==> (#[trigger] top@[a]).0 == ranked@[a].0 && top@[a].1 == ranked@[a].1,
        decreases ranked@.len() - i,
    {
        let (value, count) = ranked[i];
        top.push((value as usize, count));
        i = i + 1;
    }
    proof {
        let keyed = top@.map_values(|e: (usize, u32)| (e.0 as u32, e.1));
        assert forall|a: int| 0 <= a < ranked@.len() implies #[trigger] ranked@[a].0 < 256 by {
            assert(entries@.contains(ranked@[a]));
        }
        assert(keyed =~= ranked@);
        let valid = |e: (u32, u32)| is_histogram_entry(e, bgra@, n@, channel as int);
        assert forall|e: (u32, u32)| #[trigger] entries@.contains(e) <==> valid(e) by {
            if entries@.contains(e) {
                let a = choose|a: int| 0 <= a < entries@.len() && entries@[a] == e;
            }
        }
        assert(is_top_ranking(ranked@, valid, 10, most_frequent_first()));
    }
    top
}

/// The median-filtered image in BGRA, and for each of its four channels the ten
/// most frequent values below 200 with their counts, most frequent first (the
/// larger value first among equals).
pub fn histogram(image: &RgbImage) -> (report: (Vec<u8>, Vec<Vec<(usize, u32)>>))
    requires
        image.wf(),
        image.fits(),
        image.pixel_count() <= u32::MAX,
    ensures
        report.0@ == median_bgra_image(image.data@, image.width, image.height, HISTOGRAM_MEDIAN_RADIUS),
        report.1@.len() == 4,
        forall|c: int|
            0 <= c < 4 ==> is_top_ranking(
                (#[trigger] report.1@[c])@.map_values(|e: (usize, u32)| (e.0 as u32, e.1)),
                |e: (u32, u32)| is_histogram_entry(e, report.0@, image.pixel_count(), c),
                10,
                most_frequent_first(),
            ),
{
    let blurred = median_filter_bgra(image, HISTOGRAM_MEDIAN_RADIUS);
    let histo = channel_histograms(&blurred, image.width, image.height);
    let ghost n = image.pixel_count();
    let mut max_values: Vec<Vec<(usize, u32)>> = Vec::new();
    let mut channel: usize = 0;
    while channel < 4
        invariant
            channel <= 4,
            histo@.len() == 4,
            forall|c: int| 0 <= c < 4 ==> #[trigger] histo@[c]@.len() == 256,
            forall|c: int, v: int|
                0 <= c < 4 && 0 <= v < 256 ==> #[trigger] histo@[c]@[v] == channel_value_count(blurred@, n, c, v),
            max_values@.len() == channel,
            forall|c: int|
                0 <= c < channel ==> is_top_ranking(
                    (#[trigger] max_values@[c])@.map_values(|e: (usize, u32)| (e.0 as u32, e.1)),
                    |e: (u32, u32)| is_histogram_entry(e, blurred@, n, c),
                    10,
                    most_frequent_first(),
                ),
        decreases 4 - channel,
    {
        let bins = &histo[channel];
        proof {
            assert forall|v: int| 0 <= v < 256 implies #[trigger] bins@[v] == channel_value_count(blurred@, n, channel as int, v) by {
                assert(histo@[channel as int]@[v] == channel_value_count(blurred@, n, channel as int, v));
            }
        }
        let top = top_channel_values(bins, channel, Ghost(blurred@), Ghost(n));
        max_values.push(top);
        channel = channel + 1;
    }
    (blurred, max_values)
}

/// The value above which every channel counts as bright.
pub const FILTER_HIGH_THRESHOLD: u8 = 170;

/// The value below which every channel counts as dark.
pub const FILTER_LOW_THRESHOLD: u8 = 80;

/// Bright and dark pixels become white, all others black.
pub open spec fn black_white_of(rgb: (u8, u8, u8)) -> (u8, u8, u8) {
    if (rgb.0 > FILTER_HIGH_THRESHOLD && rgb.1 > FILTER_HIGH_THRESHOLD && rgb.2 > FILTER_HIGH_THRESHOLD) || (
    rgb.0 < FILTER_LOW_THRESHOLD && rgb.1 < FILTER_LOW_THRESHOLD && rgb.2 < FILTER_LOW_THRESHOLD) {
        (255, 255, 255)
    } else {
        (0, 0, 0)
    }
}

/// Maps bright and dark pixels to white and every other pixel to black.
pub fn black_and_white(image: &RgbImage) -> (bw: RgbImage)
    requires
        image.wf(),
    ensures
        bw.wf(),
        bw.width == image.width,
        bw.height == image.height,
        forall|k: int| 0 <= k < image.pixel_count() ==> #[trigger] rgb_at(bw.data@, k) == black_white_of(rgb_at(image.data@, k)),
{
    let total = image.data.len();
    let n = image.width as usize * image.height as usize;
    let mut data: Vec<u8> = Vec::new();
    let mut k: usize = 0;
    while k < n
        invariant
            k <= n,
            n == image.pixel_count(),
            total == image.data@.len(),
            image.wf(),
            data@.len() == 3 * k,
            forall|j: int| 0 <= j < k ==> #[trigger] rgb_at(data@, j) == black_white_of(rgb_at(image.data@, j)),
        decreases n - k,
    {
        let (r, g, b) = (image.data[3 * k], image.data[3 * k + 1], image.data[3 * k + 2]);
        let bright = r > FILTER_HIGH_THRESHOLD && g > FILTER_HIGH_THRESHOLD && b > FILTER_HIGH_THRESHOLD;
        let dark = r < FILTER_LOW_THRESHOLD && g < FILTER_LOW_THRESHOLD && b < FILTER_LOW_THRESHOLD;
        let value: u8 = if bright || dark { 255 } else { 0 };
        let ghost prev = data@;
        data.push(value);
        data.push(value);
        data.push(value);
        proof {
            assert forall|j: int| 0 <= j < k + 1 implies #[trigger] rgb_at(data@, j) == black_white_of(rgb_at(image.data@, j)) by {
                if j < k {
                    assert(rgb_at(prev, j) == rgb_at(data@, j));
                }
            }
        }
        k = k + 1;
    }
    RgbImage { width: image.width, height: image.height, data }
}

/// The black-and-white image as intensities, and its Canny edge map.
pub fn manipulate_image(image: &RgbImage) -> (result: (GrayImage, GrayImage))
    requires
        image.wf(),
        image.fits(),
        image.pixel_count() <= u32::MAX,
        image.width >= 1,
        image.height >= 1,
    ensures
        ({
            let (bw_proper, edges) = result;
            exists|bw: RgbImage|
                {
                    &&& bw.wf()
                    &&& bw.width == image.width
                    &&& bw.height == image.height
                    &&& forall|k: int|
                        0 <= k < image.pixel_count() ==> #[trigger] rgb_at(bw.data@, k) == black_white_of(
                            rgb_at(image.data@, k),
                        )
                    &&& bw_proper@ == (image.width, image.height, luma_image(bw.data@, image.width, image.height))
                    &&& edges@ == (
                        image.width,
                        image.height,
                        canny_image(bw_proper.data@, image.width, image.height, CANNY_LOW, CANNY_HIGH),
                    )
                }
        }),
{
    let bw_img = black_and_white(image);
    let bw_proper = grayscale(&bw_img);
    let edges = canny(&bw_proper, CANNY_LOW, CANNY_HIGH);
    (bw_proper, edges)
}

} // verus!
