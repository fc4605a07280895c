//! Colour statistics of an image: channel bins, white pixels, and the most common
//! colour residues.

use vstd::prelude::*;
use crate::buckets::{bgra_rgb, is_background, MEDIAN_RADIUS};
use crate::imaging::{median_bgra_image, median_filter_bgra};
use crate::pixel::{white_spec, is_black_pixel, is_white_pixel};
use crate::ranking::{top_ranked, is_top_ranking, distinct_keys, RankOrder};
use crate::raster::{RgbImage, rgb_at};

verus! {

/// The number of bins per channel.
pub const NUM_BUCKETS: usize = 26;

/// The width of a bin: 255 divided by the number of bins, rounded up.
pub const BIN_WIDTH: usize = 10;

/// How many of the first `n` pixels of an RGB buffer have channel `channel` in bin `bin`.
pub open spec fn bin_count(data: Seq<u8>, n: int, channel: int, bin: int) -> nat
    decreases n,
{
    if n <= 0 {
        0
    } else {
        bin_count(data, n - 1, channel, bin) + if data[3 * (n - 1) + channel] as int / BIN_WIDTH as int == bin {
            1nat
        } else {
            0nat
        }
    }
}

/// The sum of the first `m` bins of a channel.
pub open spec fn bins_total(data: Seq<u8>, n: int, channel: int, m: int) -> nat
    decreases m,
{
    if m <= 0 {
        0
    } else {
        bins_total(data, n, channel, m - 1) + bin_count(data, n, channel, m - 1)
    }
}

/// The red, green and blue histograms of an image, 26 bins of width 10 each.
pub struct ChannelBins {
    pub r: Vec<u32>,
    pub g: Vec<u32>,
    pub b: Vec<u32>,
}

/// Bin `i` of `bins` counts the pixels whose channel `channel` lies in bin `i`.
pub open spec fn is_channel_histogram(bins: Seq<u32>, data: Seq<u8>, n: int, channel: int) -> bool {
    &&& bins.len() == NUM_BUCKETS
    &&& forall|i: int| 0 <= i < NUM_BUCKETS ==> #[trigger] bins[i] == bin_count(data, n, channel, i)
}

proof fn lemma_bin_count_bound(data: Seq<u8>, n: int, channel: int, bin: int)
    requires
        n >= 0,
    ensures
        bin_count(data, n, channel, bin) <= n,
    decreases n,
{
    if n > 0 {
        lemma_bin_count_bound(data, n - 1, channel, bin);
    }
}

/// Sorts the red, green and blue values of the pixels into 26 bins each.
pub fn bin_pixels(image: &RgbImage) -> (bins: ChannelBins)
    requires
        image.wf(),
        image.pixel_count() <= u32::MAX,
    ensures
        is_channel_histogram(bins.r@, image.data@, image.pixel_count(), 0),
        is_channel_histogram(bins.g@, image.data@, image.pixel_count(), 1),
        is_channel_histogram(bins.b@, image.data@, image.pixel_count(), 2),
{
    let denominator: usize = (255 + NUM_BUCKETS - 1) / NUM_BUCKETS;
    assert(denominator == BIN_WIDTH);
    let mut r_bucket: Vec<u32> = Vec::new();
    let mut g_bucket: Vec<u32> = Vec::new();
    let mut b_bucket: Vec<u32> = Vec::new();
    while r_bucket.len() < NUM_BUCKETS
        invariant
            r_bucket@.len() <= NUM_BUCKETS,
            g_bucket@.len() == r_bucket@.len(),
            b_bucket@.len() == r_bucket@.len(),
            forall|i: int| 0 <= i < r_bucket@.len() ==> #[trigger] r_bucket@[i] == 0,
            forall|i: int| 0 <= i < g_bucket@.len() ==> #[trigger] g_bucket@[i] == 0,
            forall|i: int| 0 <= i < b_bucket@.len() ==> #[trigger] b_bucket@[i] == 0,
        decreases NUM_BUCKETS - r_bucket@.len(),
    {
        r_bucket.push(0);
        g_bucket.push(0);
        b_bucket.push(0);
    }
    let n = image.width as usize * image.height as usize;
    let total = image.data.len();
    let mut k: usize = 0;
    while k < n
        invariant
            k <= n,
            n == image.pixel_count(),
            n <= u32::MAX,
            total == image.data@.len(),
            image.wf(),
            denominator == BIN_WIDTH,
            r_bucket@.len() == NUM_BUCKETS,
            g_bucket@.len() == NUM_BUCKETS,
            b_bucket@.len() == NUM_BUCKETS,
            forall|i: int| 0 <= i < NUM_BUCKETS ==> #[trigger] r_bucket@[i] == bin_count(image.data@, k as int, 0, i),
            forall|i: int| 0 <= i < NUM_BUCKETS ==> #[trigger] g_bucket@[i] == bin_count(image.data@, k as int, 1, i),
            forall|i: int| 0 <= i < NUM_BUCKETS ==> #[trigger] b_bucket@[i] == bin_count(image.data@, k as int, 2, i),
        decreases n - k,
    {
        let r = image.data[3 * k];
        let g = image.data[3 * k + 1];
        let b = image.data[3 * k + 2];
        let ri = r as usize / denominator;
        let gi = g as usize / denominator;
        let bi = b as usize / denominator;
        proof {
            lemma_bin_count_bound(image.data@, k as int, 0, ri as int);
            lemma_bin_count_bound(image.data@, k as int, 1, gi as int);
            lemma_bin_count_bound(image.data@, k as int, 2, bi as int);
        }
        r_bucket.set(ri, r_bucket[ri] + 1);
        g_bucket.set(gi, g_bucket[gi] + 1);
        b_bucket.set(bi, b_bucket[bi] + 1);
        k = k + 1;
    }
    ChannelBins { r: r_bucket, g: g_bucket, b: b_bucket }
}

/// Every pixel falls in exactly one bin of each channel, so the bins of a channel
/// add up to the number of pixels.
pub proof fn lemma_bins_count_every_pixel(data: Seq<u8>, n: int, channel: int)
    requires
        0 <= n,
        0 <= channel < 3,
        3 * n <= data.len(),
    ensures
        bins_total(data, n, channel, NUM_BUCKETS as int) == n,
    decreases n,
{
    if n > 0 {
        lemma_bins_count_every_pixel(data, n - 1, channel);
        let bin = data[3 * (n - 1) + channel] as int / BIN_WIDTH as int;
        lemma_bins_total_step(data, n, channel, NUM_BUCKETS as int, bin);
    } else {
        lemma_bins_total_empty(data, channel, NUM_BUCKETS as int);
    }
}

/// Before any pixel, every bin is empty.
proof fn lemma_bins_total_empty(data: Seq<u8>, channel: int, m: int)
    requires
        m >= 0,
    ensures
        bins_total(data, 0, channel, m) == 0,
    decreases m,
{
    if m > 0 {
        lemma_bins_total_empty(data, channel, m - 1);
    }
}

/// Adding pixel `n - 1` raises the total of the first `m` bins by one exactly when
/// its bin is among them.
proof fn lemma_bins_total_step(data: Seq<u8>, n: int, channel: int, m: int, bin: int)
    requires
        n > 0,
        bin == data[3 * (n - 1) + channel] as int / BIN_WIDTH as int,
        0 <= bin < NUM_BUCKETS,
        0 <= m,
    ensures
        bins_total(data, n, channel, m) == bins_total(data, n - 1, channel, m) + if bin < m {
            1nat
        } else {
            0nat
        },
    decreases m,
{
    if m > 0 {
        lemma_bins_total_step(data, n, channel, m - 1, bin);
    }
}

/// How many of the first `n` pixels of an RGB buffer are white by the default threshold.
pub open spec fn white_count(data: Seq<u8>, n: int) -> nat
    decreases n,
{
    if n <= 0 {
        0
    } else {
        white_count(data, n - 1) + if white_spec(rgb_at(data, n - 1), None) {
            1nat
        } else {
            0nat
        }
    }
}

proof fn lemma_white_count_bound(data: Seq<u8>, n: int)
    requires
        n >= 0,
    ensures
        white_count(data, n) <= n,
    decreases n,
{
    if n > 0 {
        lemma_white_count_bound(data, n - 1);
    }
}

/// The numbers of white and of other pixels, whose ratio describes a domino half.
pub fn count_white_pixels(image: &RgbImage) -> (counts: (i32, i32))
    requires
        image.wf(),
        image.pixel_count() <= i32::MAX,
    ensures
        counts.0 == white_count(image.data@, image.pixel_count()),
        counts.0 + counts.1 == image.pixel_count(),
{
    let n = image.width as usize * image.height as usize;
    let total = image.data.len();
    let mut white_pixels: i32 = 0;
    let mut non_white: i32 = 0;
    let mut k: usize = 0;
    while k < n
        invariant
            k <= n,
            n == image.pixel_count(),
            n <= i32::MAX,
            total == image.data@.len(),
            image.wf(),
            white_pixels == white_count(image.data@, k as int),
            white_pixels + non_white == k,
        decreases n - k,
    {
        proof {
            lemma_white_count_bound(image.data@, k as int);
        }
        let rgb = (image.data[3 * k], image.data[3 * k + 1], image.data[3 * k + 2]);
        assert(rgb == rgb_at(image.data@, k as int));
        if is_white_pixel(rgb, None) {
            white_pixels = white_pixels + 1;
        } else {
            non_white = non_white + 1;
        }
        k = k + 1;
    }
    (white_pixels, non_white)
}

/// The number of residue classes: five residues for each of three channels.
pub const NUM_RESIDUES: usize = 125;

/// The class of a colour by the residues of its channels modulo 5.
pub open spec fn residue_key(rgb: (u8, u8, u8)) -> int {
    (rgb.0 % 5) * 25 + (rgb.1 % 5) * 5 + rgb.2 % 5
}

/// The colour that stands for a residue class: each residue multiplied by 5.
pub open spec fn residue_color(key: int) -> (u8, u8, u8) {
    ((key / 25 * 5) as u8, (key / 5 % 5 * 5) as u8, (key % 5 * 5) as u8)
}

/// The residue class that a representative colour stands for.
pub open spec fn color_key(rgb: (u8, u8, u8)) -> int {
    (rgb.0 / 5) * 25 + (rgb.1 / 5) * 5 + rgb.2 / 5
}

/// How many of the first `n` pixels of a BGRA buffer, black and white ones left out,
/// fall in residue class `key`.
pub open spec fn residue_votes(bgra: Seq<u8>, n: int, key: int) -> nat
    decreases n,
{
    if n <= 0 {
        0
    } else {
        residue_votes(bgra, n - 1, key) + if !is_background(bgra_rgb(bgra, n - 1)) && residue_key(
            bgra_rgb(bgra, n - 1),
        ) == key {
            1nat
        } else {
            0nat
        }
    }
}

proof fn lemma_residue_votes_bound(bgra: Seq<u8>, n: int, key: int)
    requires
        n >= 0,
    ensures
        residue_votes(bgra, n, key) <= n,
    decreases n,
{
    if n > 0 {
        lemma_residue_votes_bound(bgra, n - 1, key);
    }
}

/// The residue classes with votes, as (class, votes) entries.
pub open spec fn is_residue_entry(e: (u32, u32), bgra: Seq<u8>, n: int) -> bool {
    e.0 < NUM_RESIDUES && e.1 > 0 && e.1 == residue_votes(bgra, n, e.0 as int)
}

/// The rarest colours first: ascending count, then ascending class.
pub open spec fn rarest_first_order() -> RankOrder {
    RankOrder { count_descending: false, key_descending: false }
}

/// The ten least frequent residue classes among the non-black, non-white pixels
/// of the median-filtered image, each given by its representative colour.
pub fn count_most_common_pixels(image: &RgbImage) -> (top: Vec<((u8, u8, u8), u32)>)
    requires
        image.wf(),
        image.fits(),
        image.pixel_count() <= u32::MAX,
    ensures
        forall|i: int| 0 <= i < top@.len() ==> residue_color(color_key((#[trigger] top@[i]).0)) == top@[i].0
            && color_key(top@[i].0) < NUM_RESIDUES,
        is_top_ranking(
            top@.map_values(|e: ((u8, u8, u8), u32)| (color_key(e.0) as u32, e.1)),
            |e: (u32, u32)|
                is_residue_entry(
                    e,
                    median_bgra_image(image.data@, image.width, image.height, MEDIAN_RADIUS),
                    image.pixel_count(),
                ),
            10,
            rarest_first_order(),
        ),
{
    let filtered = median_filter_bgra(image, MEDIAN_RADIUS);
    let n = image.width as usize * image.height as usize;
    let total = filtered.len();
    let mut counts: Vec<u32> = Vec::new();
    while counts.len() < NUM_RESIDUES
        invariant
            counts@.len() <= NUM_RESIDUES,
            forall|i: int| 0 <= i < counts@.len() ==> #[trigger] counts@[i] == 0,
        decreases NUM_RESIDUES - counts@.len(),
    {
        counts.push(0);
    }
    let mut k: usize = 0;
    while k < n
        invariant
            k <= n,
            n <= u32::MAX,
            total == filtered@.len(),
            filtered@.len() == 4 * n,
            counts@.len() == NUM_RESIDUES,
            forall|key: int| 0 <= key < NUM_RESIDUES ==> #[trigger] counts@[key] == residue_votes(filtered@, k as int, key),
        decreases n - k,
    {
        let rgb = (filtered[4 * k + 2], filtered[4 * k + 1], filtered[4 * k]);
        assert(rgb == bgra_rgb(filtered@, k as int));
        if !is_black_pixel(rgb, None) && !is_white_pixel(rgb, None) {
            let key = (rgb.0 % 5) as usize * 25 + (rgb.1 % 5) as usize * 5 + (rgb.2 % 5) as usize;
            proof {
                lemma_residue_votes_bound(filtered@, k as int, key as int);
            }
            counts.set(key, counts[key] + 1);
        }
        k = k + 1;
    }
    let mut entries: Vec<(u32, u32)> = Vec::new();
    let mut key: u32 = 0;
    while key < NUM_RESIDUES as u32
        invariant
            key <= NUM_RESIDUES,
            counts@.len() == NUM_RESIDUES,
            forall|i: int| 0 <= i < entries@.len() ==> (#[trigger] entries@[i]).0 < key,
            distinct_keys(entries@),
            forall|i: int| 0 <= i < entries@.len() ==> is_residue_entry(#[trigger] entries@[i], filtered@, n as int),
            forall|e: (u32, u32)| #[trigger] is_residue_entry(e, filtered@, n as int) && e.0 < key ==> entries@.contains(e),
            forall|c: int| 0 <= c < NUM_RESIDUES ==> #[trigger] counts@[c] == residue_votes(filtered@, n as int, c),
        decreases NUM_RESIDUES - key,
    {
        let c = counts[key as usize];
        if c > 0 {
            let ghost prev = entries@;
            entries.push((key, c));
            proof {
                assert forall|e: (u32, u32)| #[trigger] is_residue_entry(e, filtered@, n as int) && e.0 < key + 1
                    implies entries@.contains(e) by {
                    if e.0 < key {
                        let i = choose|i: int| 0 <= i < prev.len() && prev[i] == e;
                        assert(entries@[i] == e);
                    } else {
                        assert(entries@[prev.len() as int] == e);
                    }
                }
            }
        }
        key = key + 1;
    }
    let order = RankOrder { count_descending: false, key_descending: false };
    let ranked = top_ranked(&entries, order, 10);
    let mut top: Vec<((u8, u8, u8), u32)> = Vec::new();
    let mut i: usize = 0;
    while i < ranked.len()
        invariant
            i <= ranked@.len(),
            top@.len() == i,
            forall|a: int| 0 <= a < ranked@.len() ==> (#[trigger] ranked@[a]).0 < NUM_RESIDUES,
            forall|a: int|
                0 <= a < i ==> (#[trigger] top@[a]).0 == residue_color(ranked@[a].0 as int) && top@[a].1
                    == ranked@[a].1,
        decreases ranked@.len() - i,
    {
        let (key, count) = ranked[i];
        let color = (((key / 25) * 5) as u8, ((key / 5 % 5) * 5) as u8, ((key % 5) * 5) as u8);
        top.push((color, count));
        i = i + 1;
    }
    proof {
        assert forall|a: int| 0 <= a < ranked@.len() implies (#[trigger] ranked@[a]).0 < NUM_RESIDUES by {
            assert(entries@.contains(ranked@[a]));
        }
        let keyed = top@.map_values(|e: ((u8, u8, u8), u32)| (color_key(e.0) as u32, e.1));
        assert forall|a: int| 0 <= a < top@.len() implies residue_color(color_key((#[trigger] top@[a]).0))
            == top@[a].0 && color_key(top@[a].0) < NUM_RESIDUES && keyed[a] == ranked@[a] by {
            lemma_residue_color_key(ranked@[a].0 as int);
        }
        assert(keyed =~= ranked@);
        let valid = |e: (u32, u32)| is_residue_entry(e, filtered@, n as int);
        assert forall|e: (u32, u32)| #[trigger] entries@.contains(e) <==> valid(e) by {
            if entries@.contains(e) {
                let a = choose|a: int| 0 <= a < entries@.len() && entries@[a] == e;
            }
        }
        assert(is_top_ranking(ranked@, valid, 10, rarest_first_order()));
    }
    top
}

/// The representative colour of a class leads back to the class.
proof fn lemma_residue_color_key(key: int)
    requires
        0 <= key < NUM_RESIDUES,
    ensures
        color_key(residue_color(key)) == key,
{
}

} // verus!
