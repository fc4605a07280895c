//! Counting the pixels of a domino half into the buckets of the domino values
//! whose colours they show, and ranking the buckets.

use vstd::prelude::*;
use core::ops::Range;
use crate::dominoes::{DominoRange, construct_dominoes, construct_command_line_dominoes, is_table, library_table, command_line_table, library_dominoes, command_line_dominoes};
use crate::imaging::{median_bgra_image, median_filter_bgra};
use crate::pixel::{
    black_spec, white_spec, in_range, widened_start, widened_end, is_black_pixel, is_white_pixel,
    get_range_bounds,
};
use crate::ranking::{rank_entries, ranks_before, distinct_keys, RankOrder};
use crate::raster::RgbImage;

verus! {

/// The radius of the median filter applied before pixels are counted.
pub const MEDIAN_RADIUS: u32 = 10;

/// The count that the leading bucket must exceed for its value to be taken.
pub const COUNT_THRESHOLD: u32 = 40;

/// The red, green and blue channels of pixel `k` of a BGRA buffer.
pub open spec fn bgra_rgb(bgra: Seq<u8>, k: int) -> (u8, u8, u8) {
    (bgra[4 * k + 2], bgra[4 * k + 1], bgra[4 * k])
}

/// Black and white pixels belong to the domino's face and edges, not to its pips.
pub open spec fn is_background(rgb: (u8, u8, u8)) -> bool {
    black_spec(rgb, None) || white_spec(rgb, None)
}

/// The widened range of one channel of an entry.
pub open spec fn widened(range: Range<u8>, leeway: u8) -> Range<u8> {
    Range { start: widened_start(range.start, leeway), end: widened_end(range.end, leeway) }
}

/// A pixel shows the colour of an entry when each channel lies in the entry's widened range.
pub open spec fn matches_domino(rgb: (u8, u8, u8), d: DominoRange) -> bool {
    &&& in_range(widened(d.color_range.r, d.leeway), rgb.0)
    &&& in_range(widened(d.color_range.g, d.leeway), rgb.1)
    &&& in_range(widened(d.color_range.b, d.leeway), rgb.2)
}

/// How many entries of value `value` a pixel matches.
pub open spec fn pixel_votes(rgb: (u8, u8, u8), dominoes: Seq<DominoRange>, value: int) -> nat
    decreases dominoes.len(),
{
    if dominoes.len() == 0 {
        0
    } else {
        pixel_votes(rgb, dominoes.drop_last(), value) + if dominoes.last().value == value
            && matches_domino(rgb, dominoes.last()) {
            1nat
        } else {
            0nat
        }
    }
}

/// How many votes the first `n` pixels of a BGRA buffer cast for `value`; background
/// pixels cast none.
pub open spec fn range_votes(bgra: Seq<u8>, n: int, dominoes: Seq<DominoRange>, value: int) -> nat
    decreases n,
{
    if n <= 0 {
        0
    } else {
        range_votes(bgra, n - 1, dominoes, value) + if is_background(bgra_rgb(bgra, n - 1)) {
            0nat
        } else {
            pixel_votes(bgra_rgb(bgra, n - 1), dominoes, value)
        }
    }
}

/// No two entries share a value.
pub open spec fn distinct_values(dominoes: Seq<DominoRange>) -> bool {
    forall|i: int, j: int|
        0 <= i < j < dominoes.len() ==> (#[trigger] dominoes[i]).value != (#[trigger] dominoes[j]).value
}

/// The buckets are the values with at least one vote, each with its vote count,
/// the larger counts first and equal counts in ascending order of value.
pub open spec fn is_bucket_ranking(
    buckets: Seq<(u8, u32)>,
    bgra: Seq<u8>,
    n: int,
    dominoes: Seq<DominoRange>,
) -> bool {
    &&& forall|i: int|
        0 <= i < buckets.len() ==> (#[trigger] buckets[i]).1 > 0 && buckets[i].1 == range_votes(
            bgra,
            n,
            dominoes,
            buckets[i].0 as int,
        )
    &&& forall|v: int|
        0 <= v < 256 && #[trigger] range_votes(bgra, n, dominoes, v) > 0 ==> exists|i: int|
            0 <= i < buckets.len() && (#[trigger] buckets[i]).0 == v
    &&& forall|i: int, j: int|
        0 <= i < j < buckets.len() ==> (#[trigger] buckets[i]).1 > (#[trigger] buckets[j]).1 || (
        buckets[i].1 == buckets[j].1 && buckets[i].0 < buckets[j].0)
}

/// A pixel that is white (every channel above 180) or black (every channel below
/// 60) casts no vote: counting it leaves every value's votes as they were.
pub proof fn lemma_background_pixel_casts_no_vote(bgra: Seq<u8>, n: int, dominoes: Seq<DominoRange>, value: int)
    requires
        n >= 1,
        ({
            let (r, g, b) = (bgra[4 * (n - 1) + 2], bgra[4 * (n - 1) + 1], bgra[4 * (n - 1)]);
            (r > 180 && g > 180 && b > 180) || (r < 60 && g < 60 && b < 60)
        }),
    ensures
        range_votes(bgra, n, dominoes, value) == range_votes(bgra, n - 1, dominoes, value),
{
}

/// A pixel that is neither white nor black casts a vote for each entry of the
/// value whose widened ranges it lies in.
pub proof fn lemma_other_pixel_votes(bgra: Seq<u8>, n: int, dominoes: Seq<DominoRange>, value: int)
    requires
        n >= 1,
        ({
            let (r, g, b) = (bgra[4 * (n - 1) + 2], bgra[4 * (n - 1) + 1], bgra[4 * (n - 1)]);
            !(r > 180 && g > 180 && b > 180) && !(r < 60 && g < 60 && b < 60)
        }),
    ensures
        range_votes(bgra, n, dominoes, value) == range_votes(bgra, n - 1, dominoes, value) + pixel_votes(
            (bgra[4 * (n - 1) + 2], bgra[4 * (n - 1) + 1], bgra[4 * (n - 1)]),
            dominoes,
            value,
        ),
{
}

/// When every one of the first `n` pixels is white, no value has a vote.
pub proof fn lemma_white_pixels_cast_no_votes(bgra: Seq<u8>, n: int, dominoes: Seq<DominoRange>, value: int)
    requires
        forall|k: int|
            0 <= k < n ==> #[trigger] bgra[4 * k + 2] > 180 && bgra[4 * k + 1] > 180 && bgra[4 * k] > 180,
    ensures
        range_votes(bgra, n, dominoes, value) == 0,
    decreases n,
{
    if n > 0 {
        assert(bgra[4 * (n - 1) + 2] > 180);
        lemma_background_pixel_casts_no_vote(bgra, n, dominoes, value);
        lemma_white_pixels_cast_no_votes(bgra, n - 1, dominoes, value);
    }
}

/// A half whose filtered pixels are all white has no bucket.
pub proof fn lemma_white_half_has_no_buckets(
    buckets: Seq<(u8, u32)>,
    bgra: Seq<u8>,
    n: int,
    dominoes: Seq<DominoRange>,
)
    requires
        is_bucket_ranking(buckets, bgra, n, dominoes),
        forall|k: int|
            0 <= k < n ==> #[trigger] bgra[4 * k + 2] > 180 && bgra[4 * k + 1] > 180 && bgra[4 * k] > 180,
    ensures
        buckets.len() == 0,
{
    if buckets.len() > 0 {
        lemma_white_pixels_cast_no_votes(bgra, n, dominoes, buckets[0].0 as int);
        assert(buckets[0].1 > 0);
    }
}

/// With distinct values a pixel casts at most one vote for each value, and none for
/// a value that no entry has.
proof fn lemma_pixel_votes_bound(rgb: (u8, u8, u8), dominoes: Seq<DominoRange>, value: int)
    requires
        distinct_values(dominoes),
    ensures
        pixel_votes(rgb, dominoes, value) <= 1,
        (forall|i: int| 0 <= i < dominoes.len() ==> (#[trigger] dominoes[i]).value != value)
            ==> pixel_votes(rgb, dominoes, value) == 0,
    decreases dominoes.len(),
{
    if dominoes.len() > 0 {
        let rest = dominoes.drop_last();
        assert(distinct_values(rest)) by {
            assert forall|i: int, j: int| 0 <= i < j < rest.len() implies (#[trigger] rest[i]).value
                != (#[trigger] rest[j]).value by {
                assert(rest[i] == dominoes[i] && rest[j] == dominoes[j]);
            }
        }
        lemma_pixel_votes_bound(rgb, rest, value);
        if dominoes.last().value == value {
            assert forall|i: int| 0 <= i < rest.len() implies (#[trigger] rest[i]).value != value by {
                assert(rest[i] == dominoes[i]);
                assert(dominoes[i].value != dominoes[dominoes.len() - 1].value);
            }
        }
        if forall|i: int| 0 <= i < dominoes.len() ==> (#[trigger] dominoes[i]).value != value {
            assert forall|i: int| 0 <= i < rest.len() implies (#[trigger] rest[i]).value != value by {
                assert(rest[i] == dominoes[i]);
            }
            assert(dominoes[dominoes.len() - 1].value != value);
        }
    }
}

/// With distinct values the first `n` pixels cast at most `n` votes for any value.
proof fn lemma_range_votes_bound(bgra: Seq<u8>, n: int, dominoes: Seq<DominoRange>, value: int)
    requires
        distinct_values(dominoes),
        n >= 0,
    ensures
        range_votes(bgra, n, dominoes, value) <= n,
    decreases n,
{
    if n > 0 {
        lemma_range_votes_bound(bgra, n - 1, dominoes, value);
        lemma_pixel_votes_bound(bgra_rgb(bgra, n - 1), dominoes, value);
    }
}

/// Whether a pixel lies in the widened ranges of an entry.
fn pixel_matches(rgb: (u8, u8, u8), d: &DominoRange) -> (m: bool)
    ensures
        m == matches_domino(rgb, *d),
{
    let r_bounds = get_range_bounds(&d.color_range.r, d.leeway);
    let g_bounds = get_range_bounds(&d.color_range.g, d.leeway);
    let b_bounds = get_range_bounds(&d.color_range.b, d.leeway);
    r_bounds.start <= rgb.0 && rgb.0 < r_bounds.end && g_bounds.start <= rgb.1 && rgb.1 < g_bounds.end
        && b_bounds.start <= rgb.2 && rgb.2 < b_bounds.end
}

/// The number of votes of the first `n` pixels of a BGRA buffer, for every byte value.
fn count_votes(bgra: &Vec<u8>, n: usize, dominoes: &Vec<DominoRange>) -> (counts: Vec<u32>)
    requires
        bgra@.len() == 4 * n,
        n <= u32::MAX,
        distinct_values(dominoes@),
    ensures
        counts@.len() == 256,
        forall|v: int| 0 <= v < 256 ==> #[trigger] counts@[v] == range_votes(bgra@, n as int, dominoes@, v),
{
    let mut counts: Vec<u32> = Vec::new();
    while counts.len() < 256
        invariant
            counts@.len() <= 256,
            forall|v: int| 0 <= v < counts@.len() ==> #[trigger] counts@[v] == 0,
        decreases 256 - counts@.len(),
    {
        counts.push(0);
    }
    let total = bgra.len();
    let mut k: usize = 0;
    while k < n
        invariant
            k <= n,
            total == bgra@.len(),
            bgra@.len() == 4 * n,
            n <= u32::MAX,
            distinct_values(dominoes@),
            counts@.len() == 256,
            forall|v: int| 0 <= v < 256 ==> #[trigger] counts@[v] == range_votes(bgra@, k as int, dominoes@, v),
        decreases n - k,
    {
        let rgb = (bgra[4 * k + 2], bgra[4 * k + 1], bgra[4 * k]);
        assert(rgb == bgra_rgb(bgra@, k as int));
        if is_black_pixel(rgb, None) || is_white_pixel(rgb, None) {
        } else {
            let mut j: usize = 0;
            while j < dominoes.len()
                invariant
                    j <= dominoes@.len(),
                    k < n,
                    n <= u32::MAX,
                    distinct_values(dominoes@),
                    rgb == bgra_rgb(bgra@, k as int),
                    !is_background(rgb),
                    counts@.len() == 256,
                    forall|v: int|
                        0 <= v < 256 ==> #[trigger] counts@[v] == range_votes(bgra@, k as int, dominoes@, v)
                            + pixel_votes(rgb, dominoes@.take(j as int), v),
                decreases dominoes@.len() - j,
            {
                let d = &dominoes[j];
                let ghost prefix = dominoes@.take(j + 1);
                proof {
                    assert(prefix.drop_last() =~= dominoes@.take(j as int));
                    assert(prefix.last() == dominoes@[j as int]);
                }
                if pixel_matches(rgb, d) {
                    let v = d.value as usize;
                    proof {
                        assert(distinct_values(prefix)) by {
                            assert forall|a: int, b: int| 0 <= a < b < prefix.len() implies (
                            #[trigger] prefix[a]).value != (#[trigger] prefix[b]).value by {
                                assert(prefix[a] == dominoes@[a] && prefix[b] == dominoes@[b]);
                            }
                        }
                        lemma_pixel_votes_bound(rgb, prefix, v as int);
                        lemma_range_votes_bound(bgra@, k as int, dominoes@, v as int);
                    }
                    counts.set(v, counts[v] + 1);
                }
                j = j + 1;
            }
            proof {
                assert(dominoes@.take(dominoes@.len() as int) =~= dominoes@);
            }
        }
        k = k + 1;
    }
    counts
}

/// The buckets with at least one vote, in ascending order of value.
fn nonzero_buckets(counts: &Vec<u32>) -> (entries: Vec<(u32, u32)>)
    requires
        counts@.len() == 256,
    ensures
        distinct_keys(entries@),
        forall|i: int|
            0 <= i < entries@.len() ==> (#[trigger] entries@[i]).0 < 256 && entries@[i].1 > 0
                && entries@[i].1 == counts@[entries@[i].0 as int],
        forall|v: int| 0 <= v < 256 && #[trigger] counts@[v] > 0 ==> entries@.contains((v as u32, counts@[v])),
{
    let mut entries: Vec<(u32, u32)> = Vec::new();
    let mut v: u32 = 0;
    while v < 256
        invariant
            v <= 256,
            counts@.len() == 256,
            forall|i: int| 0 <= i < entries@.len() ==> (#[trigger] entries@[i]).0 < v,
            distinct_keys(entries@),
            forall|i: int|
                0 <= i < entries@.len() ==> (#[trigger] entries@[i]).0 < 256 && entries@[i].1 > 0
                    && entries@[i].1 == counts@[entries@[i].0 as int],
            forall|w: int| 0 <= w < v && #[trigger] counts@[w] > 0 ==> entries@.contains((w as u32, counts@[w])),
        decreases 256 - v,
    {
        let c = counts[v as usize];
        if c > 0 {
            let ghost prev = entries@;
            entries.push((v, c));
            proof {
                assert forall|w: int| 0 <= w < v + 1 && #[trigger] counts@[w] > 0 implies entries@.contains(
                    (w as u32, counts@[w]),
                ) by {
                    if w < v {
                        let i = choose|i: int| 0 <= i < prev.len() && prev[i] == (w as u32, counts@[w]);
                        assert(entries@[i] == prev[i]);
                    } else {
                        assert(entries@[prev.len() as int] == (w as u32, counts@[w]));
                    }
                }
            }
        }
        v = v + 1;
    }
    entries
}

/// Counts the votes of the median-filtered pixels of `image` for the values of
/// `dominoes`, skipping black and white pixels, and ranks the values with votes:
/// most votes first, the smaller value first among equal counts.
pub fn count_pixel_ranges_with(image: &RgbImage, dominoes: &Vec<DominoRange>) -> (buckets: Vec<(u8, u32)>)
    requires
        image.wf(),
        image.fits(),
        image.pixel_count() <= u32::MAX,
        distinct_values(dominoes@),
    ensures
        is_bucket_ranking(
            buckets@,
            median_bgra_image(image.data@, image.width, image.height, MEDIAN_RADIUS),
            image.pixel_count(),
            dominoes@,
        ),
{
    let filtered = median_filter_bgra(image, MEDIAN_RADIUS);
    let n = image.width as usize * image.height as usize;
    let counts = count_votes(&filtered, n, dominoes);
    let entries = nonzero_buckets(&counts);
    let order = RankOrder { count_descending: true, key_descending: false };
    let ranked = rank_entries(&entries, order);
    let mut buckets: Vec<(u8, u32)> = Vec::new();
    let mut i: usize = 0;
    while i < ranked.len()
        invariant
            i <= ranked@.len(),
            buckets@.len() == i,
            forall|a: int| 0 <= a < i ==> (#[trigger] buckets@[a]).0 as int == ranked@[a].0 as int
                && buckets@[a].1 == ranked@[a].1,
            forall|e: (u32, u32)| ranked@.contains(e) <==> entries@.contains(e),
            forall|a: int|
                0 <= a < entries@.len() ==> (#[trigger] entries@[a]).0 < 256,
        decreases ranked@.len() - i,
    {
        let (key, count) = ranked[i];
        proof {
            assert(ranked@.contains(ranked@[i as int]));
            let a = choose|a: int| 0 <= a < entries@.len() && entries@[a] == ranked@[i as int];
            assert(entries@[a].0 < 256);
        }
        buckets.push((key as u8, count));
        i = i + 1;
    }
    proof {
        let votes = |v: int| range_votes(filtered@, n as int, dominoes@, v);
        assert forall|a: int| 0 <= a < buckets@.len() implies (#[trigger] buckets@[a]).1 > 0
            && buckets@[a].1 == range_votes(filtered@, n as int, dominoes@, buckets@[a].0 as int) by {
            assert(ranked@.contains(ranked@[a]));
            let b = choose|b: int| 0 <= b < entries@.len() && entries@[b] == ranked@[a];
            assert(entries@[b].1 == counts@[entries@[b].0 as int]);
        }
        assert forall|v: int| 0 <= v < 256 && #[trigger] range_votes(filtered@, n as int, dominoes@, v) > 0
            implies exists|a: int| 0 <= a < buckets@.len() && (#[trigger] buckets@[a]).0 == v by {
            assert(counts@[v] > 0);
            assert(entries@.contains((v as u32, counts@[v])));
            assert(ranked@.contains((v as u32, counts@[v])));
            let a = choose|a: int| 0 <= a < ranked@.len() && ranked@[a] == (v as u32, counts@[v]);
            assert(buckets@[a].0 == v);
        }
        assert forall|a: int, b: int| 0 <= a < b < buckets@.len() implies (#[trigger] buckets@[a]).1
            > (#[trigger] buckets@[b]).1 || (buckets@[a].1 == buckets@[b].1 && buckets@[a].0
            < buckets@[b].0) by {
            assert(ranks_before(ranked@[a], ranked@[b], order));
        }
    }
    buckets
}

/// Counts and ranks the buckets of a domino half against the library's table.
pub fn count_pixel_ranges(image: &RgbImage) -> (buckets: Vec<(u8, u32)>)
    requires
        image.wf(),
        image.fits(),
        image.pixel_count() <= u32::MAX,
    ensures
        is_bucket_ranking(
            buckets@,
            median_bgra_image(image.data@, image.width, image.height, MEDIAN_RADIUS),
            image.pixel_count(),
            library_dominoes(),
        ),
{
    let dominoes = construct_dominoes();
    proof {
        lemma_table_values_distinct(dominoes@, library_table());
    }
    count_pixel_ranges_with(image, &dominoes)
}

/// Counts and ranks the buckets of a domino half against the command-line tool's table.
pub fn count_pixel_ranges_command_line(image: &RgbImage) -> (buckets: Vec<(u8, u32)>)
    requires
        image.wf(),
        image.fits(),
        image.pixel_count() <= u32::MAX,
    ensures
        is_bucket_ranking(
            buckets@,
            median_bgra_image(image.data@, image.width, image.height, MEDIAN_RADIUS),
            image.pixel_count(),
            command_line_dominoes(),
        ),
{
    let dominoes = construct_command_line_dominoes();
    proof {
        lemma_table_values_distinct(dominoes@, command_line_table());
    }
    count_pixel_ranges_with(image, &dominoes)
}

/// The values of a table are 0 to 12, so they are distinct.
pub proof fn lemma_table_values_distinct(dominoes: Seq<DominoRange>, bounds: Seq<(u8, u8, u8, u8, u8, u8)>)
    requires
        is_table(dominoes, bounds),
    ensures
        distinct_values(dominoes),
{
    assert forall|i: int, j: int| 0 <= i < j < dominoes.len() implies (#[trigger] dominoes[i]).value
        != (#[trigger] dominoes[j]).value by {
        assert(dominoes[i].value == i);
        assert(dominoes[j].value == j);
    }
}

/// The value of the leading bucket when its count exceeds `threshold`, and 0 otherwise.
pub open spec fn guessed_value(buckets: Seq<(u8, u32)>, threshold: u32) -> u8 {
    if buckets.len() > 0 && buckets[0].1 > threshold {
        buckets[0].0
    } else {
        0
    }
}

/// The value of the leading bucket when more than 40 pixels voted for it, and 0 otherwise.
pub fn guess_domino(buckets: &[(u8, u32)]) -> (value: u8)
    ensures
        value == guessed_value(buckets@, COUNT_THRESHOLD),
{
    guess_with_threshold(buckets, COUNT_THRESHOLD)
}

/// The value of the leading bucket when its count exceeds `threshold`, and 0 otherwise.
pub fn guess_with_threshold(buckets: &[(u8, u32)], threshold: u32) -> (value: u8)
    ensures
        value == guessed_value(buckets@, threshold),
{
    if buckets.len() > 0 {
        let (value, count) = buckets[0];
        if count > threshold { value } else { 0 }
    } else {
        0
    }
}

/// `value` has the most votes, and no smaller value has as many.
pub open spec fn is_leading(value: int, bgra: Seq<u8>, n: int, dominoes: Seq<DominoRange>) -> bool {
    &&& 0 <= value < 256
    &&& range_votes(bgra, n, dominoes, value) > 0
    &&& forall|w: int|
        0 <= w < 256 ==> #[trigger] range_votes(bgra, n, dominoes, w) < range_votes(bgra, n, dominoes, value)
            || (range_votes(bgra, n, dominoes, w) == range_votes(bgra, n, dominoes, value) && w >= value)
}

/// What a half reads as: the value with the most votes (the smallest of those tied)
/// when it has more than `threshold` votes, and 0 otherwise.
pub open spec fn half_value(bgra: Seq<u8>, n: int, dominoes: Seq<DominoRange>, threshold: u32) -> u8 {
    if exists|v: int| #[trigger] is_leading(v, bgra, n, dominoes) {
        let v = choose|v: int| #[trigger] is_leading(v, bgra, n, dominoes);
        if range_votes(bgra, n, dominoes, v) > threshold { v as u8 } else { 0 }
    } else {
        0
    }
}

/// The leading bucket of a ranking is the leading value, so guessing from a
/// ranking reads the half as its most voted value.
pub proof fn lemma_guess_reads_leading_value(
    buckets: Seq<(u8, u32)>,
    bgra: Seq<u8>,
    n: int,
    dominoes: Seq<DominoRange>,
    threshold: u32,
)
    requires
        is_bucket_ranking(buckets, bgra, n, dominoes),
    ensures
        guessed_value(buckets, threshold) == half_value(bgra, n, dominoes, threshold),
{
    if buckets.len() > 0 {
        let v = buckets[0].0 as int;
        assert(buckets[0].1 > 0);
        assert forall|w: int| 0 <= w < 256 implies #[trigger] range_votes(bgra, n, dominoes, w) < range_votes(
            bgra,
            n,
            dominoes,
            v,
        ) || (range_votes(bgra, n, dominoes, w) == range_votes(bgra, n, dominoes, v) && w >= v) by {
            if range_votes(bgra, n, dominoes, w) > 0 {
                let j = choose|j: int| 0 <= j < buckets.len() && (#[trigger] buckets[j]).0 == w;
                if j > 0 {
                    assert(buckets[0].1 > buckets[j].1 || (buckets[0].1 == buckets[j].1 && buckets[0].0 < buckets[j].0));
                }
            }
        }
        assert(is_leading(v, bgra, n, dominoes));
        let u = choose|u: int| #[trigger] is_leading(u, bgra, n, dominoes);
        assert(u == v) by {
            assert(range_votes(bgra, n, dominoes, u) >= range_votes(bgra, n, dominoes, v));
            assert(range_votes(bgra, n, dominoes, v) >= range_votes(bgra, n, dominoes, u));
        }
    } else {
        assert forall|v: int| !#[trigger] is_leading(v, bgra, n, dominoes) by {
            if 0 <= v < 256 && range_votes(bgra, n, dominoes, v) > 0 {
                let j = choose|j: int| 0 <= j < buckets.len() && (#[trigger] buckets[j]).0 == v;
            }
        }
    }
}

/// A value that no entry has receives no votes.
proof fn lemma_votes_need_an_entry(bgra: Seq<u8>, n: int, dominoes: Seq<DominoRange>, value: int)
    requires
        distinct_values(dominoes),
        forall|i: int| 0 <= i < dominoes.len() ==> (#[trigger] dominoes[i]).value != value,
    ensures
        range_votes(bgra, n, dominoes, value) == 0,
    decreases n,
{
    if n > 0 {
        lemma_votes_need_an_entry(bgra, n - 1, dominoes, value);
        lemma_pixel_votes_bound(bgra_rgb(bgra, n - 1), dominoes, value);
    }
}

/// A half always reads as 0 or as one of the values of the table.
pub proof fn lemma_half_value_in_table(bgra: Seq<u8>, n: int, dominoes: Seq<DominoRange>, threshold: u32)
    requires
        distinct_values(dominoes),
    ensures
        half_value(bgra, n, dominoes, threshold) == 0 || exists|i: int|
            0 <= i < dominoes.len() && (#[trigger] dominoes[i]).value == half_value(bgra, n, dominoes, threshold),
{
    if exists|v: int| #[trigger] is_leading(v, bgra, n, dominoes) {
        let v = choose|v: int| #[trigger] is_leading(v, bgra, n, dominoes);
        if range_votes(bgra, n, dominoes, v) > threshold {
            if forall|i: int| 0 <= i < dominoes.len() ==> (#[trigger] dominoes[i]).value != v {
                lemma_votes_need_an_entry(bgra, n, dominoes, v);
            }
            let i = choose|i: int| 0 <= i < dominoes.len() && (#[trigger] dominoes[i]).value == v;
            assert(dominoes[i].value == v as u8);
        }
    }
}

} // verus!
