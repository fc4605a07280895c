//! Reading a row of dominoes: the image from the browser's RGBA buffer, turned to
//! landscape, the row located and split into dominoes, each half read, and the
//! row scored.

use vstd::prelude::*;
use crate::buckets::{
    count_pixel_ranges, count_pixel_ranges_command_line, guess_domino, guess_with_threshold, half_value,
    lemma_guess_reads_leading_value, lemma_half_value_in_table, lemma_table_values_distinct, COUNT_THRESHOLD,
    MEDIAN_RADIUS,
};
use crate::dominoes::{
    library_dominoes, command_line_dominoes, table_entries, library_table, command_line_table, is_table,
};
use crate::imaging::median_bgra_image;
use crate::imaging::{clamp_extent, crop, is_crop, is_quarter_turn, rotate270};
use crate::labels::{domino_labels, domino_string};
use crate::location::{
    DominoImageSection, detect_inner_domino_edges, detect_outer_domino_edges, inner_edge, whole_image_section,
};
use crate::raster::{RgbImage, rgb_at};

verus! {

/// Builds an RGB image from a row-major RGBA buffer of `width * height` pixels,
/// dropping the alpha channel.
pub fn rgba_buffer_to_rgb(buffer: &[u8], width: u32, height: u32) -> (image: RgbImage)
    requires
        buffer@.len() >= 4 * (width * height),
    ensures
        image.wf(),
        image.width == width,
        image.height == height,
        forall|k: int|
            0 <= k < width * height ==> #[trigger] rgb_at(image.data@, k) == (
                buffer@[4 * k],
                buffer@[4 * k + 1],
                buffer@[4 * k + 2],
            ),
{
    let available = buffer.len();
    let n = width as usize * height as usize;
    let mut data: Vec<u8> = Vec::new();
    let mut offset_multiple: usize = 0;
    while offset_multiple < n
        invariant
            offset_multiple <= n,
            n == width * height,
            available == buffer@.len(),
            buffer@.len() >= 4 * n,
            data@.len() == 3 * offset_multiple,
            forall|k: int|
                0 <= k < offset_multiple ==> #[trigger] rgb_at(data@, k) == (
                    buffer@[4 * k],
                    buffer@[4 * k + 1],
                    buffer@[4 * k + 2],
                ),
        decreases n - offset_multiple,
    {
        let start = offset_multiple * 4;
        let ghost prev = data@;
        data.push(buffer[start]);
        data.push(buffer[start + 1]);
        data.push(buffer[start + 2]);
        proof {
            assert forall|k: int| 0 <= k < offset_multiple + 1 implies #[trigger] rgb_at(data@, k) == (
                buffer@[4 * k],
                buffer@[4 * k + 1],
                buffer@[4 * k + 2],
            ) by {
                if k < offset_multiple {
                    assert(rgb_at(prev, k) == rgb_at(data@, k));
                }
            }
        }
        offset_multiple = offset_multiple + 1;
    }
    RgbImage { width, height, data }
}

/// `oriented` is `image` made landscape: turned a quarter turn counter-clockwise
/// when it is higher than wide, left as it is otherwise.
pub open spec fn is_landscape_of(oriented: RgbImage, image: RgbImage) -> bool {
    if image.height > image.width {
        is_quarter_turn(oriented, image)
    } else {
        oriented == image
    }
}

/// Makes the image landscape so that the row of dominoes lies horizontally: a
/// photo higher than wide, cropped or not, is turned a quarter turn
/// counter-clockwise; any other is left as it is.
pub fn orient_landscape(image: RgbImage) -> (oriented: RgbImage)
    requires
        image.wf(),
    ensures
        is_landscape_of(oriented, image),
        oriented.wf(),
        oriented.pixel_count() == image.pixel_count(),
        oriented.height <= oriented.width,
{
    if image.height > image.width {
        let rotated = rotate270(&image);
        proof {
            assert(rotated.pixel_count() == image.pixel_count()) by (nonlinear_arith)
                requires
                    rotated.width == image.height,
                    rotated.height == image.width,
            ;
        }
        rotated
    } else {
        image
    }
}

/// The section of the row: the whole image for a cropped photo, the detected
/// outer edges otherwise.
pub fn domino_section(image: &RgbImage, cropped: bool) -> (section: DominoImageSection)
    requires
        image.wf(),
        !cropped ==> image.width >= 1 && image.height >= 1,
        !cropped ==> image.fits() && image.pixel_count() <= u32::MAX,
    ensures
        cropped ==> section == whole_image_section(image.width, image.height),
        !cropped ==> section == detect_outer_spec(*image),
        section.top <= section.middle <= section.bottom,
        section.left <= section.right,
{
    if cropped {
        DominoImageSection {
            top: 0,
            bottom: image.height,
            left: 0,
            right: image.width,
            middle: image.height / 2,
        }
    } else {
        detect_outer_domino_edges(image)
    }
}

/// The section that edge detection finds in an image.
pub open spec fn detect_outer_spec(image: RgbImage) -> DominoImageSection {
    crate::location::outer_section_of(
        (
            image.width,
            image.height,
            crate::imaging::canny_image(
                crate::imaging::luma_image(image.data@, image.width, image.height),
                image.width,
                image.height,
                crate::location::CANNY_LOW,
                crate::location::CANNY_HIGH,
            ),
        ),
    )
}

/// The halves of domino `d`, between edges `d` and `d + 1`: the top half from the
/// section's top to its middle, the bottom half from its middle to its bottom.
pub open spec fn is_domino_halves(
    halves: (RgbImage, RgbImage),
    image: RgbImage,
    section: DominoImageSection,
    left: u32,
    right: u32,
) -> bool {
    &&& is_crop(halves.0, image, left, section.top, (right - left) as u32, (section.middle - section.top) as u32)
    &&& is_crop(
        halves.1,
        image,
        left,
        section.middle,
        (right - left) as u32,
        (section.bottom - section.middle) as u32,
    )
}

/// Within the image, the two halves of a domino split it exactly: each is as wide
/// as the domino, and their heights add up to the section's.
pub proof fn lemma_halves_split_domino(
    halves: (RgbImage, RgbImage),
    image: RgbImage,
    section: DominoImageSection,
    left: u32,
    right: u32,
)
    requires
        is_domino_halves(halves, image, section, left, right),
        left <= right <= image.width,
        section.top <= section.middle <= section.bottom <= image.height,
    ensures
        halves.0.width == right - left,
        halves.1.width == right - left,
        halves.0.height + halves.1.height == section.bottom - section.top,
{
}

/// Cuts each domino between consecutive inner edges out of the image and splits
/// it into its top and bottom halves.
pub fn domino_pieces(image: &RgbImage, section: &DominoImageSection, inner_edges: &[u32]) -> (pieces: Vec<(RgbImage, RgbImage)>)
    requires
        image.wf(),
        section.top <= section.middle <= section.bottom,
        forall|d: int| 0 < d < inner_edges@.len() ==> inner_edges@[d - 1] <= #[trigger] inner_edges@[d],
    ensures
        pieces@.len() == if inner_edges@.len() == 0 { 0 } else { inner_edges@.len() - 1 },
        forall|d: int|
            0 <= d < pieces@.len() ==> is_domino_halves(
                #[trigger] pieces@[d],
                *image,
                *section,
                inner_edges@[d],
                inner_edges@[d + 1],
            ),
{
    let mut pieces: Vec<(RgbImage, RgbImage)> = Vec::new();
    let mut dom_num: usize = 1;
    while dom_num < inner_edges.len()
        invariant
            1 <= dom_num,
            inner_edges@.len() == 0 ==> dom_num == 1,
            inner_edges@.len() == 0 || dom_num <= inner_edges@.len(),
            image.wf(),
            section.top <= section.middle <= section.bottom,
            forall|d: int| 0 < d < inner_edges@.len() ==> inner_edges@[d - 1] <= #[trigger] inner_edges@[d],
            pieces@.len() == dom_num - 1,
            forall|d: int|
                0 <= d < pieces@.len() ==> is_domino_halves(
                    #[trigger] pieces@[d],
                    *image,
                    *section,
                    inner_edges@[d],
                    inner_edges@[d + 1],
                ),
        decreases inner_edges@.len() - dom_num,
    {
        let left = inner_edges[dom_num - 1];
        let right = inner_edges[dom_num];
        let top_piece = crop(image, left, section.top, right - left, section.middle - section.top);
        let bottom_piece = crop(image, left, section.middle, right - left, section.bottom - section.middle);
        pieces.push((top_piece, bottom_piece));
        dom_num = dom_num + 1;
    }
    pieces
}

/// The halves of a row split into `num_dominos` dominoes of equal width: domino
/// `d` lies between inner edges `d` and `d + 1` of the section.
pub open spec fn is_row_pieces(
    pieces: Seq<(RgbImage, RgbImage)>,
    image: RgbImage,
    section: DominoImageSection,
    num_dominos: int,
) -> bool {
    &&& pieces.len() == num_dominos
    &&& forall|d: int|
        0 <= d < num_dominos ==> is_domino_halves(
            #[trigger] pieces[d],
            image,
            section,
            inner_edge(section, num_dominos, d) as u32,
            inner_edge(section, num_dominos, d + 1) as u32,
        )
}

/// A crop is no larger than the image it is cut from, on each side and in pixels.
pub proof fn lemma_crop_no_larger(piece: RgbImage, image: RgbImage, x: u32, y: u32, width: u32, height: u32)
    requires
        is_crop(piece, image, x, y, width, height),
    ensures
        piece.width <= image.width,
        piece.height <= image.height,
        piece.pixel_count() <= image.pixel_count(),
{
    assert(clamp_extent(x, width, image.width) <= image.width);
    assert(clamp_extent(y, height, image.height) <= image.height);
    assert(piece.width * piece.height <= image.width * image.height) by (nonlinear_arith)
        requires
            piece.width <= image.width,
            piece.height <= image.height,
    ;
}

/// Splits the row of the section into `num_dominos` dominoes of equal width and
/// cuts each into its top and bottom halves. The halves of an image small enough
/// to be filtered and counted are too.
pub fn row_pieces(image: &RgbImage, section: &DominoImageSection, num_dominos: u8) -> (pieces: Vec<(RgbImage, RgbImage)>)
    requires
        image.wf(),
        section.top <= section.middle <= section.bottom,
        section.left <= section.right,
        num_dominos > 0,
    ensures
        is_row_pieces(pieces@, *image, *section, num_dominos as int),
        image.fits() && image.pixel_count() <= u32::MAX ==> countable_pieces(pieces@),
{
    let edges = detect_inner_domino_edges(section, num_dominos);
    let pieces = domino_pieces(image, section, edges.as_slice());
    proof {
        assert forall|d: int| 0 <= d < num_dominos implies is_domino_halves(
            #[trigger] pieces@[d],
            *image,
            *section,
            inner_edge(*section, num_dominos as int, d) as u32,
            inner_edge(*section, num_dominos as int, d + 1) as u32,
        ) by {
            assert(edges@[d] == inner_edge(*section, num_dominos as int, d));
            assert(edges@[d + 1] == inner_edge(*section, num_dominos as int, d + 1));
        }
        if image.fits() && image.pixel_count() <= u32::MAX {
            assert forall|d: int| 0 <= d < pieces@.len() implies {
                &&& (#[trigger] pieces@[d]).0.wf()
                &&& pieces@[d].1.wf()
                &&& pieces@[d].0.fits()
                &&& pieces@[d].1.fits()
                &&& pieces@[d].0.pixel_count() <= u32::MAX
                &&& pieces@[d].1.pixel_count() <= u32::MAX
            } by {
                let left = edges@[d];
                let right = edges@[d + 1];
                lemma_crop_no_larger(
                    pieces@[d].0,
                    *image,
                    left,
                    section.top,
                    (right - left) as u32,
                    (section.middle - section.top) as u32,
                );
                lemma_crop_no_larger(
                    pieces@[d].1,
                    *image,
                    left,
                    section.middle,
                    (right - left) as u32,
                    (section.bottom - section.middle) as u32,
                );
            }
        }
    }
    pieces
}

/// What the bottom half of a domino reads as against the library's table.
pub open spec fn library_half_value(half: RgbImage, threshold: u32) -> u8 {
    half_value(
        median_bgra_image(half.data@, half.width, half.height, MEDIAN_RADIUS),
        half.pixel_count(),
        library_dominoes(),
        threshold,
    )
}

/// What a half of a domino reads as against the command-line tool's table.
pub open spec fn command_line_half_value(half: RgbImage, threshold: u32) -> u8 {
    half_value(
        median_bgra_image(half.data@, half.width, half.height, MEDIAN_RADIUS),
        half.pixel_count(),
        command_line_dominoes(),
        threshold,
    )
}

/// Every half is a well-formed image small enough to be filtered and for its
/// pixels to be counted.
pub open spec fn countable_pieces(pieces: Seq<(RgbImage, RgbImage)>) -> bool {
    forall|i: int|
        0 <= i < pieces.len() ==> {
            &&& (#[trigger] pieces[i]).0.wf()
            &&& pieces[i].1.wf()
            &&& pieces[i].0.fits()
            &&& pieces[i].1.fits()
            &&& pieces[i].0.pixel_count() <= u32::MAX
            &&& pieces[i].1.pixel_count() <= u32::MAX
        }
}

/// Reads each domino: the top value as given (it comes from the image classifier),
/// the bottom value from the colour buckets of the bottom half.
pub fn read_dominoes(pieces: &Vec<(RgbImage, RgbImage)>, top_values: &[u8]) -> (dominoes: Vec<(u8, u8)>)
    requires
        top_values@.len() == pieces@.len(),
        countable_pieces(pieces@),
    ensures
        dominoes@.len() == pieces@.len(),
        forall|i: int|
            0 <= i < pieces@.len() ==> #[trigger] dominoes@[i] == (
                top_values@[i],
                library_half_value(pieces@[i].1, COUNT_THRESHOLD),
            ),
        forall|i: int| 0 <= i < dominoes@.len() ==> (#[trigger] dominoes@[i]).1 <= 12,
{
    let mut dominoes: Vec<(u8, u8)> = Vec::new();
    let mut i: usize = 0;
    while i < pieces.len()
        invariant
            i <= pieces@.len(),
            top_values@.len() == pieces@.len(),
            countable_pieces(pieces@),
            dominoes@.len() == i,
            forall|j: int|
                0 <= j < i ==> #[trigger] dominoes@[j] == (
                    top_values@[j],
                    library_half_value(pieces@[j].1, COUNT_THRESHOLD),
                ),
            forall|j: int| 0 <= j < i ==> (#[trigger] dominoes@[j]).1 <= 12,
        decreases pieces@.len() - i,
    {
        let bottom_piece = &pieces[i].1;
        assert(countable_pieces(pieces@) && pieces@[i as int].1 == *bottom_piece);
        let bottom_domino_buckets = count_pixel_ranges(bottom_piece);
        let bottom_domino = guess_domino(bottom_domino_buckets.as_slice());
        proof {
            lemma_guess_reads_leading_value(
                bottom_domino_buckets@,
                median_bgra_image(bottom_piece.data@, bottom_piece.width, bottom_piece.height, MEDIAN_RADIUS),
                bottom_piece.pixel_count(),
                library_dominoes(),
                COUNT_THRESHOLD,
            );
            lemma_table_reading_at_most_twelve(*bottom_piece, library_table(), COUNT_THRESHOLD);
        }
        dominoes.push((top_values[i], bottom_domino));
        i = i + 1;
    }
    dominoes
}

/// A half read against a table of values 0 to 12 reads at most 12.
pub proof fn lemma_table_reading_at_most_twelve(
    half: RgbImage,
    bounds: Seq<(u8, u8, u8, u8, u8, u8)>,
    threshold: u32,
)
    requires
        bounds.len() == 13,
    ensures
        half_value(
            median_bgra_image(half.data@, half.width, half.height, MEDIAN_RADIUS),
            half.pixel_count(),
            table_entries(bounds),
            threshold,
        ) <= 12,
{
    let dominoes = table_entries(bounds);
    assert(is_table(dominoes, bounds));
    lemma_table_values_distinct(dominoes, bounds);
    lemma_half_value_in_table(
        median_bgra_image(half.data@, half.width, half.height, MEDIAN_RADIUS),
        half.pixel_count(),
        dominoes,
        threshold,
    );
}

/// The count the leading bucket of a half must exceed in the command-line tool.
pub const COMMAND_LINE_COUNT_THRESHOLD: u32 = 200;

/// Reads both halves of each domino from their colour buckets, as the
/// command-line tool does.
pub fn read_dominoes_command_line(pieces: &Vec<(RgbImage, RgbImage)>) -> (dominoes: Vec<(u8, u8)>)
    requires
        countable_pieces(pieces@),
    ensures
        dominoes@.len() == pieces@.len(),
        forall|i: int|
            0 <= i < pieces@.len() ==> #[trigger] dominoes@[i] == (
                command_line_half_value(pieces@[i].0, COMMAND_LINE_COUNT_THRESHOLD),
                command_line_half_value(pieces@[i].1, COMMAND_LINE_COUNT_THRESHOLD),
            ),
        forall|i: int| 0 <= i < dominoes@.len() ==> (#[trigger] dominoes@[i]).0 <= 12 && dominoes@[i].1 <= 12,
{
    let mut dominoes: Vec<(u8, u8)> = Vec::new();
    let mut i: usize = 0;
    while i < pieces.len()
        invariant
            i <= pieces@.len(),
            countable_pieces(pieces@),
            dominoes@.len() == i,
            forall|j: int|
                0 <= j < i ==> #[trigger] dominoes@[j] == (
                    command_line_half_value(pieces@[j].0, COMMAND_LINE_COUNT_THRESHOLD),
                    command_line_half_value(pieces@[j].1, COMMAND_LINE_COUNT_THRESHOLD),
                ),
            forall|j: int| 0 <= j < i ==> (#[trigger] dominoes@[j]).0 <= 12 && dominoes@[j].1 <= 12,
        decreases pieces@.len() - i,
    {
        let (top_piece, bottom_piece) = (&pieces[i].0, &pieces[i].1);
        assert(countable_pieces(pieces@) && pieces@[i as int].0 == *top_piece && pieces@[i as int].1 == *bottom_piece);
        let top_buckets = count_pixel_ranges_command_line(top_piece);
        let bottom_buckets = count_pixel_ranges_command_line(bottom_piece);
        let top_domino = guess_with_threshold(top_buckets.as_slice(), COMMAND_LINE_COUNT_THRESHOLD);
        let bottom_domino = guess_with_threshold(bottom_buckets.as_slice(), COMMAND_LINE_COUNT_THRESHOLD);
        proof {
            lemma_guess_reads_leading_value(
                top_buckets@,
                median_bgra_image(top_piece.data@, top_piece.width, top_piece.height, MEDIAN_RADIUS),
                top_piece.pixel_count(),
                command_line_dominoes(),
                COMMAND_LINE_COUNT_THRESHOLD,
            );
            lemma_guess_reads_leading_value(
                bottom_buckets@,
                median_bgra_image(bottom_piece.data@, bottom_piece.width, bottom_piece.height, MEDIAN_RADIUS),
                bottom_piece.pixel_count(),
                command_line_dominoes(),
                COMMAND_LINE_COUNT_THRESHOLD,
            );
            lemma_table_reading_at_most_twelve(*top_piece, command_line_table(), COMMAND_LINE_COUNT_THRESHOLD);
            lemma_table_reading_at_most_twelve(*bottom_piece, command_line_table(), COMMAND_LINE_COUNT_THRESHOLD);
        }
        dominoes.push((top_domino, bottom_domino));
        i = i + 1;
    }
    dominoes
}

/// The points of one domino: 50 for the double blank, the sum of its halves otherwise.
pub open spec fn domino_score(domino: (u8, u8)) -> int {
    if domino.0 == 0 && domino.1 == 0 {
        50
    } else {
        domino.0 + domino.1
    }
}

/// The points of a row of dominoes.
pub open spec fn total_score(dominoes: Seq<(u8, u8)>) -> int
    decreases dominoes.len(),
{
    if dominoes.len() == 0 {
        0
    } else {
        total_score(dominoes.drop_last()) + domino_score(dominoes.last())
    }
}

/// The row can be scored: each domino's halves add up within a byte, and the
/// total within 32 bits.
pub open spec fn scorable(dominoes: Seq<(u8, u8)>) -> bool {
    &&& forall|i: int| 0 <= i < dominoes.len() ==> (#[trigger] dominoes[i]).0 + dominoes[i].1 <= u8::MAX
    &&& total_score(dominoes) <= u32::MAX
}

/// Adding a domino to a row adds its points: 50 for the double blank, and for
/// any other domino, doubles included, the sum of its halves.
pub proof fn lemma_domino_points(row: Seq<(u8, u8)>, top: u8, bottom: u8)
    ensures
        top == 0 && bottom == 0 ==> total_score(row.push((top, bottom))) == total_score(row) + 50,
        !(top == 0 && bottom == 0) ==> total_score(row.push((top, bottom))) == total_score(row) + top + bottom,
        top == 0 && bottom == 0 ==> total_score(seq![(top, bottom)]) == 50,
        !(top == 0 && bottom == 0) ==> total_score(seq![(top, bottom)]) == top + bottom,
{
    assert(row.push((top, bottom)).drop_last() =~= row);
    let single = seq![(top, bottom)];
    assert(single.drop_last() =~= Seq::<(u8, u8)>::empty());
    assert(total_score(Seq::<(u8, u8)>::empty()) == 0);
    assert(single.last() == (top, bottom));
    assert(total_score(single) == total_score(single.drop_last()) + domino_score((top, bottom)));
}

/// The points of a row never decrease as dominoes are added.
proof fn lemma_total_score_prefix(dominoes: Seq<(u8, u8)>, i: int)
    requires
        0 <= i <= dominoes.len(),
    ensures
        0 <= total_score(dominoes.take(i)) <= total_score(dominoes),
    decreases dominoes.len() - i,
{
    if i < dominoes.len() {
        lemma_total_score_prefix(dominoes, i + 1);
        assert(dominoes.take(i + 1).drop_last() =~= dominoes.take(i));
    } else {
        assert(dominoes.take(i) =~= dominoes);
    }
    if i > 0 {
        lemma_total_score_nonnegative(dominoes.take(i));
    }
}

proof fn lemma_total_score_nonnegative(dominoes: Seq<(u8, u8)>)
    ensures
        total_score(dominoes) >= 0,
    decreases dominoes.len(),
{
    if dominoes.len() > 0 {
        lemma_total_score_nonnegative(dominoes.drop_last());
    }
}

/// The points of a row are the points of its first part plus those of the rest.
pub proof fn lemma_total_score_additive(first: Seq<(u8, u8)>, rest: Seq<(u8, u8)>)
    ensures
        total_score(first + rest) == total_score(first) + total_score(rest),
    decreases rest.len(),
{
    if rest.len() > 0 {
        lemma_total_score_additive(first, rest.drop_last());
        assert((first + rest).drop_last() =~= first + rest.drop_last());
    } else {
        assert(first + rest =~= first);
    }
}

/// A row whose halves read at most 12 scores at most 50 points a domino, so any
/// row of fewer than 85 million dominoes can be scored.
pub proof fn lemma_small_values_scorable(dominoes: Seq<(u8, u8)>)
    requires
        forall|i: int| 0 <= i < dominoes.len() ==> (#[trigger] dominoes[i]).0 <= 12 && dominoes[i].1 <= 12,
        50 * dominoes.len() <= u32::MAX,
    ensures
        scorable(dominoes),
{
    lemma_total_score_bound(dominoes);
}

proof fn lemma_total_score_bound(dominoes: Seq<(u8, u8)>)
    requires
        forall|i: int| 0 <= i < dominoes.len() ==> (#[trigger] dominoes[i]).0 <= 12 && dominoes[i].1 <= 12,
    ensures
        total_score(dominoes) <= 50 * dominoes.len(),
    decreases dominoes.len(),
{
    if dominoes.len() > 0 {
        let rest = dominoes.drop_last();
        assert forall|i: int| 0 <= i < rest.len() implies (#[trigger] rest[i]).0 <= 12 && rest[i].1 <= 12 by {
            assert(rest[i] == dominoes[i]);
        }
        lemma_total_score_bound(rest);
    }
}

/// Whether the row can be scored without overflow.
pub fn dominoes_scorable(dominoes: &[(u8, u8)]) -> (ok: bool)
    ensures
        ok == scorable(dominoes@),
{
    let mut total: u64 = 0;
    let mut i: usize = 0;
    while i < dominoes.len()
        invariant
            i <= dominoes@.len(),
            total == total_score(dominoes@.take(i as int)),
            total <= u32::MAX,
            forall|j: int| 0 <= j < i ==> (#[trigger] dominoes@[j]).0 + dominoes@[j].1 <= u8::MAX,
        decreases dominoes@.len() - i,
    {
        let (top, bottom) = dominoes[i];
        proof {
            assert(dominoes@.take(i + 1).drop_last() =~= dominoes@.take(i as int));
        }
        if top as u16 + bottom as u16 > 255 {
            return false;
        }
        let score: u64 = if top == 0 && bottom == 0 { 50 } else { (top + bottom) as u64 };
        if total + score > u32::MAX as u64 {
            proof {
                lemma_total_score_prefix(dominoes@, i + 1);
            }
            return false;
        }
        total = total + score;
        i = i + 1;
    }
    proof {
        assert(dominoes@.take(dominoes@.len() as int) =~= dominoes@);
    }
    true
}

/// The points of a row of dominoes.
pub fn score_dominoes(dominoes: &[(u8, u8)]) -> (total_value: u32)
    requires
        scorable(dominoes@),
    ensures
        total_value == total_score(dominoes@),
{
    let mut total_value: u32 = 0;
    let mut i: usize = 0;
    while i < dominoes.len()
        invariant
            i <= dominoes@.len(),
            scorable(dominoes@),
            total_value == total_score(dominoes@.take(i as int)),
        decreases dominoes@.len() - i,
    {
        let (top_domino, bottom_domino) = dominoes[i];
        proof {
            assert(dominoes@.take(i + 1).drop_last() =~= dominoes@.take(i as int));
            lemma_total_score_prefix(dominoes@, i + 1);
        }
        if top_domino == 0 && bottom_domino == 0 {
            total_value = total_value + 50;
        } else {
            total_value = total_value + (top_domino + bottom_domino) as u32;
        }
        i = i + 1;
    }
    proof {
        assert(dominoes@.take(dominoes@.len() as int) =~= dominoes@);
    }
    total_value
}

/// The points of a row of read dominoes and their labels.
pub fn score_row(dominoes: &[(u8, u8)]) -> (result: (u32, String))
    requires
        scorable(dominoes@),
    ensures
        result.0 == total_score(dominoes@),
        result.1@ == domino_labels(dominoes@),
{
    (score_dominoes(dominoes), domino_string(dominoes))
}

/// A read row of dominoes: each domino's halves, the row's points and its labels.
pub struct RowReading {
    pub dominoes: Vec<(u8, u8)>,
    pub total: u32,
    pub labels: String,
}

/// The readings of a row: each top value as given, each bottom half read against
/// the library's table.
pub open spec fn row_readings(pieces: Seq<(RgbImage, RgbImage)>, top_values: Seq<u8>) -> Seq<(u8, u8)> {
    Seq::new(pieces.len(), |d: int| (top_values[d], library_half_value(pieces[d].1, COUNT_THRESHOLD)))
}

/// Reads a row of dominoes, with the top values given (they come from the image
/// classifier), and scores it: the readings, their points and their labels, or
/// `None` when the row cannot be scored.
pub fn read_row(pieces: &Vec<(RgbImage, RgbImage)>, top_values: &[u8]) -> (reading: Option<RowReading>)
    requires
        top_values@.len() == pieces@.len(),
        countable_pieces(pieces@),
    ensures
        reading is Some <==> scorable(row_readings(pieces@, top_values@)),
        reading matches Some(r) ==> {
            &&& r.dominoes@ == row_readings(pieces@, top_values@)
            &&& r.total == total_score(row_readings(pieces@, top_values@))
            &&& r.labels@ == domino_labels(row_readings(pieces@, top_values@))
        },
{
    let dominoes = read_dominoes(pieces, top_values);
    proof {
        assert(dominoes@ =~= row_readings(pieces@, top_values@));
    }
    if dominoes_scorable(dominoes.as_slice()) {
        let (total, labels) = score_row(dominoes.as_slice());
        Some(RowReading { dominoes, total, labels })
    } else {
        None
    }
}

/// Why a photo's row of dominoes could not be counted.
#[derive(Debug, Clone, Copy, PartialEq, Eq, Structural)]
pub enum RowError {
    /// The row was estimated to hold no domino.
    NoDominoes,
    /// The points of the row do not fit: a domino's halves add up past a byte,
    /// or the row's total past 32 bits.
    Unscorable,
}

/// The section that the row is read from: the whole of a cropped photo, the
/// detected outer edges of any other.
pub open spec fn row_section(image: RgbImage, cropped: bool) -> DominoImageSection {
    if cropped {
        whole_image_section(image.width, image.height)
    } else {
        detect_outer_spec(image)
    }
}

/// `result` is what counting the dominoes of `image` gives when the photo is made
/// landscape (`oriented`), the row's section is found in it, `estimate` puts
/// `count` dominoes in a section of that width and height, the row is split into
/// `count` strips of equal width cut at the section's middle (`pieces`), and
/// `classify` reads the top half of strip `d` as `tops[d]`.
pub open spec fn is_row_result<E: Fn(u32, u32) -> u8, C: Fn(&RgbImage) -> u8>(
    result: Result<(u32, String), RowError>,
    image: RgbImage,
    cropped: bool,
    estimate: E,
    classify: C,
    oriented: RgbImage,
    count: u8,
    pieces: Seq<(RgbImage, RgbImage)>,
    tops: Seq<u8>,
) -> bool {
    let section = row_section(oriented, cropped);
    let readings = row_readings(pieces, tops);
    &&& is_landscape_of(oriented, image)
    &&& oriented.height <= oriented.width
    &&& estimate.ensures(((section.right - section.left) as u32, (section.bottom - section.top) as u32), count)
    &&& count == 0 ==> result == Err::<(u32, String), RowError>(RowError::NoDominoes)
    &&& count > 0 ==> {
        &&& is_row_pieces(pieces, oriented, section, count as int)
        &&& tops.len() == count
        &&& forall|d: int| 0 <= d < count ==> classify.ensures((&pieces[d].0,), #[trigger] tops[d])
        &&& (result is Ok <==> scorable(readings))
        &&& !scorable(readings) ==> result == Err::<(u32, String), RowError>(RowError::Unscorable)
        &&& result matches Ok(r) ==> r.0 == total_score(readings) && r.1@ == domino_labels(readings)
    }
}

/// Counts the dominoes of a photo: makes it landscape, finds the row (the whole
/// photo when it is cropped), splits the row into as many strips of equal width,
/// left to right, as `estimate_count` gives for the section's width and height,
/// cuts each strip at the section's middle, reads each top half with
/// `classify_top` and each bottom half from its colours, and returns the row's
/// points and labels. The image must be at least 5 pixels long and 1 high once
/// landscape, so that its first row's first five pixels exist.
pub fn find_dominos<E: Fn(u32, u32) -> u8, C: Fn(&RgbImage) -> u8>(
    image: RgbImage,
    cropped: bool,
    estimate_count: E,
    classify_top: C,
) -> (result: Result<(u32, String), RowError>)
    requires
        image.wf(),
        image.fits(),
        image.pixel_count() <= u32::MAX,
        image.width >= 1,
        image.height >= 1,
        image.width >= 5 || image.height >= 5,
        forall|w: u32, h: u32| #[trigger] estimate_count.requires((w, h)),
        forall|piece: &RgbImage| #[trigger] classify_top.requires((piece,)),
    ensures
        exists|oriented: RgbImage, count: u8, pieces: Seq<(RgbImage, RgbImage)>, tops: Seq<u8>|
            #[trigger] is_row_result(result, image, cropped, estimate_count, classify_top, oriented, count, pieces, tops),
{
    let ghost original = image;
    let oriented = orient_landscape(image);
    let section = domino_section(&oriented, cropped);
    let count = estimate_count(section.right - section.left, section.bottom - section.top);
    if count == 0 {
        let result = Err(RowError::NoDominoes);
        proof {
            assert(is_row_result(
                result,
                original,
                cropped,
                estimate_count,
                classify_top,
                oriented,
                count,
                Seq::empty(),
                Seq::empty(),
            ));
        }
        return result;
    }
    let pieces = row_pieces(&oriented, &section, count);
    let mut tops: Vec<u8> = Vec::new();
    let mut i: usize = 0;
    while i < pieces.len()
        invariant
            i <= pieces@.len(),
            tops@.len() == i,
            forall|piece: &RgbImage| #[trigger] classify_top.requires((piece,)),
            forall|d: int| 0 <= d < i ==> classify_top.ensures((&pieces@[d].0,), #[trigger] tops@[d]),
        decreases pieces@.len() - i,
    {
        let top = classify_top(&pieces[i].0);
        tops.push(top);
        i = i + 1;
    }
    let result = match read_row(&pieces, tops.as_slice()) {
        Some(reading) => Ok((reading.total, reading.labels)),
        None => Err(RowError::Unscorable),
    };
    proof {
        assert(is_row_result(
            result,
            original,
            cropped,
            estimate_count,
            classify_top,
            oriented,
            count,
            pieces@,
            tops@,
        ));
    }
    result
}

/// The readings of a row as the command-line tool makes them: both halves read
/// against its table.
pub open spec fn command_line_row_readings(pieces: Seq<(RgbImage, RgbImage)>) -> Seq<(u8, u8)> {
    Seq::new(
        pieces.len(),
        |d: int|
            (
                command_line_half_value(pieces[d].0, COMMAND_LINE_COUNT_THRESHOLD),
                command_line_half_value(pieces[d].1, COMMAND_LINE_COUNT_THRESHOLD),
            ),
    )
}

/// Reads a row of dominoes as the command-line tool does and scores it: every half
/// reads at most 12, so a row of up to 85 million dominoes can always be scored.
pub fn read_row_command_line(pieces: &Vec<(RgbImage, RgbImage)>) -> (reading: (Vec<(u8, u8)>, u32))
    requires
        countable_pieces(pieces@),
        50 * pieces@.len() <= u32::MAX,
    ensures
        reading.0@ == command_line_row_readings(pieces@),
        reading.1 == total_score(command_line_row_readings(pieces@)),
{
    let dominoes = read_dominoes_command_line(pieces);
    proof {
        assert(dominoes@ =~= command_line_row_readings(pieces@));
        lemma_small_values_scorable(dominoes@);
    }
    let total = score_dominoes(dominoes.as_slice());
    (dominoes, total)
}

} // verus!
