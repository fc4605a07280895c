//! Locating the row of dominoes in an image: its outer edges from a Canny edge
//! map, the inner edges between neighbouring dominoes, and the lines that mark them.

use vstd::prelude::*;
use crate::imaging::{canny, canny_image, grayscale, luma_image, draw_line_segment, drawable_point, line_image};
use crate::raster::{GrayImage, GrayView, RgbImage, luma_at, MAX_SIDE};

verus! {

/// The rectangle that the row of dominoes occupies, with the row that separates
/// the top halves from the bottom halves.
#[derive(Debug, Clone, Copy)]
pub struct DominoImageSection {
    pub top: u32,
    pub bottom: u32,
    pub left: u32,
    pub right: u32,
    pub middle: u32,
}

/// Which way an edge is searched for.
#[derive(Clone, Copy)]
pub enum Direction {
    /// Along the middle row, location by location.
    Horizontal,
    /// Along the middle column, location by location.
    Vertical,
}

/// The pixel that is probed for a location: on the middle column for a vertical
/// search, on the middle row for a horizontal one.
pub open spec fn probe(edges: GrayView, location: int, direction: Direction) -> (int, int) {
    match direction {
        Direction::Vertical => ((edges.0 / 2) as int, location),
        Direction::Horizontal => (location, (edges.1 / 2) as int),
    }
}

/// The probed pixel lies inside the edge map.
pub open spec fn probe_in_bounds(edges: GrayView, location: int, direction: Direction) -> bool {
    let (x, y) = probe(edges, location, direction);
    0 <= x < edges.0 && 0 <= y < edges.1
}

/// The probed pixel is an edge pixel.
pub open spec fn hits(edges: GrayView, location: int, direction: Direction) -> bool {
    let (x, y) = probe(edges, location, direction);
    luma_at(edges, x, y) == 255
}

/// Every location that is probed, up to and including the first hit, lies inside the map.
pub open spec fn probes_in_bounds(locations: Seq<u32>, edges: GrayView, direction: Direction) -> bool
    decreases locations.len(),
{
    locations.len() == 0 || (probe_in_bounds(edges, locations[0] as int, direction) && (hits(
        edges,
        locations[0] as int,
        direction,
    ) || probes_in_bounds(locations.drop_first(), edges, direction)))
}

/// The first location whose probe hits an edge, or 0 when none does.
pub open spec fn first_hit(locations: Seq<u32>, edges: GrayView, direction: Direction) -> u32
    decreases locations.len(),
{
    if locations.len() == 0 {
        0
    } else if hits(edges, locations[0] as int, direction) {
        locations[0]
    } else {
        first_hit(locations.drop_first(), edges, direction)
    }
}

/// Scans the locations in order and returns the first whose probe is an edge
/// pixel (value 255), or 0 when none is.
pub fn find_edge(locations: &[u32], edge_image: &GrayImage, direction: Direction) -> (found_edge: u32)
    requires
        edge_image.wf(),
        probes_in_bounds(locations@, edge_image@, direction),
    ensures
        found_edge == first_hit(locations@, edge_image@, direction),
{
    let mut i: usize = 0;
    assert(locations@.skip(0) =~= locations@);
    while i < locations.len()
        invariant
            i <= locations@.len(),
            edge_image.wf(),
            probes_in_bounds(locations@.skip(i as int), edge_image@, direction),
            first_hit(locations@, edge_image@, direction) == first_hit(locations@.skip(i as int), edge_image@, direction),
        decreases locations@.len() - i,
    {
        let location = locations[i];
        let ghost rest = locations@.skip(i as int);
        assert(rest[0] == location);
        let (x, y) = match direction {
            Direction::Vertical => (edge_image.width / 2, location),
            Direction::Horizontal => (location, edge_image.height / 2),
        };
        if edge_image.get_luma(x, y) == 255 {
            return location;
        }
        assert(rest.drop_first() =~= locations@.skip(i + 1));
        i = i + 1;
    }
    0
}

/// The locations `0, 1, ..., n - 1`.
pub open spec fn ascending(n: int) -> Seq<u32> {
    Seq::new(n as nat, |i: int| i as u32)
}

/// The locations `n - 1, ..., 1, 0`.
pub open spec fn descending(n: int) -> Seq<u32> {
    Seq::new(n as nat, |i: int| (n - 1 - i) as u32)
}

/// The locations `0..n`, forwards or backwards.
fn locations_up_to(n: u32, backwards: bool) -> (locations: Vec<u32>)
    ensures
        locations@ == if backwards { descending(n as int) } else { ascending(n as int) },
{
    let mut locations: Vec<u32> = Vec::new();
    let mut i: u32 = 0;
    while i < n
        invariant
            i <= n,
            locations@.len() == i,
            forall|j: int|
                0 <= j < i ==> #[trigger] locations@[j] == if backwards { (n - 1 - j) as u32 } else { j as u32 },
        decreases n - i,
    {
        if backwards {
            locations.push(n - 1 - i);
        } else {
            locations.push(i);
        }
        i = i + 1;
    }
    proof {
        if backwards {
            assert(locations@ =~= descending(n as int));
        } else {
            assert(locations@ =~= ascending(n as int));
        }
    }
    locations
}

/// The location at which a probe along `direction` stays inside the map for every
/// location below `n`.
pub open spec fn extent(edges: GrayView, direction: Direction) -> int {
    match direction {
        Direction::Vertical => edges.1 as int,
        Direction::Horizontal => edges.0 as int,
    }
}

/// Every probe of a location below the extent lies inside a non-empty map.
proof fn lemma_probes_in_bounds(locations: Seq<u32>, edges: GrayView, direction: Direction)
    requires
        edges.0 >= 1,
        edges.1 >= 1,
        forall|i: int| 0 <= i < locations.len() ==> #[trigger] locations[i] < extent(edges, direction),
    ensures
        probes_in_bounds(locations, edges, direction),
    decreases locations.len(),
{
    if locations.len() > 0 {
        let rest = locations.drop_first();
        assert forall|i: int| 0 <= i < rest.len() implies #[trigger] rest[i] < extent(edges, direction) by {
            assert(rest[i] == locations[i + 1]);
        }
        lemma_probes_in_bounds(rest, edges, direction);
    }
}

/// Scanning `a, a + 1, ..., n - 1` finds the least hitting location, or 0 when none hits.
proof fn lemma_first_hit_ascending(edges: GrayView, direction: Direction, a: int, n: int)
    requires
        0 <= a <= n <= u32::MAX + 1,
    ensures
        ({
            let s = Seq::new((n - a) as nat, |i: int| (a + i) as u32);
            let found = first_hit(s, edges, direction) as int;
            ||| (found == 0 && forall|l: int| a <= l < n ==> !#[trigger] hits(edges, l, direction))
            ||| (a <= found < n && hits(edges, found, direction) && forall|l: int|
                a <= l < found ==> !#[trigger] hits(edges, l, direction))
        }),
    decreases n - a,
{
    let s = Seq::new((n - a) as nat, |i: int| (a + i) as u32);
    if a < n {
        lemma_first_hit_ascending(edges, direction, a + 1, n);
        let t = Seq::new((n - a - 1) as nat, |i: int| (a + 1 + i) as u32);
        assert(s.drop_first() =~= t);
    }
}

/// Scanning `m - 1, ..., 1, 0` finds the greatest hitting location, or 0 when none hits.
proof fn lemma_first_hit_descending(edges: GrayView, direction: Direction, m: int)
    requires
        0 <= m <= u32::MAX + 1,
    ensures
        ({
            let found = first_hit(descending(m), edges, direction) as int;
            ||| (found == 0 && forall|l: int| 0 <= l < m ==> !#[trigger] hits(edges, l, direction))
            ||| (0 <= found < m && hits(edges, found, direction) && forall|l: int|
                found < l < m ==> !#[trigger] hits(edges, l, direction))
        }),
    decreases m,
{
    if m > 0 {
        let s = descending(m);
        if !hits(edges, m - 1, direction) {
            lemma_first_hit_descending(edges, direction, m - 1);
            assert(s.drop_first() =~= descending(m - 1));
        }
    }
}

/// Scanning forwards finds a location no later than scanning backwards, and both stay below the extent.
pub proof fn lemma_scans_ordered(edges: GrayView, direction: Direction, n: int)
    requires
        1 <= n <= u32::MAX,
    ensures
        first_hit(ascending(n), edges, direction) <= first_hit(descending(n), edges, direction) < n,
{
    lemma_first_hit_ascending(edges, direction, 0, n);
    assert(Seq::new((n - 0) as nat, |i: int| (0 + i) as u32) =~= ascending(n));
    lemma_first_hit_descending(edges, direction, n);
}

/// The outer edges of the row that a Canny edge map of `image` shows: the first
/// edge pixels met on the middle column from the top and from the bottom, and on
/// the middle row from the left and from the right.
pub open spec fn outer_section_of(edges: GrayView) -> DominoImageSection {
    let top = first_hit(ascending(edges.1 as int), edges, Direction::Vertical);
    let bottom = first_hit(descending(edges.1 as int), edges, Direction::Vertical);
    let left = first_hit(ascending(edges.0 as int), edges, Direction::Horizontal);
    let right = first_hit(descending(edges.0 as int), edges, Direction::Horizontal);
    DominoImageSection { top, bottom, left, right, middle: ((bottom - top) / 2 + top) as u32 }
}

/// The Canny thresholds used to find the outer edges.
pub const CANNY_LOW: u8 = 70;
pub const CANNY_HIGH: u8 = 100;

/// The section lies inside a `width` by `height` image, its middle between its top and bottom.
pub open spec fn section_fits(section: DominoImageSection, width: int, height: int) -> bool {
    &&& section.top <= section.middle <= section.bottom < height
    &&& section.left <= section.right < width
}

/// The edge map that the outer edges are searched in: the Canny edges, with
/// thresholds 70 and 100, of the grayscale image.
pub fn edge_map(image: &RgbImage) -> (edges: GrayImage)
    requires
        image.wf(),
        image.width >= 1,
        image.height >= 1,
        image.fits(),
        image.pixel_count() <= u32::MAX,
    ensures
        edges.wf(),
        edges@ == (
            image.width,
            image.height,
            canny_image(
                luma_image(image.data@, image.width, image.height),
                image.width,
                image.height,
                CANNY_LOW,
                CANNY_HIGH,
            ),
        ),
{
    let gray = grayscale(image);
    canny(&gray, CANNY_LOW, CANNY_HIGH)
}

/// Finds the outer edges of the row in an edge map: the first edge pixels met on
/// the middle column from the top and from the bottom, and on the middle row from
/// the left and from the right; the middle lies halfway between top and bottom.
pub fn locate_outer_edges(edges: &GrayImage) -> (section: DominoImageSection)
    requires
        edges.wf(),
        edges.width >= 1,
        edges.height >= 1,
    ensures
        section == outer_section_of(edges@),
        section_fits(section, edges.width as int, edges.height as int),
{
    let height = edges.height;
    let width = edges.width;
    let down = locations_up_to(height, false);
    let up = locations_up_to(height, true);
    let rightwards = locations_up_to(width, false);
    let leftwards = locations_up_to(width, true);
    proof {
        lemma_probes_in_bounds(down@, edges@, Direction::Vertical);
        lemma_probes_in_bounds(up@, edges@, Direction::Vertical);
        lemma_probes_in_bounds(rightwards@, edges@, Direction::Horizontal);
        lemma_probes_in_bounds(leftwards@, edges@, Direction::Horizontal);
        lemma_scans_ordered(edges@, Direction::Vertical, height as int);
        lemma_scans_ordered(edges@, Direction::Horizontal, width as int);
    }
    let bottom = find_edge(up.as_slice(), edges, Direction::Vertical);
    let top = find_edge(down.as_slice(), edges, Direction::Vertical);
    let left = find_edge(rightwards.as_slice(), edges, Direction::Horizontal);
    let right = find_edge(leftwards.as_slice(), edges, Direction::Horizontal);
    let middle = (bottom - top) / 2 + top;
    DominoImageSection { top, bottom, left, right, middle }
}

/// Finds the outer edges of the row of dominoes in the Canny edge map of the
/// grayscale image.
pub fn detect_outer_domino_edges(image: &RgbImage) -> (section: DominoImageSection)
    requires
        image.wf(),
        image.width >= 1,
        image.height >= 1,
        image.fits(),
        image.pixel_count() <= u32::MAX,
    ensures
        section == outer_section_of(
            (
                image.width,
                image.height,
                canny_image(
                    luma_image(image.data@, image.width, image.height),
                    image.width,
                    image.height,
                    CANNY_LOW,
                    CANNY_HIGH,
                ),
            ),
        ),
        section_fits(section, image.width as int, image.height as int),
{
    let edges = edge_map(image);
    locate_outer_edges(&edges)
}

/// The x coordinate of inner edge `x` of a row split into `count` equal parts:
/// `x` whole parts of width `(right - left) / count` to the right of `left`.
pub open spec fn inner_edge(section: DominoImageSection, count: int, x: int) -> int {
    (section.right - section.left) / count * x + section.left
}

/// A part's width times a number of parts no greater than their count stays within the row.
proof fn lemma_parts_fit(width: int, count: int, x: int)
    requires
        0 <= width,
        0 < count,
        0 <= x <= count,
    ensures
        0 <= width / count * x <= width,
{
    assert(0 <= width / count * x <= width / count * count) by (nonlinear_arith)
        requires
            0 <= width,
            0 < count,
            0 <= x <= count,
    ;
    assert(width / count * count <= width) by (nonlinear_arith)
        requires
            0 <= width,
            0 < count,
    ;
}

/// Splits the row into `num_dominos` dominoes of equal width and returns the
/// `num_dominos + 1` edges between and around them, from left to right.
pub fn detect_inner_domino_edges(dom_section: &DominoImageSection, num_dominos: u8) -> (edges: Vec<u32>)
    requires
        dom_section.top <= dom_section.bottom,
        dom_section.left <= dom_section.right,
        num_dominos > 0,
    ensures
        edges@.len() == num_dominos + 1,
        forall|x: int| 0 <= x <= num_dominos ==> #[trigger] edges@[x] == inner_edge(*dom_section, num_dominos as int, x),
        edges@[0] == dom_section.left,
        edges@[num_dominos as int] <= dom_section.right,
        forall|a: int, b: int| 0 <= a <= b <= num_dominos ==> #[trigger] edges@[a] <= #[trigger] edges@[b],
{
    let dom_width = dom_section.right - dom_section.left;
    let step = dom_width / num_dominos as u32;
    let mut edges: Vec<u32> = Vec::new();
    let mut x: u32 = 0;
    while x <= num_dominos as u32
        invariant
            x <= num_dominos + 1,
            num_dominos > 0,
            dom_section.left <= dom_section.right,
            dom_width == dom_section.right - dom_section.left,
            step == dom_width as int / num_dominos as int,
            edges@.len() == x,
            forall|i: int| 0 <= i < x ==> #[trigger] edges@[i] == inner_edge(*dom_section, num_dominos as int, i),
        decreases num_dominos + 1 - x,
    {
        proof {
            lemma_parts_fit(dom_width as int, num_dominos as int, x as int);
        }
        edges.push(step * x + dom_section.left);
        x = x + 1;
    }
    proof {
        assert forall|a: int, b: int| 0 <= a <= b <= num_dominos implies #[trigger] edges@[a] <= #[trigger] edges@[b] by {
            assert(step * a <= step * b) by (nonlinear_arith)
                requires
                    0 <= a <= b,
                    0 <= step,
            ;
        }
        lemma_parts_fit(dom_width as int, num_dominos as int, num_dominos as int);
    }
    edges
}

/// The colour of the lines that mark a located row.
pub open spec fn line_colour() -> (u8, u8, u8, u8) {
    (122, 255, 0, 1)
}

/// A line segment between two points.
pub type Segment = ((u32, u32), (u32, u32));

/// The row between the top and the middle of a section, as the lines are drawn.
pub open spec fn middle_point(section: DominoImageSection) -> int {
    (section.bottom - section.top) / 2 + section.top
}

/// The segments that mark a section: its four sides, its middle row and the rows
/// five pixels below and above it, then a vertical segment at every inner edge.
pub open spec fn domino_line_segments_spec(section: DominoImageSection, inner_edges: Seq<u32>) -> Seq<Segment> {
    let (t, b, l, r) = (section.top, section.bottom, section.left, section.right);
    let mp = middle_point(section);
    seq![
        ((l, t), (r, t)),
        ((l, b), (r, b)),
        ((l, t), (l, b)),
        ((r, t), (r, b)),
        ((l, mp as u32), (r, mp as u32)),
        ((l, (mp + 5) as u32), (r, (mp + 5) as u32)),
        ((l, (mp - 5) as u32), (r, (mp - 5) as u32)),
    ] + inner_edges.map_values(|e: u32| ((e, t), (e, b)))
}

/// The segments can be computed: the bottom is not above the top, and the rows
/// five pixels around the middle exist.
pub open spec fn segments_computable(section: DominoImageSection) -> bool {
    &&& section.top <= section.bottom
    &&& 5 <= middle_point(section)
    &&& middle_point(section) + 5 <= u32::MAX
}

/// Both end points of a segment are below `MAX_SIDE`.
pub open spec fn segment_drawable(segment: Segment) -> bool {
    drawable_point(segment.0) && drawable_point(segment.1)
}

/// Every line that marks the section and its inner edges stays below `MAX_SIDE`:
/// its bottom, the row five pixels below its middle, its sides and each inner edge.
pub open spec fn section_drawable(section: DominoImageSection, inner_edges: Seq<u32>) -> bool {
    &&& section.bottom < MAX_SIDE
    &&& middle_point(section) + 5 < MAX_SIDE
    &&& section.left < MAX_SIDE
    &&& section.right < MAX_SIDE
    &&& forall|i: int| 0 <= i < inner_edges.len() ==> #[trigger] inner_edges[i] < MAX_SIDE
}

/// Each segment of a drawable section has its end points below `MAX_SIDE`.
proof fn lemma_segments_drawable(section: DominoImageSection, inner_edges: Seq<u32>)
    requires
        segments_computable(section),
        section_drawable(section, inner_edges),
    ensures
        forall|j: int|
            0 <= j < domino_line_segments_spec(section, inner_edges).len() ==> segment_drawable(
                #[trigger] domino_line_segments_spec(section, inner_edges)[j],
            ),
{
    let segments = domino_line_segments_spec(section, inner_edges);
    assert forall|j: int| 0 <= j < segments.len() implies segment_drawable(#[trigger] segments[j]) by {
        if j >= 7 {
            assert(segments[j] == ((inner_edges[j - 7], section.top), (inner_edges[j - 7], section.bottom)));
        }
    }
}

/// The segments that mark a section and its inner edges.
pub fn domino_line_segments(dom_section: &DominoImageSection, dom_inner_edges: &[u32]) -> (segments: Vec<Segment>)
    requires
        segments_computable(*dom_section),
    ensures
        segments@ == domino_line_segments_spec(*dom_section, dom_inner_edges@),
{
    let (t, b, l, r) = (dom_section.top, dom_section.bottom, dom_section.left, dom_section.right);
    let middle = (b - t) / 2 + t;
    let mut segments: Vec<Segment> = Vec::new();
    segments.push(((l, t), (r, t)));
    segments.push(((l, b), (r, b)));
    segments.push(((l, t), (l, b)));
    segments.push(((r, t), (r, b)));
    segments.push(((l, middle), (r, middle)));
    segments.push(((l, middle + 5), (r, middle + 5)));
    segments.push(((l, middle - 5), (r, middle - 5)));
    let ghost sides = segments@;
    let mut i: usize = 0;
    while i < dom_inner_edges.len()
        invariant
            i <= dom_inner_edges@.len(),
            segments@.len() == 7 + i,
            segments@.take(7) == sides,
            forall|j: int| 0 <= j < i ==> #[trigger] segments@[7 + j] == ((dom_inner_edges@[j], t), (dom_inner_edges@[j], b)),
        decreases dom_inner_edges@.len() - i,
    {
        let e = dom_inner_edges[i];
        segments.push(((e, t), (e, b)));
        i = i + 1;
        proof {
            assert(segments@.take(7) =~= sides);
        }
    }
    proof {
        let expected = domino_line_segments_spec(*dom_section, dom_inner_edges@);
        assert(sides =~= expected.take(7));
        assert forall|j: int| 0 <= j < segments@.len() implies #[trigger] segments@[j] == expected[j] by {
            if j < 7 {
                assert(segments@.take(7)[j] == segments@[j]);
            } else {
                assert(segments@[7 + (j - 7)] == segments@[j]);
            }
        }
        assert(segments@ =~= expected);
    }
    segments
}

/// The RGB buffer after drawing the segments one after the other.
pub open spec fn lines_drawn(data: Seq<u8>, width: u32, height: u32, segments: Seq<Segment>) -> Seq<u8>
    decreases segments.len(),
{
    if segments.len() == 0 {
        data
    } else {
        let s = segments.last();
        line_image(lines_drawn(data, width, height, segments.drop_last()), width, height, s.0.0, s.0.1, s.1.0, s.1.1, line_colour())
    }
}

/// Draws the lines that mark the section and its inner edges onto the image.
pub fn draw_domino_lines(image: &mut RgbImage, dom_section: &DominoImageSection, dom_inner_edges: &[u32])
    requires
        old(image).wf(),
        segments_computable(*dom_section),
        section_drawable(*dom_section, dom_inner_edges@),
    ensures
        final(image).wf(),
        final(image).width == old(image).width,
        final(image).height == old(image).height,
        final(image).data@ == lines_drawn(
            old(image).data@,
            old(image).width,
            old(image).height,
            domino_line_segments_spec(*dom_section, dom_inner_edges@),
        ),
{
    let segments = domino_line_segments(dom_section, dom_inner_edges);
    proof {
        lemma_segments_drawable(*dom_section, dom_inner_edges@);
    }
    let ghost before = image.data@;
    let line_colour_value: (u8, u8, u8, u8) = (122, 255, 0, 1);
    let mut i: usize = 0;
    while i < segments.len()
        invariant
            i <= segments@.len(),
            image.wf(),
            image.width == old(image).width,
            image.height == old(image).height,
            before == old(image).data@,
            line_colour_value == line_colour(),
            forall|j: int| 0 <= j < segments@.len() ==> segment_drawable(#[trigger] segments@[j]),
            image.data@ == lines_drawn(before, image.width, image.height, segments@.take(i as int)),
        decreases segments@.len() - i,
    {
        let (start, end) = segments[i];
        assert(segment_drawable(segments@[i as int]));
        draw_line_segment(image, start, end, line_colour_value);
        proof {
            assert(segments@.take(i + 1).drop_last() =~= segments@.take(i as int));
        }
        i = i + 1;
    }
    proof {
        assert(segments@.take(segments@.len() as int) =~= segments@);
    }
}

/// The section of a whole image: all of it, split at half its height.
pub open spec fn whole_image_section(width: u32, height: u32) -> DominoImageSection {
    DominoImageSection { top: 0, bottom: height, left: 0, right: width, middle: height / 2 }
}

/// A copy of an image.
pub fn duplicate(image: &RgbImage) -> (copy: RgbImage)
    ensures
        copy.width == image.width,
        copy.height == image.height,
        copy.data@ == image.data@,
{
    let mut data: Vec<u8> = Vec::new();
    let mut i: usize = 0;
    while i < image.data.len()
        invariant
            i <= image.data@.len(),
            data@ == image.data@.take(i as int),
        decreases image.data@.len() - i,
    {
        data.push(image.data[i]);
        i = i + 1;
        proof {
            assert(data@ =~= image.data@.take(i as int));
        }
    }
    proof {
        assert(image.data@.take(image.data@.len() as int) =~= image.data@);
    }
    RgbImage { width: image.width, height: image.height, data }
}

/// The section of evaluation images, which show one domino filling the frame: the
/// whole image. The lines are drawn on a copy that is then dropped.
pub fn detect_domino_edges_eval_data(image: &RgbImage) -> (section: DominoImageSection)
    requires
        image.wf(),
        image.fits(),
        image.height >= 10,
    ensures
        section == whole_image_section(image.width, image.height),
{
    let height = image.height;
    let width = image.width;
    let result = DominoImageSection { top: 0, bottom: height, left: 0, right: width, middle: height / 2 };
    let mut img_clone = duplicate(image);
    draw_domino_lines(&mut img_clone, &result, &[]);
    result
}

} // verus!
