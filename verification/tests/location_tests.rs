use domino_counter::location::{
    detect_domino_edges_eval_data, detect_inner_domino_edges, detect_outer_domino_edges, domino_line_segments,
    draw_domino_lines, find_edge, Direction, DominoImageSection,
};
use domino_counter::raster::{GrayImage, RgbImage};

fn uniform(width: u32, height: u32, rgb: (u8, u8, u8)) -> RgbImage {
    let mut data = Vec::new();
    for _ in 0..(width * height) {
        data.extend_from_slice(&[rgb.0, rgb.1, rgb.2]);
    }
    RgbImage::from_raw(width, height, data).unwrap()
}

/// A black image with a white rectangle from (x0, y0) to (x1, y1), inclusive.
fn framed(width: u32, height: u32, x0: u32, y0: u32, x1: u32, y1: u32) -> RgbImage {
    let mut data = Vec::new();
    for y in 0..height {
        for x in 0..width {
            let v = if x >= x0 && x <= x1 && y >= y0 && y <= y1 { 255 } else { 0 };
            data.extend_from_slice(&[v, v, v]);
        }
    }
    RgbImage::from_raw(width, height, data).unwrap()
}

fn section(top: u32, bottom: u32, left: u32, right: u32, middle: u32) -> DominoImageSection {
    DominoImageSection { top, bottom, left, right, middle }
}

#[test]
fn find_edge_returns_the_first_hit() {
    // A 3x4 map with edge pixels in the middle column at rows 1 and 3.
    let mut data = vec![0u8; 12];
    data[1 * 3 + 1] = 255;
    data[3 * 3 + 1] = 255;
    let edges = GrayImage { width: 3, height: 4, data };
    assert_eq!(find_edge(&[0, 1, 2, 3], &edges, Direction::Vertical), 1);
    assert_eq!(find_edge(&[3, 2, 1, 0], &edges, Direction::Vertical), 3);
    assert_eq!(find_edge(&[2, 0], &edges, Direction::Vertical), 0);
    assert_eq!(find_edge(&[], &edges, Direction::Vertical), 0);
}

#[test]
fn find_edge_horizontal_probes_the_middle_row() {
    let mut data = vec![0u8; 12];
    data[2 * 3 + 2] = 255;
    let edges = GrayImage { width: 3, height: 4, data };
    assert_eq!(find_edge(&[0, 1, 2], &edges, Direction::Horizontal), 2);
    assert_eq!(find_edge(&[1, 0], &edges, Direction::Horizontal), 0);
}

#[test]
fn uniform_image_has_no_outer_edges() {
    let s = detect_outer_domino_edges(&uniform(20, 12, (200, 200, 200)));
    assert_eq!((s.top, s.bottom, s.left, s.right, s.middle), (0, 0, 0, 0, 0));
}

#[test]
fn outer_edges_surround_a_bright_rectangle() {
    let image = framed(40, 30, 10, 8, 29, 21);
    let s = detect_outer_domino_edges(&image);
    assert!(s.top <= s.middle && s.middle <= s.bottom && s.bottom < 30);
    assert!(s.left <= s.right && s.right < 40);
    assert!(s.top >= 5 && s.top <= 10, "top {}", s.top);
    assert!(s.bottom >= 19 && s.bottom <= 24, "bottom {}", s.bottom);
    assert!(s.left >= 7 && s.left <= 12, "left {}", s.left);
    assert!(s.right >= 27 && s.right <= 32, "right {}", s.right);
    assert_eq!(s.middle, (s.bottom - s.top) / 2 + s.top);
}

#[test]
fn inner_edges_split_the_row_evenly() {
    let edges = detect_inner_domino_edges(&section(0, 50, 10, 110, 25), 4);
    assert_eq!(edges, vec![10, 35, 60, 85, 110]);
    // The last part absorbs the remainder of the division.
    let edges = detect_inner_domino_edges(&section(0, 50, 0, 10, 25), 3);
    assert_eq!(edges, vec![0, 3, 6, 9]);
    let edges = detect_inner_domino_edges(&section(0, 50, 7, 7, 25), 2);
    assert_eq!(edges, vec![7, 7, 7]);
}

#[test]
fn line_segments_mark_sides_middle_and_edges() {
    let s = section(0, 20, 0, 30, 10);
    let segments = domino_line_segments(&s, &[15]);
    assert_eq!(
        segments,
        vec![
            ((0, 0), (30, 0)),
            ((0, 20), (30, 20)),
            ((0, 0), (0, 20)),
            ((30, 0), (30, 20)),
            ((0, 10), (30, 10)),
            ((0, 15), (30, 15)),
            ((0, 5), (30, 5)),
            ((15, 0), (15, 20)),
        ]
    );
}

#[test]
fn drawn_lines_take_the_line_colour() {
    let mut image = uniform(31, 21, (0, 0, 0));
    draw_domino_lines(&mut image, &section(0, 20, 0, 30, 10), &[15]);
    assert_eq!((image.width, image.height), (31, 21));
    assert_eq!(image.get_pixel(0, 0), (122, 255, 0));
    assert_eq!(image.get_pixel(12, 10), (122, 255, 0));
    assert_eq!(image.get_pixel(15, 3), (122, 255, 0));
    assert_eq!(image.get_pixel(7, 7), (0, 0, 0));
}

#[test]
fn evaluation_images_are_their_own_section() {
    let s = detect_domino_edges_eval_data(&uniform(8, 12, (1, 2, 3)));
    assert_eq!((s.top, s.bottom, s.left, s.right, s.middle), (0, 12, 0, 8, 6));
}
