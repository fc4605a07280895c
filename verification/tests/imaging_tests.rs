use domino_counter::buckets::count_pixel_ranges;
use domino_counter::imaging::{median_filtered, to_bgra8};
use domino_counter::location::edge_map;
use domino_counter::pipeline::{dominoes_scorable, domino_pieces, read_dominoes_command_line};
use domino_counter::location::DominoImageSection;
use domino_counter::raster::RgbImage;

fn uniform_with_centre(size: u32, rgb: (u8, u8, u8), centre: (u8, u8, u8)) -> RgbImage {
    let mut data = Vec::new();
    for y in 0..size {
        for x in 0..size {
            let p = if x == size / 2 && y == size / 2 { centre } else { rgb };
            data.extend_from_slice(&[p.0, p.1, p.2]);
        }
    }
    RgbImage::from_raw(size, size, data).unwrap()
}

#[test]
fn bgra_reverses_channels_and_adds_alpha() {
    let image = RgbImage::from_raw(2, 1, vec![1, 2, 3, 4, 5, 6]).unwrap();
    assert_eq!(to_bgra8(&image), vec![3, 2, 1, 255, 6, 5, 4, 255]);
}

#[test]
fn median_filter_removes_a_lone_pixel() {
    let image = uniform_with_centre(5, (75, 140, 35), (0, 0, 0));
    let filtered = median_filtered(&image, 10);
    let centre = 4 * (2 * 5 + 2);
    assert_eq!(&filtered[centre..centre + 4], &[35, 140, 75, 255]);
    // The lone black pixel is filtered away before counting.
    assert_eq!(count_pixel_ranges(&image), vec![(2, 25)]);
}

#[test]
fn edge_map_marks_borders_not_interiors() {
    let mut data = Vec::new();
    for y in 0..30u32 {
        for x in 0..40u32 {
            let v = if (10..30).contains(&x) && (8..22).contains(&y) { 255 } else { 0 };
            data.extend_from_slice(&[v, v, v]);
        }
    }
    let image = RgbImage::from_raw(40, 30, data).unwrap();
    let edges = edge_map(&image);
    assert_eq!((edges.width, edges.height, edges.data.len()), (40, 30, 1200));
    assert_eq!(edges.get_luma(20, 15), 0);
    assert!(edges.data.iter().all(|&v| v == 0 || v == 255));
    assert!(edges.data.iter().any(|&v| v == 255));
}

#[test]
fn halves_split_each_domino_exactly() {
    let image = RgbImage::from_raw(9, 6, vec![7; 9 * 6 * 3]).unwrap();
    let section = DominoImageSection { top: 1, bottom: 6, left: 0, right: 9, middle: 3 };
    let pieces = domino_pieces(&image, &section, &[0, 3, 6, 9]);
    assert_eq!(pieces.len(), 3);
    for (top, bottom) in &pieces {
        assert_eq!((top.width, bottom.width), (3, 3));
        assert_eq!(top.height + bottom.height, 5);
    }
}

#[test]
fn command_line_readings_are_table_values() {
    let piece = || RgbImage::from_raw(15, 15, [70u8, 115, 130].repeat(225)).unwrap();
    let pieces: Vec<(RgbImage, RgbImage)> = (0..3).map(|_| (piece(), piece())).collect();
    let read = read_dominoes_command_line(&pieces);
    assert!(read.iter().all(|&(t, b)| t <= 12 && b <= 12));
    assert!(dominoes_scorable(&read));
    assert!(dominoes_scorable(&vec![(12, 12); 1000]));
}
