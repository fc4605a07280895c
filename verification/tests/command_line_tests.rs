use domino_counter::command_line::{black_and_white, histogram, manipulate_image};
use domino_counter::raster::RgbImage;

fn uniform(width: u32, height: u32, rgb: (u8, u8, u8)) -> RgbImage {
    let mut data = Vec::new();
    for _ in 0..(width * height) {
        data.extend_from_slice(&[rgb.0, rgb.1, rgb.2]);
    }
    RgbImage::from_raw(width, height, data).unwrap()
}

#[test]
fn histogram_of_a_uniform_image() {
    let (blurred, tops) = histogram(&uniform(3, 3, (10, 20, 30)));
    assert_eq!(blurred.len(), 36);
    assert_eq!(&blurred[0..4], &[30, 20, 10, 255]);
    assert_eq!(tops.len(), 4);
    let blue: Vec<(usize, u32)> = vec![(30, 9)].into_iter().chain((191..200).rev().map(|v| (v, 0))).collect();
    assert_eq!(tops[0], blue);
    let alpha: Vec<(usize, u32)> = (190..200).rev().map(|v| (v, 0)).collect();
    assert_eq!(tops[3], alpha);
}

#[test]
fn black_and_white_keeps_only_extremes() {
    let image = RgbImage::from_raw(3, 1, vec![200, 200, 200, 10, 20, 30, 100, 200, 200]).unwrap();
    let bw = black_and_white(&image);
    assert_eq!(bw.data, vec![255, 255, 255, 255, 255, 255, 0, 0, 0]);
}

#[test]
fn uniform_image_has_no_edges() {
    let (gray, edges) = manipulate_image(&uniform(10, 8, (128, 128, 128)));
    assert_eq!((gray.width, gray.height, gray.data.len()), (10, 8, 80));
    assert_eq!(gray.data[0], 0);
    assert!(edges.data.iter().all(|&v| v == 0));
}
