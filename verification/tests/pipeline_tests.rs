use domino_counter::labels::domino_string;
use domino_counter::location::DominoImageSection;
use domino_counter::pipeline::{
    domino_pieces, domino_section, dominoes_scorable, find_dominos, orient_landscape, read_dominoes,
    read_dominoes_command_line, read_row, read_row_command_line, rgba_buffer_to_rgb, row_pieces, score_dominoes,
    score_row, RowError,
};
use domino_counter::raster::RgbImage;

fn uniform(width: u32, height: u32, rgb: (u8, u8, u8)) -> RgbImage {
    let mut data = Vec::new();
    for _ in 0..(width * height) {
        data.extend_from_slice(&[rgb.0, rgb.1, rgb.2]);
    }
    RgbImage::from_raw(width, height, data).unwrap()
}

#[test]
fn rgba_buffer_drops_alpha() {
    let image = rgba_buffer_to_rgb(&[1, 2, 3, 4, 5, 6, 7, 8, 9], 2, 1);
    assert_eq!((image.width, image.height), (2, 1));
    assert_eq!(image.data, vec![1, 2, 3, 5, 6, 7]);
}

#[test]
fn portrait_photos_are_turned() {
    // A 1x2 image: A above B. Turned, A is left of B.
    let image = RgbImage::from_raw(1, 2, vec![1, 1, 1, 2, 2, 2]).unwrap();
    let turned = orient_landscape(image);
    assert_eq!((turned.width, turned.height), (2, 1));
    assert_eq!(turned.data, vec![1, 1, 1, 2, 2, 2]);
    // A 2x2 image turned counter-clockwise: the top-right pixel goes to the top-left.
    let image = RgbImage::from_raw(2, 3, (0..18).collect()).unwrap();
    let turned = orient_landscape(image);
    assert_eq!((turned.width, turned.height), (3, 2));
    assert_eq!(turned.get_pixel(0, 0), (3, 4, 5));
    assert_eq!(turned.get_pixel(2, 1), (12, 13, 14));
}

#[test]
fn landscape_photos_stay() {
    let image = uniform(4, 3, (9, 9, 9));
    let same = orient_landscape(image);
    assert_eq!((same.width, same.height), (4, 3));
}

#[test]
fn every_portrait_photo_is_turned() {
    let turned = orient_landscape(uniform(2, 3, (0, 0, 0)));
    assert_eq!((turned.width, turned.height), (3, 2));
    let turned = orient_landscape(uniform(100, 150, (0, 0, 0)));
    assert_eq!((turned.width, turned.height), (150, 100));
    let square = orient_landscape(uniform(3, 3, (0, 0, 0)));
    assert_eq!((square.width, square.height), (3, 3));
}

#[test]
fn cropped_photos_are_their_own_section() {
    let s = domino_section(&uniform(9, 7, (1, 1, 1)), true);
    assert_eq!((s.top, s.bottom, s.left, s.right, s.middle), (0, 7, 0, 9, 3));
}

#[test]
fn pieces_are_the_halves_between_edges() {
    let image = RgbImage::from_raw(4, 4, (0..48).collect()).unwrap();
    let s = DominoImageSection { top: 0, bottom: 4, left: 0, right: 4, middle: 2 };
    let pieces = domino_pieces(&image, &s, &[0, 2, 4]);
    assert_eq!(pieces.len(), 2);
    let (top, bottom) = &pieces[1];
    assert_eq!((top.width, top.height, bottom.width, bottom.height), (2, 2, 2, 2));
    assert_eq!(top.get_pixel(0, 0), image.get_pixel(2, 0));
    assert_eq!(bottom.get_pixel(1, 1), image.get_pixel(3, 3));
    assert!(domino_pieces(&image, &s, &[]).is_empty());
    assert!(domino_pieces(&image, &s, &[3]).is_empty());
}

#[test]
fn crops_are_clamped_to_the_image() {
    let image = uniform(4, 4, (5, 5, 5));
    let s = DominoImageSection { top: 0, bottom: 9, left: 0, right: 9, middle: 3 };
    let pieces = domino_pieces(&image, &s, &[2, 9]);
    let (top, bottom) = &pieces[0];
    assert_eq!((top.width, top.height), (2, 3));
    assert_eq!((bottom.width, bottom.height), (2, 1));
}

#[test]
fn bottoms_are_read_from_their_colours() {
    let pip = uniform(7, 7, (75, 140, 35));
    let blank = uniform(7, 7, (250, 250, 250));
    let pieces = vec![(uniform(1, 1, (0, 0, 0)), pip), (uniform(1, 1, (0, 0, 0)), blank)];
    assert_eq!(read_dominoes(&pieces, &[6, 0]), vec![(6, 2), (0, 0)]);
}

#[test]
fn command_line_reads_both_halves() {
    let one = uniform(15, 15, (70, 115, 130));
    let pieces = vec![(one, uniform(15, 15, (255, 255, 255)))];
    assert_eq!(read_dominoes_command_line(&pieces), vec![(1, 0)]);
    let few = uniform(10, 10, (70, 115, 130));
    let pieces = vec![(few, uniform(2, 2, (0, 0, 0)))];
    assert_eq!(read_dominoes_command_line(&pieces), vec![(0, 0)]);
}

#[test]
fn double_blank_scores_fifty() {
    assert_eq!(score_dominoes(&[(0, 0)]), 50);
    assert_eq!(score_dominoes(&[(0, 0), (3, 4), (12, 0)]), 69);
    assert_eq!(score_dominoes(&[]), 0);
}

#[test]
fn scores_add_up_over_parts() {
    let a = [(1, 2), (0, 0)];
    let b = [(6, 6), (0, 3)];
    let both = [(1, 2), (0, 0), (6, 6), (0, 3)];
    assert_eq!(score_dominoes(&both), score_dominoes(&a) + score_dominoes(&b));
}

#[test]
fn overflowing_rows_cannot_be_scored() {
    assert!(dominoes_scorable(&[(12, 12), (0, 0)]));
    assert!(dominoes_scorable(&[(200, 55)]));
    assert!(!dominoes_scorable(&[(200, 56)]));
}

#[test]
fn labels_show_each_domino() {
    assert_eq!(domino_string(&[(0, 0), (3, 12)]), "[0/0][3/12]");
    assert_eq!(domino_string(&[(255, 100)]), "[255/100]");
    assert_eq!(domino_string(&[]), "");
    assert_eq!(score_row(&[(0, 0), (5, 6)]), (61, String::from("[0/0][5/6]")));
}

#[test]
fn rows_split_into_equal_dominoes() {
    let image = RgbImage::from_raw(7, 4, (0..84).collect()).unwrap();
    let s = DominoImageSection { top: 0, bottom: 4, left: 1, right: 7, middle: 1 };
    let pieces = row_pieces(&image, &s, 3);
    assert_eq!(pieces.len(), 3);
    for (d, (top, bottom)) in pieces.iter().enumerate() {
        assert_eq!((top.width, top.height, bottom.width, bottom.height), (2, 1, 2, 3));
        assert_eq!(top.get_pixel(0, 0), image.get_pixel(1 + 2 * d as u32, 0));
        assert_eq!(bottom.get_pixel(1, 2), image.get_pixel(2 + 2 * d as u32, 3));
    }
}

#[test]
fn a_row_is_read_scored_and_labelled() {
    let pip = uniform(7, 7, (75, 140, 35));
    let blank = uniform(7, 7, (250, 250, 250));
    let pieces = vec![(uniform(1, 1, (0, 0, 0)), pip), (uniform(1, 1, (0, 0, 0)), blank)];
    let reading = read_row(&pieces, &[6, 0]).unwrap();
    assert_eq!(reading.dominoes, vec![(6, 2), (0, 0)]);
    assert_eq!(reading.total, 58);
    assert_eq!(reading.labels, "[6/2][0/0]");
    let pieces = vec![(uniform(1, 1, (0, 0, 0)), uniform(7, 7, (75, 140, 35)))];
    assert!(read_row(&pieces, &[254]).is_none());
    assert!(read_row(&pieces, &[253]).is_some());
    let empty = read_row(&Vec::new(), &[]).unwrap();
    assert_eq!((empty.dominoes.len(), empty.total, empty.labels.as_str()), (0, 0, ""));
}

#[test]
fn a_row_is_read_as_the_command_line_tool_does() {
    let one = uniform(15, 15, (70, 115, 130));
    let pieces = vec![(one, uniform(15, 15, (255, 255, 255))), (uniform(2, 2, (0, 0, 0)), uniform(2, 2, (0, 0, 0)))];
    let (dominoes, total) = read_row_command_line(&pieces);
    assert_eq!(dominoes, vec![(1, 0), (0, 0)]);
    assert_eq!(total, 51);
}

/// A cropped portrait photo of two dominoes side by side once turned: the left
/// one's bottom half is green (two), the right one's is white (blank).
fn two_domino_portrait() -> RgbImage {
    // Landscape: 28 wide, 14 high; the left 14 columns' lower 7 rows green.
    let (w, h) = (28u32, 14u32);
    let mut landscape = Vec::new();
    for y in 0..h {
        for x in 0..w {
            let rgb = if y >= 7 && x < 14 { (75, 140, 35) } else { (250, 250, 250) };
            landscape.push((x, y, rgb));
        }
    }
    // The portrait photo that turns into it, 14 wide and 28 high: turned
    // counter-clockwise, its pixel (px, py) lands at (py, 13 - px).
    let (pw, ph) = (h, w);
    let mut data = vec![0u8; (3 * pw * ph) as usize];
    for (x, y, rgb) in landscape {
        let (px, py) = (pw - 1 - y, x);
        let k = (3 * (py * pw + px)) as usize;
        data[k] = rgb.0;
        data[k + 1] = rgb.1;
        data[k + 2] = rgb.2;
    }
    RgbImage::from_raw(pw, ph, data).unwrap()
}

#[test]
fn a_photo_is_turned_split_read_and_scored() {
    let seen = std::cell::RefCell::new(Vec::new());
    let result = find_dominos(
        two_domino_portrait(),
        true,
        |w, h| {
            assert_eq!((w, h), (28, 14));
            2
        },
        |top: &RgbImage| {
            seen.borrow_mut().push((top.width, top.height));
            5
        },
    );
    assert_eq!(result, Ok((12, String::from("[5/2][5/0]"))));
    assert_eq!(*seen.borrow(), vec![(14, 7), (14, 7)]);
}

#[test]
fn a_photo_without_dominoes_or_points_is_refused() {
    assert_eq!(find_dominos(two_domino_portrait(), true, |_, _| 0, |_: &RgbImage| 1), Err(RowError::NoDominoes));
    assert_eq!(find_dominos(two_domino_portrait(), true, |_, _| 2, |_: &RgbImage| 254), Err(RowError::Unscorable));
    assert_eq!(find_dominos(two_domino_portrait(), true, |_, _| 2, |_: &RgbImage| 0), Ok((52, String::from("[0/2][0/0]"))));
}
