use domino_counter::buckets::{count_pixel_ranges, count_pixel_ranges_command_line, guess_domino, guess_with_threshold};
use domino_counter::dominoes::{construct_command_line_dominoes, construct_dominoes, ColorRange, DominoRange};
use domino_counter::ranking::{rank_entries, top_ranked, RankOrder};
use domino_counter::raster::RgbImage;
use domino_counter::statistics::{bin_pixels, count_most_common_pixels, count_white_pixels};

fn uniform(width: u32, height: u32, rgb: (u8, u8, u8)) -> RgbImage {
    let mut data = Vec::new();
    for _ in 0..(width * height) {
        data.push(rgb.0);
        data.push(rgb.1);
        data.push(rgb.2);
    }
    RgbImage::from_raw(width, height, data).unwrap()
}

#[test]
fn from_raw_needs_three_bytes_per_pixel() {
    assert!(RgbImage::from_raw(2, 2, vec![0; 12]).is_some());
    assert!(RgbImage::from_raw(2, 2, vec![0; 11]).is_none());
    assert!(RgbImage::from_raw(2, 2, vec![0; 13]).is_none());
    assert!(RgbImage::from_raw(0, 5, vec![]).is_some());
}

#[test]
fn get_pixel_reads_row_major() {
    let image = RgbImage::from_raw(2, 2, (0..12).collect()).unwrap();
    assert_eq!(image.get_pixel(0, 0), (0, 1, 2));
    assert_eq!(image.get_pixel(1, 0), (3, 4, 5));
    assert_eq!(image.get_pixel(0, 1), (6, 7, 8));
    assert_eq!(image.get_pixel(1, 1), (9, 10, 11));
}

#[test]
fn library_table_lists_values_in_order() {
    let table = construct_dominoes();
    assert_eq!(table.len(), 13);
    for (i, d) in table.iter().enumerate() {
        assert_eq!(d.value as usize, i);
        assert_eq!(d.leeway, 10);
    }
    assert_eq!((table[1].color_range.r.start, table[1].color_range.r.end), (40, 100));
    assert_eq!((table[10].color_range.b.start, table[10].color_range.b.end), (0, 40));
    assert_eq!((table[0].ratio.start, table[0].ratio.end), (1000, 99000));
    assert_eq!((table[10].ratio.start, table[10].ratio.end), (1375, 1375));
    assert_eq!((table[5].ratio.start, table[5].ratio.end), (6910, 6910));
}

#[test]
fn command_line_table_differs_in_its_colours() {
    let table = construct_command_line_dominoes();
    assert_eq!(table.len(), 13);
    assert_eq!((table[1].color_range.r.start, table[1].color_range.r.end), (60, 80));
    assert_eq!((table[3].color_range.g.start, table[3].color_range.g.end), (35, 55));
    assert_eq!((table[12].color_range.b.start, table[12].color_range.b.end), (120, 140));
}

#[test]
fn defaults_cover_every_channel_value() {
    let c = ColorRange::default();
    assert_eq!((c.r.start, c.r.end, c.g.start, c.g.end, c.b.start, c.b.end), (0, 255, 0, 255, 0, 255));
    let d = DominoRange::default();
    assert_eq!((d.ratio.start, d.ratio.end, d.leeway, d.value), (0, 0, 10, 0));
}

#[test]
fn ranking_orders_by_count_then_key() {
    let entries = vec![(3, 5), (1, 7), (2, 5), (9, 1)];
    let desc = RankOrder { count_descending: true, key_descending: false };
    assert_eq!(rank_entries(&entries, desc), vec![(1, 7), (2, 5), (3, 5), (9, 1)]);
    let asc = RankOrder { count_descending: false, key_descending: true };
    assert_eq!(rank_entries(&entries, asc), vec![(9, 1), (3, 5), (2, 5), (1, 7)]);
    assert_eq!(top_ranked(&entries, desc, 2), vec![(1, 7), (2, 5)]);
    assert_eq!(top_ranked(&entries, desc, 10).len(), 4);
}

#[test]
fn guess_takes_the_leading_bucket_above_forty() {
    assert_eq!(guess_domino(&[(3, 41), (5, 100)]), 3);
    assert_eq!(guess_domino(&[(3, 40)]), 0);
    assert_eq!(guess_domino(&[]), 0);
    assert_eq!(guess_with_threshold(&[(7, 201)], 200), 7);
    assert_eq!(guess_with_threshold(&[(7, 200)], 200), 0);
}

#[test]
fn uniform_pip_colour_fills_one_bucket() {
    // (75, 140, 35) lies only in the widened ranges of value 2.
    let image = uniform(7, 7, (75, 140, 35));
    let buckets = count_pixel_ranges(&image);
    assert_eq!(buckets, vec![(2, 49)]);
    assert_eq!(guess_domino(&buckets), 2);
}

#[test]
fn too_few_pip_pixels_read_as_blank() {
    let image = uniform(6, 6, (75, 140, 35));
    let buckets = count_pixel_ranges(&image);
    assert_eq!(buckets, vec![(2, 36)]);
    assert_eq!(guess_domino(&buckets), 0);
}

#[test]
fn white_and_black_pixels_cast_no_votes() {
    assert!(count_pixel_ranges(&uniform(5, 5, (250, 250, 250))).is_empty());
    assert!(count_pixel_ranges(&uniform(5, 5, (10, 10, 10))).is_empty());
}

#[test]
fn overlapping_ranges_fill_several_buckets() {
    // (130, 60, 50) lies in the widened ranges of both 4 and 11; equal counts
    // come in ascending order of value.
    let buckets = count_pixel_ranges(&uniform(3, 3, (130, 60, 50)));
    assert_eq!(buckets, vec![(4, 9), (11, 9)]);
    let buckets = count_pixel_ranges(&uniform(3, 3, (130, 60, 70)));
    assert_eq!(buckets, vec![(11, 9)]);
}

#[test]
fn command_line_table_reads_its_own_colours() {
    // (70, 115, 130) lies in value 1's ranges of the command-line table.
    let buckets = count_pixel_ranges_command_line(&uniform(4, 4, (70, 115, 130)));
    assert_eq!(buckets, vec![(1, 16)]);
}

#[test]
fn white_count_splits_every_pixel() {
    let image = RgbImage::from_raw(3, 1, vec![255, 255, 255, 200, 190, 181, 0, 0, 0]).unwrap();
    assert_eq!(count_white_pixels(&image), (2, 1));
    let (white, other) = count_white_pixels(&uniform(4, 5, (100, 100, 100)));
    assert_eq!((white, other), (0, 20));
}

#[test]
fn bins_have_width_ten() {
    let image = RgbImage::from_raw(2, 1, vec![0, 128, 255, 9, 10, 250]).unwrap();
    let bins = bin_pixels(&image);
    assert_eq!(bins.r.len(), 26);
    assert_eq!(bins.r[0], 2);
    assert_eq!(bins.g[12], 1);
    assert_eq!(bins.g[1], 1);
    assert_eq!(bins.b[25], 2);
}

#[test]
fn every_pixel_lands_in_one_bin_per_channel() {
    let data: Vec<u8> = (0..60u32).map(|i| (i * 37 % 256) as u8).collect();
    let image = RgbImage::from_raw(4, 5, data).unwrap();
    let bins = bin_pixels(&image);
    assert_eq!(bins.r.iter().sum::<u32>(), 20);
    assert_eq!(bins.g.iter().sum::<u32>(), 20);
    assert_eq!(bins.b.iter().sum::<u32>(), 20);
}

#[test]
fn residues_of_a_uniform_image() {
    let top = count_most_common_pixels(&uniform(5, 5, (76, 141, 37)));
    assert_eq!(top, vec![((5, 5, 10), 25)]);
    assert!(count_most_common_pixels(&uniform(5, 5, (255, 255, 255))).is_empty());
}
