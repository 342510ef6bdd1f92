use color_analyzer::grid::PixelGrid;
use color_analyzer::palette::{all_colors_neutral, get_difference, max_spread, mean_color};
use color_analyzer::sampling::{calculate, compressing_image, smaller, target_dimensions};

#[test]
fn small_images_keep_their_size() {
    assert_eq!(target_dimensions(1, 1), (1, 1));
    assert_eq!(target_dimensions(400, 300), (400, 300));
    assert_eq!(target_dimensions(500, 9000), (500, 9000));
    assert_eq!(target_dimensions(0, 0), (0, 0));
    assert_eq!(target_dimensions(3000, 0), (3000, 0));
}

#[test]
fn shorter_side_becomes_five_hundred() {
    assert_eq!(target_dimensions(1000, 600), (833, 500));
    assert_eq!(target_dimensions(600, 1000), (500, 833));
    assert_eq!(target_dimensions(501, 2000), (500, 1996));
    assert_eq!(target_dimensions(1001, 1001), (500, 500));
}

#[test]
fn scaling_rounds_halves_up() {
    assert_eq!(target_dimensions(1001, 1000), (501, 500));
    assert_eq!(calculate(1001, 1000), 501);
    assert_eq!(calculate(1000, 1000), 500);
}

#[test]
fn downsampling_never_enlarges() {
    for &(w, h) in &[(1u32, 1u32), (499, 501), (501, 499), (4000, 3000), (777, 100000)] {
        let (nw, nh) = target_dimensions(w, h);
        assert!(nw <= w && nh <= h);
    }
}

#[test]
fn smaller_side() {
    assert_eq!(smaller(3, 7), 3);
    assert_eq!(smaller(7, 3), 3);
    assert_eq!(smaller(5, 5), 5);
}

#[test]
fn working_copy_is_resampled() {
    let grid = PixelGrid { width: 1000, height: 600, data: vec![77u8; 3 * 1000 * 600] };
    let small = compressing_image(&grid);
    assert_eq!((small.width, small.height), (833, 500));
    assert_eq!(small.data.len(), 3 * 833 * 500);
}

#[test]
fn small_working_copy_is_identical() {
    let data: Vec<u8> = (0..(3 * 20 * 10)).map(|i| (i % 251) as u8).collect();
    let grid = PixelGrid { width: 20, height: 10, data: data.clone() };
    let copy = compressing_image(&grid);
    assert_eq!((copy.width, copy.height), (20, 10));
    assert_eq!(copy.data, data);
}

#[test]
fn channel_difference() {
    assert_eq!(get_difference(10, 200), 190);
    assert_eq!(get_difference(200, 10), 190);
    assert_eq!(get_difference(0, 0), 0);
    assert_eq!(get_difference(0, 255), 255);
}

#[test]
fn mean_of_colours() {
    assert_eq!(mean_color(&[]), None);
    assert_eq!(mean_color(&[[0, 0, 0], [10, 20, 30]]), Some([5, 10, 15]));
    assert_eq!(mean_color(&[[255, 255, 255], [255, 255, 254]]), Some([255, 255, 255]));
    assert_eq!(mean_color(&[[0, 0, 1], [0, 0, 0], [0, 1, 1]]), Some([0, 0, 1]));
}

#[test]
fn neutral_lists() {
    assert!(all_colors_neutral(&[], 0));
    assert!(!all_colors_neutral(&[[0, 0, 0]], 0));
    assert!(all_colors_neutral(&[[0, 0, 0]], 1));
    assert!(!all_colors_neutral(&[[3, 0, 0]], 3));
}

#[test]
fn largest_spread_of_list() {
    assert_eq!(max_spread(&[]), None);
    assert_eq!(max_spread(&[[1, 1, 1]]), Some(0));
    assert_eq!(max_spread(&[[0, 100, 255], [50, 50, 50]]), Some(255));
}
