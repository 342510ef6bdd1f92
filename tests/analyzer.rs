use color_analyzer::{AnalyzerError, HandleImage, PixelGrid};

fn grid_of(width: u32, height: u32, pixels: &[[u8; 3]]) -> PixelGrid {
    let mut data = Vec::new();
    for p in pixels {
        data.extend_from_slice(p);
    }
    assert_eq!(data.len(), 3 * (width * height) as usize);
    PixelGrid { width, height, data }
}

fn uniform(width: u32, height: u32, c: [u8; 3]) -> PixelGrid {
    let pixels = vec![c; (width * height) as usize];
    grid_of(width, height, &pixels)
}

fn encoded(img: image::RgbImage, format: image::ImageOutputFormat) -> Vec<u8> {
    let mut out = std::io::Cursor::new(Vec::new());
    img.write_to(&mut out, format).unwrap();
    out.into_inner()
}

fn sorted(mut v: Vec<[u8; 3]>) -> Vec<[u8; 3]> {
    v.sort();
    v
}

#[test]
fn dimensions_are_those_of_the_original() {
    let h = HandleImage::from_grid(uniform(1200, 700, [1, 2, 3]));
    assert_eq!(h.get_dimensions(), [1200, 700]);
}

#[test]
fn dimensions_survive_colour_queries() {
    let mut h = HandleImage::from_grid(uniform(900, 600, [9, 9, 9]));
    let _ = h.get_colors();
    let _ = h.get_dominant_color();
    assert_eq!(h.get_dimensions(), [900, 600]);
}

#[test]
fn one_pixel_image_has_one_colour() {
    let mut h = HandleImage::from_grid(grid_of(1, 1, &[[12, 34, 56]]));
    assert_eq!(h.get_colors(), vec![[12, 34, 56]]);
    assert_eq!(h.get_dimensions(), [1, 1]);
}

#[test]
fn colours_twice_are_equal() {
    let px = [[1, 2, 3], [4, 5, 6], [1, 2, 3], [7, 8, 9], [4, 5, 6], [0, 0, 0]];
    let mut h = HandleImage::from_grid(grid_of(3, 2, &px));
    let first = h.get_colors();
    let second = h.get_colors();
    assert_eq!(first, second);
    assert_eq!(sorted(first), vec![[0, 0, 0], [1, 2, 3], [4, 5, 6], [7, 8, 9]]);
}

#[test]
fn returned_colours_are_a_copy() {
    let mut h = HandleImage::from_grid(grid_of(2, 1, &[[1, 1, 1], [2, 2, 2]]));
    let mut first = h.get_colors();
    first.clear();
    assert_eq!(sorted(h.get_colors()), vec![[1, 1, 1], [2, 2, 2]]);
}

#[test]
fn dominant_of_single_colour_image() {
    let mut h = HandleImage::from_grid(uniform(4, 3, [200, 100, 50]));
    assert_eq!(h.get_dominant_color(), Ok([200, 100, 50]));
}

#[test]
fn dominant_of_large_single_colour_image() {
    let mut h = HandleImage::from_grid(uniform(800, 600, [17, 99, 240]));
    assert_eq!(h.get_dominant_color(), Ok([17, 99, 240]));
}

#[test]
fn dominant_of_two_colours_rounds() {
    let mut h = HandleImage::from_grid(grid_of(2, 1, &[[0, 0, 0], [10, 20, 30]]));
    assert_eq!(h.get_dominant_color(), Ok([5, 10, 15]));
}

#[test]
fn dominant_weighs_distinct_colours_equally() {
    let px = [[0, 0, 0], [0, 0, 0], [0, 0, 0], [90, 90, 90]];
    let mut h = HandleImage::from_grid(grid_of(2, 2, &px));
    assert_eq!(h.get_dominant_color(), Ok([45, 45, 45]));
}

#[test]
fn dominant_rounds_halves_up() {
    let mut h = HandleImage::from_grid(grid_of(2, 1, &[[1, 2, 3], [2, 3, 4]]));
    assert_eq!(h.get_dominant_color(), Ok([2, 3, 4]));
}

#[test]
fn grayscale_threshold_edge_is_strict() {
    let mut h = HandleImage::from_grid(grid_of(2, 1, &[[100, 100, 100], [50, 51, 50]]));
    assert!(!h.check_grayscale(1));
    assert!(h.check_grayscale(2));
}

#[test]
fn one_chromatic_colour_fails_grayscale() {
    let px = [[10, 10, 200], [100, 100, 100], [0, 0, 0], [255, 255, 255]];
    let mut h = HandleImage::from_grid(grid_of(4, 1, &px));
    assert!(!h.check_grayscale(5));
}

#[test]
fn neutral_image_is_grayscale() {
    let px = [[10, 12, 11], [100, 100, 100], [0, 0, 0], [255, 253, 254]];
    let mut h = HandleImage::from_grid(grid_of(2, 2, &px));
    assert!(h.check_grayscale(5));
    assert!(!h.check_grayscale(2));
}

#[test]
fn largest_channel_difference() {
    let px = [[10, 20, 30], [0, 0, 0], [5, 9, 6]];
    let mut h = HandleImage::from_grid(grid_of(3, 1, &px));
    assert_eq!(h.get_grayscale_threshold(), Some(20));
}

#[test]
fn empty_image_has_no_statistics() {
    let mut h = HandleImage::from_grid(grid_of(0, 0, &[]));
    assert_eq!(h.get_grayscale_threshold(), None);
    assert_eq!(h.get_dominant_color(), Err(AnalyzerError::EmptyInput));
    assert!(h.get_colors().is_empty());
    assert!(h.check_grayscale(1));
}

#[test]
fn empty_area_with_width_has_no_statistics() {
    let mut h = HandleImage::from_grid(grid_of(700, 0, &[]));
    assert_eq!(h.get_grayscale_threshold(), None);
    assert_eq!(h.get_dimensions(), [700, 0]);
}

#[test]
fn set_decodes_png() {
    let mut img = image::RgbImage::new(3, 1);
    img.put_pixel(0, 0, image::Rgb([255, 0, 0]));
    img.put_pixel(1, 0, image::Rgb([0, 255, 0]));
    img.put_pixel(2, 0, image::Rgb([255, 0, 0]));
    let bytes = encoded(img, image::ImageOutputFormat::Png);
    let mut h = HandleImage::set(&bytes).unwrap();
    assert_eq!(h.get_dimensions(), [3, 1]);
    assert_eq!(sorted(h.get_colors()), vec![[0, 255, 0], [255, 0, 0]]);
}

#[test]
fn set_rejects_garbage() {
    assert_eq!(HandleImage::set(b"not an image").err(), Some(AnalyzerError::Decode));
    assert_eq!(HandleImage::set(&[]).err(), Some(AnalyzerError::Decode));
}

#[test]
fn set_from_web_decodes_jpeg() {
    let img = image::RgbImage::from_pixel(16, 8, image::Rgb([128, 128, 128]));
    let bytes = encoded(img, image::ImageOutputFormat::Jpeg(90));
    let mut h = HandleImage::set_from_web(&bytes).unwrap();
    assert_eq!(h.get_dimensions(), [16, 8]);
    assert!(h.check_grayscale(3));
}

#[test]
fn set_from_web_rejects_non_jpeg() {
    let img = image::RgbImage::from_pixel(2, 2, image::Rgb([1, 2, 3]));
    let bytes = encoded(img, image::ImageOutputFormat::Png);
    assert!(HandleImage::set(&bytes).is_ok());
    assert_eq!(HandleImage::set_from_web(&bytes).err(), Some(AnalyzerError::Decode));
}
