use raytracer::color::Rgb;
use raytracer::raster::{average, compose};
use raytracer::shading::shade;

fn channels(c: Rgb) -> [u8; 3] {
    [c.r, c.g, c.b]
}

#[test]
fn rgb_new_keeps_channels() {
    let c = Rgb::new(174, 198, 207);
    assert_eq!(channels(c), [174, 198, 207]);
}

#[test]
fn to_pixel_keeps_channel_order() {
    let p = Rgb::new(1, 2, 3).to_pixel();
    assert_eq!(p.0, [1, 2, 3]);
}

#[test]
fn miss_is_black() {
    let c = shade(None, &vec![]);
    assert_eq!(channels(c), [0, 0, 0]);
    let c = shade(None, &vec![false, false]);
    assert_eq!(channels(c), [0, 0, 0]);
}

#[test]
fn unlit_scene_keeps_base_color() {
    let base = Rgb::new(119, 221, 119);
    assert_eq!(channels(shade(Some(base), &vec![])), [119, 221, 119]);
}

#[test]
fn occluded_point_is_black_and_clear_point_keeps_color() {
    let base = Rgb::new(255, 105, 97);
    assert_eq!(channels(shade(Some(base), &vec![true])), [0, 0, 0]);
    assert_eq!(channels(shade(Some(base), &vec![false])), [255, 105, 97]);
}

#[test]
fn any_blocked_light_gives_black() {
    let base = Rgb::new(10, 20, 30);
    assert_eq!(channels(shade(Some(base), &vec![false, false, true])), [0, 0, 0]);
    assert_eq!(channels(shade(Some(base), &vec![true, false, false])), [0, 0, 0]);
    assert_eq!(channels(shade(Some(base), &vec![false, false, false])), [10, 20, 30]);
}

#[test]
fn average_of_split_pixel_is_truncated_mean() {
    let red = Rgb::new(255, 0, 0);
    let blue = Rgb::new(0, 0, 255);
    let samples = vec![red, red, red, red, blue, blue, blue, blue, blue];
    // 4 * 255 / 9 = 113.33 and 5 * 255 / 9 = 141.67, both truncated
    assert_eq!(channels(average(&samples)), [113, 0, 141]);
}

#[test]
fn average_against_background() {
    let c = Rgb::new(174, 198, 207);
    let k = Rgb::new(0, 0, 0);
    let samples = vec![c, c, c, k, k, k, k, k, k];
    assert_eq!(channels(average(&samples)), [58, 66, 69]);
}

#[test]
fn average_of_one_sample_is_that_sample() {
    assert_eq!(channels(average(&vec![Rgb::new(7, 8, 9)])), [7, 8, 9]);
}

#[test]
fn average_of_full_white_does_not_overflow() {
    let w = Rgb::new(255, 255, 255);
    assert_eq!(channels(average(&vec![w; 9])), [255, 255, 255]);
}

#[test]
fn average_of_uneven_values() {
    let samples = vec![Rgb::new(1, 2, 3), Rgb::new(2, 4, 7), Rgb::new(4, 9, 8)];
    assert_eq!(channels(average(&samples)), [2, 5, 6]);
}

#[test]
fn compose_places_pixels_row_major() {
    let a = Rgb::new(10, 0, 0);
    let b = Rgb::new(0, 20, 0);
    let c = Rgb::new(0, 0, 30);
    let d = Rgb::new(40, 40, 40);
    let samples = vec![vec![a], vec![b], vec![c], vec![d]];
    let raster = compose(2, 2, &samples);
    assert_eq!(raster.image.width(), 2);
    assert_eq!(raster.image.height(), 2);
    assert_eq!(raster.image.get_pixel(0, 0).0, [10, 0, 0]);
    assert_eq!(raster.image.get_pixel(1, 0).0, [0, 20, 0]);
    assert_eq!(raster.image.get_pixel(0, 1).0, [0, 0, 30]);
    assert_eq!(raster.image.get_pixel(1, 1).0, [40, 40, 40]);
}

#[test]
fn compose_averages_each_pixel() {
    let red = Rgb::new(255, 0, 0);
    let black = Rgb::new(0, 0, 0);
    let split = vec![red, red, red, red, red, black, black, black, black];
    let full = vec![red; 9];
    let raster = compose(3, 1, &vec![split, full, vec![black; 9]]);
    assert_eq!(raster.image.get_pixel(0, 0).0, [141, 0, 0]);
    assert_eq!(raster.image.get_pixel(1, 0).0, [255, 0, 0]);
    assert_eq!(raster.image.get_pixel(2, 0).0, [0, 0, 0]);
}

#[test]
fn compose_empty_raster() {
    let raster = compose(0, 0, &vec![]);
    assert_eq!(raster.image.width(), 0);
    assert_eq!(raster.image.height(), 0);
}
