use std::io::Cursor;

use palaxy::collector::Collector;
use palaxy::error::Error;

fn png_of(pixel: [u8; 3], width: u32, height: u32) -> Vec<u8> {
    let img = image::RgbImage::from_pixel(width, height, image::Rgb(pixel));
    let mut bytes: Vec<u8> = Vec::new();
    img.write_to(&mut Cursor::new(&mut bytes), image::ImageFormat::Png).unwrap();
    bytes
}

fn raw(pixels: &[[u8; 3]]) -> Vec<u8> {
    pixels.iter().flat_map(|p| p.iter().copied()).collect()
}

#[test]
fn grey_cover_is_not_a_volume_start() {
    let bytes = png_of([128, 128, 128], 8, 6);
    for s in [1u8, 50, 75, 100] {
        assert_eq!(Collector::is_volume_start(&bytes, s).unwrap(), false);
    }
}

#[test]
fn red_cover_is_a_volume_start() {
    let bytes = png_of([255, 0, 0], 8, 6);
    assert_eq!(Collector::is_volume_start(&bytes, 75).unwrap(), true);
}

#[test]
fn undecodable_cover_fails() {
    let bytes = vec![1u8, 2, 3, 4, 5];
    assert!(matches!(Collector::is_volume_start(&bytes, 75), Err(Error::ImageFailure(_))));
}

#[test]
fn share_of_colour_against_sensitivity() {
    // three grey pixels and one red: a quarter is coloured
    let img = raw(&[[10, 10, 10], [255, 0, 0], [200, 200, 200], [7, 7, 7]]);
    assert!(!Collector::is_grayscale(&img, 24));
    assert!(Collector::is_grayscale(&img, 25));
    assert!(Collector::is_grayscale(&img, 75));
}

#[test]
fn channel_tolerance_wraps_around() {
    // differences of 9 count as neutral, 10 do not
    assert!(Collector::is_grayscale(&raw(&[[109, 100, 100]]), 50));
    assert!(!Collector::is_grayscale(&raw(&[[110, 100, 100]]), 50));
    // red below green wraps to a large difference: not neutral
    assert!(!Collector::is_grayscale(&raw(&[[100, 101, 100]]), 50));
    assert!(!Collector::is_grayscale(&raw(&[[5, 11, 11]]), 50));
    assert!(!Collector::is_grayscale(&raw(&[[250, 0, 0]]), 50));
    // red 250 below green wraps to 6, under the tolerance: counted neutral
    assert!(Collector::is_grayscale(&raw(&[[0, 250, 250]]), 50));
}

#[test]
fn pure_blue_counts_as_neutral() {
    // blue minus red and minus green wraps to 1: the heuristic's known quirk
    assert!(Collector::is_grayscale(&raw(&[[0, 0, 255]]), 50));
}

#[test]
fn empty_image_is_grey() {
    assert!(Collector::is_grayscale(&Vec::new(), 75));
}
