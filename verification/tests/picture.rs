use image::{DynamicImage, GenericImageView, GrayImage, RgbImage, RgbaImage};
use raytracer::texture::{Rgb, TextureMap};
use raytracer::world::frame;

fn rgb(r: u8, g: u8, b: u8) -> Rgb {
    Rgb { r, g, b }
}

#[test]
fn texture_of_an_rgba_picture() {
    let bytes = vec![1, 2, 3, 250, 4, 5, 6, 251, 7, 8, 9, 252, 10, 11, 12, 253, 13, 14, 15, 254, 16, 17, 18, 255];
    let picture = DynamicImage::ImageRgba8(RgbaImage::from_raw(3, 2, bytes).expect("picture"));
    let map = TextureMap::from_image(&picture).expect("map");
    assert_eq!((map.width(), map.height()), (3, 2));
    assert_eq!(map.colour_at(0, 0), rgb(1, 2, 3));
    assert_eq!(map.colour_at(2, 0), rgb(7, 8, 9));
    assert_eq!(map.colour_at(0, 1), rgb(10, 11, 12));
    assert_eq!(map.colour_at(2, 1), rgb(16, 17, 18));
}

#[test]
fn texture_of_a_grey_picture() {
    let picture = DynamicImage::ImageLuma8(GrayImage::from_raw(2, 2, vec![0, 85, 170, 255]).expect("picture"));
    let map = TextureMap::from_image(&picture).expect("map");
    assert_eq!((map.width(), map.height()), (2, 2));
    assert_eq!(map.colour_at(0, 0), rgb(0, 0, 0));
    assert_eq!(map.colour_at(1, 0), rgb(85, 85, 85));
    assert_eq!(map.colour_at(0, 1), rgb(170, 170, 170));
    assert_eq!(map.colour_at(1, 1), rgb(255, 255, 255));
}

#[test]
fn texture_of_an_rgb_picture() {
    let picture = DynamicImage::ImageRgb8(RgbImage::from_raw(1, 2, vec![9, 8, 7, 6, 5, 4]).expect("picture"));
    let map = TextureMap::from_image(&picture).expect("map");
    assert_eq!((map.width(), map.height()), (1, 2));
    assert_eq!(map.colour_at(0, 0), rgb(9, 8, 7));
    assert_eq!(map.colour_at(0, 1), rgb(6, 5, 4));
}

#[test]
fn texture_of_a_picture_without_pixels() {
    let picture = DynamicImage::ImageRgba8(RgbaImage::from_raw(0, 0, vec![]).expect("picture"));
    let map = TextureMap::from_image(&picture).expect("map");
    assert_eq!((map.width(), map.height()), (0, 0));
}

#[test]
fn texture_of_a_picture_over_a_longer_buffer() {
    let picture =
        DynamicImage::ImageRgba8(RgbaImage::from_raw(1, 1, vec![1, 2, 3, 4, 5, 6, 7, 8]).expect("picture"));
    let map = TextureMap::from_image(&picture).expect("map");
    assert_eq!((map.width(), map.height()), (1, 1));
    assert_eq!(map.colour_at(0, 0), rgb(1, 2, 3));
}

#[test]
fn frame_puts_the_parts_into_a_picture() {
    let parts = vec![vec![1, 2, 3, 255, 4, 5, 6, 255], vec![], vec![7, 8, 9, 255, 10, 11, 12, 255]];
    let picture = frame(2, 2, parts).expect("picture");
    assert_eq!(picture.dimensions(), (2, 2));
    assert_eq!(
        picture.to_rgba8().into_raw(),
        vec![1, 2, 3, 255, 4, 5, 6, 255, 7, 8, 9, 255, 10, 11, 12, 255]
    );
    assert_eq!(picture.get_pixel(1, 1).0, [10, 11, 12, 255]);
    assert_eq!(picture.get_pixel(0, 1).0, [7, 8, 9, 255]);
}

#[test]
fn frame_needs_four_bytes_for_each_pixel() {
    assert!(frame(2, 2, vec![vec![0; 15]]).is_none());
    assert!(frame(2, 2, vec![vec![0; 8], vec![0; 7]]).is_none());
    assert!(frame(1, 1, vec![]).is_none());
    assert!(frame(2, 2, vec![vec![0; 16]]).is_some());
}

#[test]
fn frame_leaves_out_bytes_beyond_the_last_pixel() {
    let picture = frame(1, 1, vec![vec![1, 2, 3, 4], vec![5, 6]]).expect("picture");
    assert_eq!(picture.dimensions(), (1, 1));
    assert_eq!(picture.to_rgba8().into_raw(), vec![1, 2, 3, 4]);
}

#[test]
fn frame_without_pixels() {
    let picture = frame(0, 0, vec![]).expect("picture");
    assert_eq!(picture.dimensions(), (0, 0));
    let picture = frame(0, 7, vec![vec![]]).expect("picture");
    assert_eq!(picture.dimensions(), (0, 7));
}

#[test]
fn frame_refuses_sides_beyond_u32() {
    if usize::BITS > 32 {
        let wide = (u32::MAX as usize) + 1;
        assert!(frame(wide, 0, vec![]).is_none());
        assert!(frame(0, wide, vec![]).is_none());
    }
    if usize::BITS > 32 {
        assert!(frame(u32::MAX as usize, 0, vec![]).is_some());
    }
    assert!(frame(0, u32::MAX as usize, vec![]).is_some());
}

#[test]
fn a_frame_is_a_texture_again() {
    let picture = frame(2, 1, vec![vec![10, 20, 30, 255], vec![40, 50, 60, 255]]).expect("picture");
    let map = TextureMap::from_image(&picture).expect("map");
    assert_eq!(map.colour_at(0, 0), rgb(10, 20, 30));
    assert_eq!(map.colour_at(1, 0), rgb(40, 50, 60));
}
