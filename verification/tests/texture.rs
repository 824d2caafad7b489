use raytracer::texture::{Rgb, TextureMap};

fn rgb(r: u8, g: u8, b: u8) -> Rgb {
    Rgb { r, g, b }
}

fn two_by_two() -> TextureMap {
    let rgba = [
        10, 11, 12, 255, 20, 21, 22, 255, //
        30, 31, 32, 0, 40, 41, 42, 7,
    ];
    TextureMap::from_rgba(2, 2, &rgba).expect("map")
}

#[test]
fn from_rgba_keeps_the_sides() {
    let map = two_by_two();
    assert_eq!(map.width(), 2);
    assert_eq!(map.height(), 2);
}

#[test]
fn from_rgba_drops_the_fourth_byte() {
    let map = two_by_two();
    assert_eq!(map.colour_at(0, 0), rgb(10, 11, 12));
    assert_eq!(map.colour_at(1, 0), rgb(20, 21, 22));
    assert_eq!(map.colour_at(0, 1), rgb(30, 31, 32));
    assert_eq!(map.colour_at(1, 1), rgb(40, 41, 42));
}

#[test]
fn from_rgba_needs_four_bytes_to_a_pixel() {
    assert!(TextureMap::from_rgba(2, 2, &[0; 15]).is_none());
    assert!(TextureMap::from_rgba(2, 2, &[0; 17]).is_none());
    assert!(TextureMap::from_rgba(2, 2, &[0; 12]).is_none());
    assert!(TextureMap::from_rgba(1, 1, &[]).is_none());
    assert!(TextureMap::from_rgba(3, 1, &[0; 12]).is_some());
}

#[test]
fn from_rgba_of_no_pixels() {
    let map = TextureMap::from_rgba(0, 0, &[]).expect("map");
    assert_eq!((map.width(), map.height()), (0, 0));
    let map = TextureMap::from_rgba(0, 5, &[]).expect("map");
    assert_eq!((map.width(), map.height()), (0, 5));
}

#[test]
fn from_rgba_refuses_sides_beyond_i32() {
    assert!(TextureMap::from_rgba(0x8000_0000, 0, &[]).is_none());
    assert!(TextureMap::from_rgba(0, u32::MAX, &[]).is_none());
    assert!(TextureMap::from_rgba(0x7fff_ffff, 0, &[]).is_some());
}

#[test]
fn colour_at_takes_the_nearest_column_and_row() {
    let map = two_by_two();
    assert_eq!(map.colour_at(-1, 0), rgb(10, 11, 12));
    assert_eq!(map.colour_at(0, -5), rgb(10, 11, 12));
    assert_eq!(map.colour_at(2, 0), rgb(20, 21, 22));
    assert_eq!(map.colour_at(100, -100), rgb(20, 21, 22));
    assert_eq!(map.colour_at(-100, 100), rgb(30, 31, 32));
    assert_eq!(map.colour_at(2, 2), rgb(40, 41, 42));
    assert_eq!(map.colour_at(i64::MAX, i64::MAX), rgb(40, 41, 42));
    assert_eq!(map.colour_at(i64::MIN, i64::MIN), rgb(10, 11, 12));
}

#[test]
fn colour_at_goes_row_by_row() {
    let mut rgba = Vec::new();
    for y in 0..3u8 {
        for x in 0..4u8 {
            rgba.extend_from_slice(&[x, y, 10 * y + x, 255]);
        }
    }
    let map = TextureMap::from_rgba(4, 3, &rgba).expect("map");
    for y in 0..3i64 {
        for x in 0..4i64 {
            assert_eq!(map.colour_at(x, y), rgb(x as u8, y as u8, (10 * y + x) as u8));
        }
    }
}

#[test]
fn bottom_left_of_the_picture_is_the_first_pixel_of_the_last_row() {
    let map = two_by_two();
    let height = map.height() as i64;
    assert_eq!(map.colour_at(0, height - 1), rgb(30, 31, 32));
}
