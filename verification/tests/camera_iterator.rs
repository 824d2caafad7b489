use raytracer::camera_iterator::CameraIterator;

fn all_pixels(width: usize, start_y: usize, end_y: usize) -> Vec<(usize, usize)> {
    let mut pixels = CameraIterator::new(width, start_y, end_y);
    let mut found = Vec::new();
    while let Some(pixel) = pixels.next() {
        found.push(pixel);
    }
    found
}

#[test]
fn pixels_go_row_by_row() {
    assert_eq!(all_pixels(3, 0, 2), vec![(0, 0), (1, 0), (2, 0), (0, 1), (1, 1), (2, 1)]);
}

#[test]
fn pixels_of_a_band_begin_at_its_first_row() {
    assert_eq!(all_pixels(2, 5, 7), vec![(0, 5), (1, 5), (0, 6), (1, 6)]);
}

#[test]
fn an_empty_band_has_no_pixels() {
    assert_eq!(all_pixels(4, 3, 3), vec![]);
    assert_eq!(all_pixels(0, 0, 0), vec![]);
}

#[test]
fn one_column() {
    assert_eq!(all_pixels(1, 0, 3), vec![(0, 0), (0, 1), (0, 2)]);
}

#[test]
fn pixels_stay_empty_once_exhausted() {
    let mut pixels = CameraIterator::new(1, 0, 1);
    assert_eq!(pixels.next(), Some((0, 0)));
    assert_eq!(pixels.next(), None);
    assert_eq!(pixels.next(), None);
}

#[test]
fn a_band_has_width_times_rows_pixels() {
    assert_eq!(all_pixels(100, 10, 35).len(), 2500);
}

#[test]
fn two_bands_make_one() {
    let mut joined = all_pixels(7, 0, 4);
    joined.extend(all_pixels(7, 4, 9));
    assert_eq!(joined, all_pixels(7, 0, 9));
}
