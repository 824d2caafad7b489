use raytracer::camera_iterator::CameraIterator;
use raytracer::world::{assemble, partition, render_band, step_for};

fn shade(x: usize, y: usize) -> [u8; 4] {
    [x as u8, y as u8, (x * 31 + y * 17) as u8, 255]
}

fn render(width: usize, height: usize, thread_count: usize) -> Vec<u8> {
    let mut parts = Vec::new();
    for (start_y, end_y) in partition(height, thread_count) {
        parts.push(render_band(CameraIterator::new(width, start_y, end_y), shade));
    }
    assemble(parts)
}

#[test]
fn step_is_the_even_share() {
    assert_eq!(step_for(512, 16), 32);
    assert_eq!(step_for(100, 1), 100);
    assert_eq!(step_for(10, 4), 2);
    assert_eq!(step_for(10, 3), 3);
}

#[test]
fn step_is_at_least_one() {
    assert_eq!(step_for(4, 8), 1);
    assert_eq!(step_for(0, 8), 1);
    assert_eq!(step_for(0, 0), 1);
}

#[test]
fn step_without_a_thread_count_is_every_row() {
    assert_eq!(step_for(64, 0), 64);
    assert_eq!(step_for(1, 0), 1);
}

#[test]
fn partition_shares_rows_evenly() {
    assert_eq!(partition(8, 4), vec![(0, 2), (2, 4), (4, 6), (6, 8)]);
    assert_eq!(partition(8, 1), vec![(0, 8)]);
}

#[test]
fn partition_gives_what_is_left_over_to_further_bands() {
    assert_eq!(partition(10, 4), vec![(0, 2), (2, 4), (4, 6), (6, 8), (8, 10)]);
    assert_eq!(partition(10, 3), vec![(0, 3), (3, 6), (6, 9), (9, 10)]);
    assert_eq!(partition(7, 2), vec![(0, 3), (3, 6), (6, 7)]);
}

#[test]
fn more_threads_than_rows_gives_one_band_for_each_row() {
    assert_eq!(partition(3, 8), vec![(0, 1), (1, 2), (2, 3)]);
    assert_eq!(partition(5, 5).len(), 5);
    assert_eq!(partition(64, 1000).len(), 64);
}

#[test]
fn partition_of_no_rows_is_empty() {
    assert_eq!(partition(0, 4), vec![]);
    assert_eq!(partition(0, 0), vec![]);
}

#[test]
fn partition_without_a_thread_count_is_one_band() {
    assert_eq!(partition(64, 0), vec![(0, 64)]);
}

#[test]
fn bands_follow_one_another() {
    for height in 0..40usize {
        for thread_count in 0..45usize {
            let bands = partition(height, thread_count);
            let mut next = 0;
            for (start_y, end_y) in &bands {
                assert_eq!(*start_y, next);
                assert!(start_y < end_y);
                next = *end_y;
            }
            assert_eq!(next, height);
            let step = step_for(height, thread_count);
            assert_eq!(bands.len(), (height + step - 1) / step);
        }
    }
}

#[test]
fn assemble_puts_parts_in_order() {
    assert_eq!(assemble(vec![vec![1, 2], vec![], vec![3], vec![4, 5, 6]]), vec![1, 2, 3, 4, 5, 6]);
    assert_eq!(assemble(vec![]), Vec::<u8>::new());
    assert_eq!(assemble(vec![vec![], vec![]]), Vec::<u8>::new());
}

#[test]
fn render_band_gives_four_bytes_to_a_pixel() {
    let bytes = render_band(CameraIterator::new(2, 3, 5), shade);
    let mut expected = Vec::new();
    for (x, y) in [(0, 3), (1, 3), (0, 4), (1, 4)] {
        expected.extend_from_slice(&shade(x, y));
    }
    assert_eq!(bytes, expected);
}

#[test]
fn render_band_of_no_rows_is_empty() {
    assert_eq!(render_band(CameraIterator::new(9, 4, 4), shade), Vec::<u8>::new());
}

#[test]
fn deterministic_tile_reassembly() {
    let one = render(64, 64, 1);
    assert_eq!(one.len(), 64 * 64 * 4);
    for thread_count in [2, 4, 8, 32] {
        assert_eq!(render(64, 64, thread_count), one);
    }
}

#[test]
fn reassembly_with_uneven_bands() {
    let one = render(5, 13, 1);
    for thread_count in [0, 2, 3, 4, 5, 6, 7, 12, 13, 14, 100] {
        assert_eq!(render(5, 13, thread_count), one, "{} threads", thread_count);
    }
}

#[test]
fn reassembly_is_row_major() {
    let bytes = render(3, 2, 2);
    let mut expected = Vec::new();
    for y in 0..2 {
        for x in 0..3 {
            expected.extend_from_slice(&shade(x, y));
        }
    }
    assert_eq!(bytes, expected);
}
