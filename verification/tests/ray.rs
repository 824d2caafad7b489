use raytracer::ray::{Intersection, SortByTime};

fn hits(times: &[u64]) -> Vec<Intersection<usize>> {
    times.iter().enumerate().map(|(place, time)| Intersection::new(*time, place)).collect()
}

fn sorted(times: &[u64]) -> Vec<(u64, usize)> {
    let mut list = hits(times);
    list.sort_by_time();
    list.iter().map(|hit| (hit.time, hit.hit)).collect()
}

#[test]
fn intersection_new_keeps_its_parts() {
    let hit = Intersection::new(7, "triangle");
    assert_eq!(hit.time, 7);
    assert_eq!(hit.hit, "triangle");
}

#[test]
fn sort_by_time_puts_the_earliest_first() {
    assert_eq!(sorted(&[5, 3, 9, 1]), vec![(1, 3), (3, 1), (5, 0), (9, 2)]);
}

#[test]
fn sort_by_time_keeps_the_order_of_equal_times() {
    assert_eq!(sorted(&[4, 2, 4, 2, 4]), vec![(2, 1), (2, 3), (4, 0), (4, 2), (4, 4)]);
}

#[test]
fn sort_by_time_of_nothing_and_of_one() {
    assert_eq!(sorted(&[]), vec![]);
    assert_eq!(sorted(&[8]), vec![(8, 0)]);
}

#[test]
fn sort_by_time_leaves_sorted_hits_alone() {
    assert_eq!(sorted(&[1, 2, 3]), vec![(1, 0), (2, 1), (3, 2)]);
}

#[test]
fn sort_by_time_turns_reversed_hits_round() {
    assert_eq!(sorted(&[3, 2, 1, 0]), vec![(0, 3), (1, 2), (2, 1), (3, 0)]);
}

#[test]
fn sort_by_time_agrees_with_a_stable_sort() {
    let mut seed: u64 = 12345;
    for length in 0..60usize {
        let mut times = Vec::new();
        for _ in 0..length {
            seed = seed.wrapping_mul(6364136223846793005).wrapping_add(1442695040888963407);
            times.push((seed >> 33) % 8);
        }
        let mut expected: Vec<(u64, usize)> =
            times.iter().enumerate().map(|(place, time)| (*time, place)).collect();
        expected.sort_by(|a, b| a.0.cmp(&b.0));
        assert_eq!(sorted(&times), expected);
    }
}

#[test]
fn sort_by_time_orders_the_bits_of_distances() {
    let distances = [2.5f64, 0.0, 1e-5, 7.0e10, 0.3, f64::INFINITY, 1.0];
    let mut list: Vec<Intersection<f64>> =
        distances.iter().map(|distance| Intersection::new(distance.to_bits(), *distance)).collect();
    list.sort_by_time();
    let found: Vec<f64> = list.iter().map(|hit| hit.hit).collect();
    assert_eq!(found, vec![0.0, 1e-5, 0.3, 1.0, 2.5, 7.0e10, f64::INFINITY]);
}
