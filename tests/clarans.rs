use clustering::clarans::{closest, closest_other, swap_cost, total_dissimilarity, Clarans, SearchState};
use clustering::error::ClusterError;
use clustering::point::Point;

fn line(xs: &[i32]) -> Vec<Point> {
    xs.iter().map(|&x| Point::new(vec![x])).collect()
}

#[test]
fn two_separated_groups_are_found() {
    let points = line(&[0, 1, 2, 10, 11, 12]);
    let result = Clarans::run(points.as_slice(), 2, 5, 20).unwrap();
    let labels = result.assignments();
    assert_eq!(6, labels.len());
    assert_eq!(2, result.centroids().len());
    assert_eq!(labels[0], labels[1]);
    assert_eq!(labels[1], labels[2]);
    assert_eq!(labels[3], labels[4]);
    assert_eq!(labels[4], labels[5]);
    assert_ne!(labels[0], labels[3]);
    let low = result.centroids()[labels[0]].coordinates()[0];
    let high = result.centroids()[labels[3]].coordinates()[0];
    assert!(0 <= low && low <= 2);
    assert!(10 <= high && high <= 12);
}

#[test]
fn every_point_is_its_own_medoid_when_k_equals_n() {
    let points = vec![
        Point::new(vec![0, 0]),
        Point::new(vec![5, 1]),
        Point::new(vec![-3, 8]),
        Point::new(vec![2, 2]),
    ];
    let result = Clarans::run(points.as_slice(), 4, 3, 10).unwrap();
    let mut medoids = result.medoids().to_vec();
    medoids.sort();
    assert_eq!(vec![0, 1, 2, 3], medoids);
    assert_eq!(0, total_dissimilarity(points.as_slice(), &result.medoids().to_vec()));
    for (p, &label) in result.assignments().iter().enumerate() {
        assert_eq!(points[p], result.centroids()[label]);
    }
}

#[test]
fn single_medoid_matches_brute_force() {
    let points = line(&[0, 2, 3, 7, 20]);
    let best = (0..points.len())
        .map(|i| total_dissimilarity(points.as_slice(), &vec![i]))
        .min()
        .unwrap();
    // 1-D squared distances to the point 7: 49 + 25 + 16 + 0 + 169
    assert_eq!(259, best);
    let result = Clarans::run(points.as_slice(), 1, 4, 60).unwrap();
    assert_eq!(best, total_dissimilarity(points.as_slice(), &result.medoids().to_vec()));
    assert_eq!(vec![3], result.medoids().to_vec());
    assert_eq!(vec![0, 0, 0, 0, 0], result.assignments().to_vec());
    assert_eq!(Point::new(vec![7]), result.centroids()[0]);
}

#[test]
fn result_shape_and_representatives() {
    let points = vec![
        Point::new(vec![1, 9]),
        Point::new(vec![4, -2]),
        Point::new(vec![0, 0]),
        Point::new(vec![7, 7]),
        Point::new(vec![-5, 3]),
        Point::new(vec![6, 8]),
        Point::new(vec![2, 1]),
    ];
    let result = Clarans::run(points.as_slice(), 3, 4, 15).unwrap();
    assert_eq!(7, result.assignments().len());
    assert!(result.assignments().iter().all(|&a| a < 3));
    assert_eq!(3, result.centroids().len());
    assert_eq!(3, result.medoids().len());
    for (j, c) in result.centroids().iter().enumerate() {
        assert_eq!(&points[result.medoids()[j]], c);
    }
    assert!(result.converged());
    assert_eq!(0, result.iterations());
}

#[test]
fn no_swaps_keeps_a_random_initial_set() {
    let points = line(&[0, 1, 2, 10, 11, 12, 30]);
    let result = Clarans::run(points.as_slice(), 3, 6, 0).unwrap();
    let mut medoids = result.medoids().to_vec();
    medoids.sort();
    medoids.dedup();
    assert_eq!(3, medoids.len());
    assert!(medoids.iter().all(|&m| m < 7));
    let best_possible = 2 + 2;
    assert!(total_dissimilarity(points.as_slice(), &result.medoids().to_vec()) >= best_possible);
}

#[test]
fn invalid_parameters_are_refused() {
    let empty: Vec<Point> = vec![];
    assert_eq!(Some(ClusterError::EmptyInput), Clarans::run(empty.as_slice(), 1, 1, 1).err());
    let mixed = vec![Point::new(vec![0, 0]), Point::new(vec![1])];
    assert_eq!(Some(ClusterError::DimensionMismatch), Clarans::run(mixed.as_slice(), 1, 1, 1).err());
    let points = line(&[0, 1, 2]);
    assert_eq!(Some(ClusterError::InvalidClusterCount), Clarans::run(points.as_slice(), 0, 1, 1).err());
    assert_eq!(Some(ClusterError::InvalidClusterCount), Clarans::run(points.as_slice(), 4, 1, 1).err());
    assert_eq!(Some(ClusterError::NoRestarts), Clarans::run(points.as_slice(), 2, 0, 1).err());
}

#[test]
fn swap_cost_follows_the_formula() {
    let points = line(&[0, 1, 2, 10, 11, 12]);
    let state = SearchState::new(points.as_slice(), vec![0, 1]);
    assert_eq!(vec![0, 1, 1, 1, 1, 1], state.assignment);
    assert_eq!(303, state.cost);
    // 99 - 5 - 181 - 221 - 265
    assert_eq!(Some(-573), swap_cost(points.as_slice(), &state.medoids, &state.assignment, 1, 4));
}

#[test]
fn swap_cost_can_be_minus_infinity() {
    let points = line(&[0, 1, 2, 10, 11, 12]);
    let state = SearchState::new(points.as_slice(), vec![0, 3]);
    assert_eq!(vec![0, 0, 0, 1, 1, 1], state.assignment);
    assert_eq!(None, swap_cost(points.as_slice(), &state.medoids, &state.assignment, 0, 4));
}

#[test]
fn improving_swap_is_taken() {
    let points = line(&[0, 1, 2, 10, 11, 12]);
    let mut state = SearchState::new(points.as_slice(), vec![0, 1]);
    assert!(state.try_swap(points.as_slice(), 1, 4));
    assert_eq!(vec![0, 4], state.medoids);
    assert_eq!(vec![0, 0, 0, 1, 1, 1], state.assignment);
    assert_eq!(7, state.cost);
    assert_eq!(vec![true, false, false, false, true, false], state.in_set);
}

#[test]
fn worsening_swap_is_turned_down() {
    let points = line(&[0, 1, 2, 10, 11, 12]);
    let mut state = SearchState::new(points.as_slice(), vec![1, 4]);
    assert_eq!(4, state.cost);
    assert!(!state.try_swap(points.as_slice(), 0, 0));
    assert_eq!(vec![1, 4], state.medoids);
    assert_eq!(4, state.cost);
    assert_eq!(vec![0, 0, 0, 1, 1, 1], state.assignment);
}

#[test]
fn ties_go_to_the_first_medoid() {
    let points = line(&[0, 2, 4]);
    let state = SearchState::new(points.as_slice(), vec![2, 0]);
    // point 1 is at distance 4 from both medoids
    assert_eq!(vec![1, 0, 0], state.assignment);
    assert_eq!(4, state.cost);
}

#[test]
fn random_initial_sets_are_distinct_points() {
    let points = line(&[5, 6, 7, 8, 9, 10, 11, 12]);
    for _ in 0..20 {
        let result = Clarans::run(points.as_slice(), 5, 1, 0).unwrap();
        let mut medoids = result.medoids().to_vec();
        medoids.sort();
        medoids.dedup();
        assert_eq!(5, medoids.len());
        assert!(medoids.iter().all(|&m| m < 8));
    }
}

#[test]
fn nearest_medoid_lookup_with_and_without_exclusion() {
    let points = line(&[0, 4, 9, 10]);
    let medoids = vec![0, 2, 1];
    // point 3 (10): distances 100, 1, 36
    assert_eq!((1, 1), closest(points.as_slice(), &medoids, 3));
    assert_eq!(Some((2, 36)), closest_other(points.as_slice(), &medoids, 3, 1));
    let single = vec![2];
    assert_eq!(None, closest_other(points.as_slice(), &single, 0, 0));
}
