use clustering::error::ClusterError;
use clustering::kmeans::{weighted_pick, KMeans, KMeansInitialization};
use clustering::point::Point;

fn line(xs: &[i32]) -> Vec<Point> {
    xs.iter().map(|&x| Point::new(vec![x])).collect()
}

#[test]
fn lloyd_converges_on_two_groups() {
    let points = line(&[0, 1, 2, 10, 11, 12]);
    let result = KMeans::from_centroids(points.as_slice(), line(&[0, 1]), 15);
    assert_eq!(line(&[1, 11]).as_slice(), result.centroids());
    assert_eq!(&[0, 0, 0, 1, 1, 1], result.assignments());
    assert_eq!(2, result.iterations());
    assert!(result.converged());
}

#[test]
fn lloyd_stops_at_the_round_limit() {
    let points = line(&[0, 1, 2, 10, 11, 12]);
    let result = KMeans::from_centroids(points.as_slice(), line(&[0, 1]), 1);
    // the mean of 1, 2, 10, 11 and 12 is 7.2
    assert_eq!(line(&[0, 7]).as_slice(), result.centroids());
    assert_eq!(&[0, 1, 1, 1, 1, 1], result.assignments());
    assert_eq!(1, result.iterations());
    assert!(!result.converged());
}

#[test]
fn no_round_leaves_no_labels() {
    let points = line(&[0, 1, 2]);
    let result = KMeans::from_centroids(points.as_slice(), line(&[5]), 0);
    assert_eq!(line(&[5]).as_slice(), result.centroids());
    assert!(result.assignments().is_empty());
    assert_eq!(0, result.iterations());
    assert!(!result.converged());
}

#[test]
fn means_round_down() {
    let points = vec![Point::new(vec![-1, 4]), Point::new(vec![-2, 7])];
    let result = KMeans::from_centroids(points.as_slice(), vec![Point::new(vec![0, 0])], 10);
    // -1.5 and 5.5
    assert_eq!(vec![Point::new(vec![-2, 5])].as_slice(), result.centroids());
    assert_eq!(&[0, 0], result.assignments());
}

#[test]
fn empty_cluster_keeps_its_centroid() {
    let points = line(&[0, 1]);
    let result = KMeans::from_centroids(points.as_slice(), line(&[0, 100, -50]), 10);
    assert_eq!(line(&[0, 100, -50]).as_slice(), result.centroids());
    assert_eq!(&[0, 0], result.assignments());
    assert_eq!(1, result.iterations());
}

#[test]
fn precomputed_run_matches_lloyd() {
    let points = line(&[0, 1, 2, 10, 11, 12]);
    let start = line(&[0, 1]);
    let result = KMeans::run(points.as_slice(), 2, 15, KMeansInitialization::Precomputed, Some(start.as_slice())).unwrap();
    assert_eq!(line(&[1, 11]).as_slice(), result.centroids());
    assert_eq!(&[0, 0, 0, 1, 1, 1], result.assignments());
}

#[test]
fn random_and_plus_plus_runs_have_k_centroids() {
    let points = line(&[0, 1, 2, 10, 11, 12, 40, 41]);
    for method in [KMeansInitialization::Random, KMeansInitialization::KMeansPlusPlus] {
        let result = KMeans::run(points.as_slice(), 3, 20, method, None).unwrap();
        assert_eq!(3, result.centroids().len());
        assert_eq!(8, result.assignments().len());
        assert!(result.assignments().iter().all(|&a| a < 3));
    }
}

#[test]
fn plus_plus_on_identical_points() {
    let points = line(&[4, 4, 4]);
    let result = KMeans::run(points.as_slice(), 2, 5, KMeansInitialization::KMeansPlusPlus, None).unwrap();
    assert_eq!(line(&[4, 4]).as_slice(), result.centroids());
    assert_eq!(&[0, 0, 0], result.assignments());
}

#[test]
fn kmeans_refuses_bad_input() {
    let empty: Vec<Point> = vec![];
    assert_eq!(Some(ClusterError::EmptyInput), KMeans::run(empty.as_slice(), 1, 5, KMeansInitialization::Random, None).err());
    let mixed = vec![Point::new(vec![0, 0]), Point::new(vec![1])];
    assert_eq!(Some(ClusterError::DimensionMismatch), KMeans::run(mixed.as_slice(), 1, 5, KMeansInitialization::Random, None).err());
    let points = line(&[0, 1, 2]);
    assert_eq!(Some(ClusterError::InvalidClusterCount), KMeans::run(points.as_slice(), 0, 5, KMeansInitialization::Random, None).err());
    assert_eq!(Some(ClusterError::MissingCentroids), KMeans::run(points.as_slice(), 1, 5, KMeansInitialization::Precomputed, None).err());
    let two = line(&[0, 1]);
    assert_eq!(Some(ClusterError::InvalidClusterCount), KMeans::run(points.as_slice(), 1, 5, KMeansInitialization::Precomputed, Some(two.as_slice())).err());
    let flat = vec![Point::new(vec![0, 0])];
    assert_eq!(Some(ClusterError::DimensionMismatch), KMeans::run(points.as_slice(), 1, 5, KMeansInitialization::Precomputed, Some(flat.as_slice())).err());
}

#[test]
fn weighted_pick_follows_running_sums() {
    let weights: Vec<u128> = vec![0, 3, 0, 2];
    assert_eq!(1, weighted_pick(&weights, 0));
    assert_eq!(1, weighted_pick(&weights, 2));
    assert_eq!(3, weighted_pick(&weights, 3));
    assert_eq!(3, weighted_pick(&weights, 4));
}
