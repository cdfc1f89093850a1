use clustering::error::ClusterError;
use clustering::kmedians::{KMedians, KMediansInitialization};
use clustering::point::Point;

fn line(xs: &[i32]) -> Vec<Point> {
    xs.iter().map(|&x| Point::new(vec![x])).collect()
}

fn precomputed(xs: &[i32]) -> KMedians {
    KMedians::new()
        .set_init_method(KMediansInitialization::Precomputed)
        .set_precomputed(&Some(line(xs)))
}

#[test]
fn new_has_default_settings() {
    let k = KMedians::new();
    assert_eq!(15, k.max_iterations());
    assert_eq!(0, k.iterations());
    assert!(!k.converged());
    assert!(k.centroids().is_empty());
    assert!(k.assignments().is_empty());
    assert_eq!(40, k.set_max_iterations(40).max_iterations());
}

#[test]
fn medians_settle_on_two_groups() {
    let points = line(&[0, 1, 2, 10, 11, 12]);
    let result = precomputed(&[0, 1]).run(points.as_slice(), 2).unwrap();
    assert_eq!(line(&[1, 11]).as_slice(), result.centroids());
    assert_eq!(&[0, 0, 0, 1, 1, 1], result.assignments());
    assert_eq!(2, result.iterations());
    assert!(result.converged());
}

#[test]
fn even_median_rounds_down() {
    let points = line(&[-3, -2]);
    let result = precomputed(&[0]).run(points.as_slice(), 1).unwrap();
    // (-3 + -2) / 2 = -2.5
    assert_eq!(line(&[-3]).as_slice(), result.centroids());
    assert_eq!(1, result.iterations());
}

#[test]
fn tolerance_stops_early() {
    let points = line(&[0, 1, 2, 10, 11, 12]);
    let result = precomputed(&[0, 1]).set_tolerance(10).run(points.as_slice(), 2).unwrap();
    // the first round moves a centroid from 1 to 10: 9 is within the tolerance
    assert_eq!(line(&[0, 10]).as_slice(), result.centroids());
    assert_eq!(&[0, 0, 0, 1, 1, 1], result.assignments());
    assert_eq!(0, result.iterations());
    assert!(result.converged());
}

#[test]
fn round_limit_is_kept() {
    let points = line(&[0, 1, 2, 10, 11, 12]);
    let result = precomputed(&[0, 1]).set_max_iterations(1).run(points.as_slice(), 2).unwrap();
    assert_eq!(line(&[0, 10]).as_slice(), result.centroids());
    assert_eq!(1, result.iterations());
    assert!(!result.converged());
}

#[test]
fn random_kmedians_has_k_centroids() {
    let points = line(&[0, 1, 2, 10, 11, 12, 40]);
    for method in [KMediansInitialization::Random, KMediansInitialization::KMeansPlusPlus] {
        let result = KMedians::new().set_init_method(method).run(points.as_slice(), 3).unwrap();
        assert_eq!(3, result.centroids().len());
        assert!(result.assignments().iter().all(|&a| a < 3));
        assert_eq!(7, result.assignments().len());
    }
}

#[test]
fn kmedians_refuses_bad_input() {
    let points = line(&[0, 1, 2]);
    let missing = KMedians::new().set_init_method(KMediansInitialization::Precomputed);
    assert_eq!(Some(ClusterError::MissingCentroids), missing.run(points.as_slice(), 1).err());
    assert_eq!(Some(ClusterError::InvalidClusterCount), precomputed(&[0, 1]).run(points.as_slice(), 1).err());
    assert_eq!(Some(ClusterError::InvalidClusterCount), KMedians::new().run(points.as_slice(), 0).err());
    let empty: Vec<Point> = vec![];
    assert_eq!(Some(ClusterError::EmptyInput), KMedians::new().run(empty.as_slice(), 1).err());
}
