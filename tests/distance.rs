use clustering::distance::{Chebyshev, Distance, Euclidean, Hamming, Manhattan, SquaredEuclidean};
use clustering::error::ClusterError;

#[test]
fn squared_euclidean_is_correct_distance() {
    let a = vec![0, 1, 3, -8, 4];
    let b = vec![-2, 1, -1, 3, 4];
    // 4 + 0 + 16 + 121 + 0
    assert_eq!(Ok(141), SquaredEuclidean::distance(a.as_slice(), b.as_slice()));
}

#[test]
fn euclidean_is_correct_distance() {
    let a = vec![0, 0];
    let b = vec![3, 4];
    assert_eq!(Ok(5), Euclidean::distance(a.as_slice(), b.as_slice()));
}

#[test]
fn euclidean_rounds_down() {
    let a = vec![0, 0, 0];
    let b = vec![1, 1, 1];
    // sqrt(3) = 1.73...
    assert_eq!(Ok(1), Euclidean::distance(a.as_slice(), b.as_slice()));
    let c = vec![0, 0];
    let d = vec![5, 5];
    // sqrt(50) = 7.07...
    assert_eq!(Ok(7), Euclidean::distance(c.as_slice(), d.as_slice()));
}

#[test]
fn hamming_is_correct_distance() {
    let expected = 4;

    let input_a = vec![0, 10, 30, -87, 45, 10];
    let input_b = vec![-23, 10, -10, 30, 45, -23];

    let output = Hamming::distance(input_a.as_slice(), input_b.as_slice());

    assert_eq!(Ok(expected), output);
}

#[test]
fn chebyshev_is_correct_distance() {
    let a = vec![0, 1, 3, -8, 4];
    let b = vec![-2, 1, -1, 3, 4];
    assert_eq!(Ok(11), Chebyshev::distance(a.as_slice(), b.as_slice()));
}

#[test]
fn manhattan_is_correct_distance() {
    let a = vec![0, 1, 3, -8, 4];
    let b = vec![-2, 1, -1, 3, 4];
    assert_eq!(Ok(17), Manhattan::distance(a.as_slice(), b.as_slice()));
}

#[test]
fn distance_to_itself_is_zero() {
    let a = vec![7, -3, 2147483647, -2147483648];
    assert_eq!(Ok(0), SquaredEuclidean::distance(a.as_slice(), a.as_slice()));
    assert_eq!(Ok(0), Euclidean::distance(a.as_slice(), a.as_slice()));
    assert_eq!(Ok(0), Manhattan::distance(a.as_slice(), a.as_slice()));
    assert_eq!(Ok(0), Chebyshev::distance(a.as_slice(), a.as_slice()));
    assert_eq!(Ok(0), Hamming::distance(a.as_slice(), a.as_slice()));
}

#[test]
fn extreme_coordinates_do_not_overflow() {
    let a = vec![2147483647, 2147483647];
    let b = vec![-2147483648, -2147483648];
    let diff: u128 = 4294967295;
    assert_eq!(Ok(2 * diff * diff), SquaredEuclidean::distance(a.as_slice(), b.as_slice()));
    assert_eq!(Ok(2 * diff), Manhattan::distance(a.as_slice(), b.as_slice()));
    assert_eq!(Ok(diff), Chebyshev::distance(a.as_slice(), b.as_slice()));
    // floor(sqrt(2) * diff)
    assert_eq!(Ok(6074000998), Euclidean::distance(a.as_slice(), b.as_slice()));
}

#[test]
fn empty_vectors_are_at_distance_zero() {
    let a: Vec<i32> = vec![];
    assert_eq!(Ok(0), Chebyshev::distance(a.as_slice(), a.as_slice()));
    assert_eq!(Ok(0), SquaredEuclidean::distance(a.as_slice(), a.as_slice()));
}

#[test]
fn length_mismatch_is_an_error() {
    let a = vec![1, 2, 3];
    let b = vec![1, 2];
    assert_eq!(Err(ClusterError::DimensionMismatch), SquaredEuclidean::distance(a.as_slice(), b.as_slice()));
    assert_eq!(Err(ClusterError::DimensionMismatch), Euclidean::distance(a.as_slice(), b.as_slice()));
    assert_eq!(Err(ClusterError::DimensionMismatch), Manhattan::distance(a.as_slice(), b.as_slice()));
    assert_eq!(Err(ClusterError::DimensionMismatch), Chebyshev::distance(a.as_slice(), b.as_slice()));
    assert_eq!(Err(ClusterError::DimensionMismatch), Hamming::distance(b.as_slice(), a.as_slice()));
}

#[test]
fn distances_are_symmetric() {
    let a = vec![0, 1, 3, -8, 4];
    let b = vec![-2, 1, -1, 3, 4];
    assert_eq!(SquaredEuclidean::distance(a.as_slice(), b.as_slice()), SquaredEuclidean::distance(b.as_slice(), a.as_slice()));
    assert_eq!(Euclidean::distance(a.as_slice(), b.as_slice()), Euclidean::distance(b.as_slice(), a.as_slice()));
    assert_eq!(Manhattan::distance(a.as_slice(), b.as_slice()), Manhattan::distance(b.as_slice(), a.as_slice()));
    assert_eq!(Chebyshev::distance(a.as_slice(), b.as_slice()), Chebyshev::distance(b.as_slice(), a.as_slice()));
    assert_eq!(Hamming::distance(a.as_slice(), b.as_slice()), Hamming::distance(b.as_slice(), a.as_slice()));
}
