use clustering::point::Point;
use clustering::statistics::Statistics;

#[test]
fn statistics_mean_and_variance() {
    let points = vec![Point::new(vec![-1, 4]), Point::new(vec![-2, 7]), Point::new(vec![6, 1])];
    // means 1 and 4
    assert_eq!(vec![1, 4], Statistics::mean(points.as_slice()));
    let none: Vec<Point> = vec![];
    assert!(Statistics::mean(none.as_slice()).is_empty());
    // (4 + 0) + (9 + 9) + (25 + 9)
    assert_eq!(56, Statistics::variance(&[1, 4], points.as_slice()));
}
