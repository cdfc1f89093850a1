use crate::distance::{square_bound, squared_distance, squared_euclidean};
use crate::kmeans::all_of_dimension;
use crate::point::{coords_of, Point};
use vstd::prelude::*;

verus! {

/// Descriptive statistics over points.
pub struct Statistics;

/// Sum of coordinate `t` over the first `n` points, each shifted up by 2^31
/// so that it is non-negative.
pub open spec fn column_sum(pts: Seq<Seq<i32>>, t: int, n: int) -> int
    decreases n,
{
    if n <= 0 {
        0
    } else {
        column_sum(pts, t, n - 1) + pts[n - 1][t] + 0x8000_0000
    }
}

/// The mean of the points, each coordinate rounded down.
pub open spec fn mean_point(pts: Seq<Seq<i32>>) -> Seq<i32> {
    Seq::new(
        pts[0].len(),
        |t: int| (column_sum(pts, t, pts.len() as int) / (pts.len() as int) - 0x8000_0000) as i32,
    )
}

/// Sum of the squared distances from `c` to the first `n` points.
pub open spec fn spread(c: Seq<i32>, pts: Seq<Seq<i32>>, n: int) -> int
    decreases n,
{
    if n <= 0 {
        0
    } else {
        spread(c, pts, n - 1) + squared_euclidean(c, pts[n - 1])
    }
}

proof fn lemma_column_sum_bounds(pts: Seq<Seq<i32>>, t: int, n: int)
    requires
        0 <= n <= pts.len(),
        0 <= t,
        forall|i: int| 0 <= i < pts.len() ==> t < #[trigger] pts[i].len(),
    ensures
        0 <= column_sum(pts, t, n) <= n * 0xffff_ffff,
    decreases n,
{
    if n > 0 {
        lemma_column_sum_bounds(pts, t, n - 1);
        assert(t < pts[n - 1].len());
    }
}

impl Statistics {
    /// The coordinate-wise mean of the points, rounded down; empty for no point.
    pub fn mean(points: &[Point]) -> (r: Vec<i32>)
        requires
            points@.len() > 0 ==> all_of_dimension(coords_of(points@), coords_of(points@)[0].len() as int),
        ensures
            points@.len() == 0 ==> r@.len() == 0,
            points@.len() > 0 ==> r@ == mean_point(coords_of(points@)),
    {
        let n = points.len();
        if n == 0 {
            return Vec::new();
        }
        let ghost pts = coords_of(points@);
        let d = points[0].dimension();
        let mut v: Vec<i32> = Vec::with_capacity(d);
        let mut t: usize = 0;
        while t < d
            invariant
                pts == coords_of(points@),
                n == points@.len(),
                n > 0,
                d == pts[0].len(),
                all_of_dimension(pts, d as int),
                t <= d,
                v@.len() == t,
                forall|u: int| 0 <= u < t ==> #[trigger] v@[u] == (column_sum(pts, u, n as int) / (n as int)
                    - 0x8000_0000) as i32,
            decreases d - t,
        {
            let mut sum: u128 = 0;
            let mut q: usize = 0;
            while q < n
                invariant
                    pts == coords_of(points@),
                    n == points@.len(),
                    all_of_dimension(pts, d as int),
                    t < d,
                    q <= n,
                    sum as int == column_sum(pts, t as int, q as int),
                    sum <= q * 0x1_0000_0000,
                decreases n - q,
            {
                assert(pts[q as int] == points@[q as int]@);
                assert(pts[q as int].len() == d);
                let x = points[q].coordinates()[t];
                assert(q + 1 <= 0xffff_ffff_ffff_ffff);
                sum = sum + (x as i64 + 0x8000_0000) as u128;
                q += 1;
            }
            proof {
                lemma_column_sum_bounds(pts, t as int, n as int);
                let s = sum as int;
                let k = n as int;
                assert(0 <= s / k <= 0xffff_ffff) by (nonlinear_arith)
                    requires
                        0 <= s <= k * 0xffff_ffff,
                        k > 0,
                ;
            }
            let m = sum / (n as u128);
            v.push((m as i64 - 0x8000_0000) as i32);
            t += 1;
        }
        assert(v@ =~= mean_point(pts));
        v
    }

    /// The sum of the squared distances from `centroid` to every point.
    pub fn variance(centroid: &[i32], points: &[Point]) -> (r: u128)
        requires
            all_of_dimension(coords_of(points@), centroid@.len() as int),
            points@.len() * centroid@.len() <= 0x4000_0000_0000_0000,
        ensures
            r as int == spread(centroid@, coords_of(points@), points@.len() as int),
    {
        let ghost pts = coords_of(points@);
        let ghost b = centroid@.len() * square_bound();
        let mut acc: u128 = 0;
        let mut p: usize = 0;
        while p < points.len()
            invariant
                pts == coords_of(points@),
                all_of_dimension(pts, centroid@.len() as int),
                points@.len() * centroid@.len() <= 0x4000_0000_0000_0000,
                b == centroid@.len() * square_bound(),
                p <= points@.len(),
                acc as int == spread(centroid@, pts, p as int),
                acc <= p * b,
            decreases points@.len() - p,
        {
            assert(pts[p as int] == points@[p as int]@);
            assert(pts[p as int].len() == centroid@.len());
            let d = squared_distance(centroid, points[p].coordinates());
            proof {
                let n = points@.len() as int;
                let l = centroid@.len() as int;
                assert((p + 1) * b == p * b + b) by (nonlinear_arith);
                assert((p + 1) * b <= n * l * square_bound()) by (nonlinear_arith)
                    requires
                        p + 1 <= n,
                        b == l * square_bound(),
                        l >= 0,
                ;
                assert(n * l * square_bound() <= 0x4000_0000_0000_0000 * square_bound()) by (nonlinear_arith)
                    requires
                        n * l <= 0x4000_0000_0000_0000,
                ;
            }
            acc = acc + d;
            p += 1;
        }
        acc
    }
}

} // verus!
