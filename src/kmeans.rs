use crate::distance::{square_bound, squared_distance, squared_euclidean};
use crate::error::ClusterError;
use crate::point::{coords_of, Point};
use crate::random::{random_below, random_below_wide};
use vstd::prelude::*;

verus! {

/// The centroid among the first `k` nearest to `pt`; the first one on ties.
pub open spec fn nearest_centroid(pt: Seq<i32>, cents: Seq<Seq<i32>>, k: int) -> int
    decreases k,
{
    if k <= 1 {
        0
    } else {
        let j = nearest_centroid(pt, cents, k - 1);
        if squared_euclidean(pt, cents[k - 1]) < squared_euclidean(pt, cents[j]) {
            k - 1
        } else {
            j
        }
    }
}

/// The label of every point: the position of its nearest centroid.
pub open spec fn labels(pts: Seq<Seq<i32>>, cents: Seq<Seq<i32>>) -> Seq<usize> {
    Seq::new(pts.len(), |p: int| nearest_centroid(pts[p], cents, cents.len() as int) as usize)
}

/// Over the first `n` points labelled `c`: how many there are.
pub open spec fn member_count(lab: Seq<usize>, c: int, n: int) -> int
    decreases n,
{
    if n <= 0 {
        0
    } else {
        member_count(lab, c, n - 1) + if lab[n - 1] as int == c {
            1int
        } else {
            0int
        }
    }
}

/// Over the first `n` points labelled `c`: the sum of coordinate `t`, each
/// shifted up by 2^31 so that it is non-negative.
pub open spec fn member_sum(pts: Seq<Seq<i32>>, lab: Seq<usize>, c: int, t: int, n: int) -> int
    decreases n,
{
    if n <= 0 {
        0
    } else {
        member_sum(pts, lab, c, t, n - 1) + if lab[n - 1] as int == c {
            pts[n - 1][t] + 0x8000_0000
        } else {
            0int
        }
    }
}

/// The new centroid of cluster `c`: the mean of its members, each coordinate
/// rounded down; a cluster with no member keeps its centroid `old`.
pub open spec fn mean_of(pts: Seq<Seq<i32>>, lab: Seq<usize>, c: int, old: Seq<i32>) -> Seq<i32> {
    let n = pts.len() as int;
    let count = member_count(lab, c, n);
    if count == 0 {
        old
    } else {
        Seq::new(old.len(), |t: int| (member_sum(pts, lab, c, t, n) / count - 0x8000_0000) as i32)
    }
}

/// One update: every centroid moves to the mean of the points labelled with it.
pub open spec fn update(pts: Seq<Seq<i32>>, cents: Seq<Seq<i32>>, lab: Seq<usize>) -> Seq<Seq<i32>> {
    Seq::new(cents.len(), |c: int| mean_of(pts, lab, c, cents[c]))
}

/// Lloyd's iteration from round `i` on, with the labels `prev` of the round
/// before (empty before the first): it stops when a round's labels equal the
/// previous ones or after `max` rounds. The centroids, the last labels and
/// the number of rounds that moved the centroids.
pub open spec fn lloyd(pts: Seq<Seq<i32>>, cents: Seq<Seq<i32>>, prev: Seq<usize>, i: int, max: int) -> (
    Seq<Seq<i32>>,
    Seq<usize>,
    int,
)
    decreases max - i,
{
    if i >= max {
        (cents, prev, i)
    } else {
        let lab = labels(pts, cents);
        if lab == prev {
            (cents, prev, i)
        } else {
            lloyd(pts, update(pts, cents, lab), lab, i + 1, max)
        }
    }
}

/// Every vector of `s` has length `d`.
pub open spec fn all_of_dimension(s: Seq<Seq<i32>>, d: int) -> bool {
    forall|i: int| 0 <= i < s.len() ==> #[trigger] s[i].len() == d
}

proof fn lemma_member_sum_bounds(pts: Seq<Seq<i32>>, lab: Seq<usize>, c: int, t: int, n: int)
    requires
        0 <= n <= pts.len(),
        n <= lab.len(),
        0 <= t,
        forall|i: int| 0 <= i < pts.len() ==> t < #[trigger] pts[i].len(),
    ensures
        0 <= member_sum(pts, lab, c, t, n) <= member_count(lab, c, n) * 0xffff_ffff,
        0 <= member_count(lab, c, n) <= n,
    decreases n,
{
    if n > 0 {
        lemma_member_sum_bounds(pts, lab, c, t, n - 1);
        assert(t < pts[n - 1].len());
        let k = member_count(lab, c, n - 1);
        assert((k + 1) * 0xffff_ffff == k * 0xffff_ffff + 0xffff_ffff);
    }
}

/// The centroid nearest to `pt`, and its distance.
pub(crate) fn closest_centroid(pt: &[i32], cents: &Vec<Point>) -> (r: (usize, u128))
    requires
        cents@.len() >= 1,
        all_of_dimension(coords_of(cents@), pt@.len() as int),
    ensures
        r.0 as int == nearest_centroid(pt@, coords_of(cents@), cents@.len() as int),
        r.0 < cents@.len(),
        r.1 as int == squared_euclidean(pt@, coords_of(cents@)[r.0 as int]),
        r.1 as int <= pt@.len() * square_bound(),
{
    let ghost cv = coords_of(cents@);
    assert(cv[0] == cents@[0]@);
    assert(cv[0].len() == pt@.len());
    let mut best: usize = 0;
    let mut best_d = squared_distance(pt, cents[0].coordinates());
    let mut j: usize = 1;
    while j < cents.len()
        invariant
            cv == coords_of(cents@),
            all_of_dimension(cv, pt@.len() as int),
            1 <= j <= cents@.len(),
            best < j,
            best as int == nearest_centroid(pt@, cv, j as int),
            best_d as int == squared_euclidean(pt@, cv[best as int]),
            best_d as int <= pt@.len() * square_bound(),
        decreases cents@.len() - j,
    {
        assert(cv[j as int] == cents@[j as int]@);
        assert(cv[j as int].len() == pt@.len());
        let d = squared_distance(pt, cents[j].coordinates());
        if d < best_d {
            best = j;
            best_d = d;
        }
        j += 1;
    }
    (best, best_d)
}

/// The label of every point under the centroids `cents`.
pub fn label_all(points: &[Point], cents: &Vec<Point>) -> (r: Vec<usize>)
    requires
        cents@.len() >= 1,
        points@.len() >= 1,
        all_of_dimension(coords_of(points@), coords_of(points@)[0].len() as int),
        all_of_dimension(coords_of(cents@), coords_of(points@)[0].len() as int),
    ensures
        r@ == labels(coords_of(points@), coords_of(cents@)),
{
    let ghost pts = coords_of(points@);
    let ghost cv = coords_of(cents@);
    let mut r: Vec<usize> = Vec::with_capacity(points.len());
    let mut p: usize = 0;
    while p < points.len()
        invariant
            pts == coords_of(points@),
            cv == coords_of(cents@),
            cents@.len() >= 1,
            points@.len() >= 1,
            all_of_dimension(pts, pts[0].len() as int),
            all_of_dimension(cv, pts[0].len() as int),
            p <= points@.len(),
            r@.len() == p,
            forall|q: int| 0 <= q < p ==> #[trigger] r@[q] == nearest_centroid(pts[q], cv, cv.len() as int) as usize,
        decreases points@.len() - p,
    {
        assert(pts[p as int] == points@[p as int]@);
        assert(pts[p as int].len() == pts[0].len());
        let (j, _) = closest_centroid(points[p].coordinates(), cents);
        r.push(j);
        p += 1;
    }
    assert(r@ =~= labels(pts, cv));
    r
}

/// The mean of the points labelled `c`, each coordinate rounded down; `old` when there is none.
fn mean_of_members(points: &[Point], lab: &Vec<usize>, c: usize, old: &Point) -> (r: Point)
    requires
        all_of_dimension(coords_of(points@), old@.len() as int),
        lab@.len() == points@.len(),
    ensures
        r@ == mean_of(coords_of(points@), lab@, c as int, old@),
{
    let ghost pts = coords_of(points@);
    let n = points.len();
    let mut count: usize = 0;
    let mut p: usize = 0;
    while p < n
        invariant
            n == points@.len(),
            lab@.len() == n,
            p <= n,
            count as int == member_count(lab@, c as int, p as int),
            count <= p,
        decreases n - p,
    {
        if lab[p] == c {
            count += 1;
        }
        p += 1;
    }
    if count == 0 {
        return old.duplicate();
    }
    let d = old.dimension();
    let mut v: Vec<i32> = Vec::with_capacity(d);
    let mut t: usize = 0;
    while t < d
        invariant
            pts == coords_of(points@),
            all_of_dimension(pts, d as int),
            d == old@.len(),
            n == points@.len(),
            lab@.len() == n,
            count as int == member_count(lab@, c as int, n as int),
            count > 0,
            t <= d,
            v@.len() == t,
            forall|u: int| 0 <= u < t ==> #[trigger] v@[u] == (member_sum(pts, lab@, c as int, u, n as int) / (
            count as int) - 0x8000_0000) as i32,
        decreases d - t,
    {
        let mut sum: u128 = 0;
        let mut q: usize = 0;
        while q < n
            invariant
                pts == coords_of(points@),
                all_of_dimension(pts, d as int),
                n == points@.len(),
                lab@.len() == n,
                t < d,
                q <= n,
                sum as int == member_sum(pts, lab@, c as int, t as int, q as int),
                sum <= q * 0x1_0000_0000,
            decreases n - q,
        {
            if lab[q] == c {
                assert(pts[q as int] == points@[q as int]@);
                assert(pts[q as int].len() == d);
                let x = points[q].coordinates()[t];
                assert(q + 1 <= 0xffff_ffff_ffff_ffff);
                sum = sum + (x as i64 + 0x8000_0000) as u128;
            }
            q += 1;
        }
        proof {
            lemma_member_sum_bounds(pts, lab@, c as int, t as int, n as int);
            let s = sum as int;
            let k = count as int;
            assert(s / k <= 0xffff_ffff) by (nonlinear_arith)
                requires
                    0 <= s <= k * 0xffff_ffff,
                    k > 0,
            ;
            assert(s / k >= 0) by (nonlinear_arith)
                requires
                    0 <= s,
                    k > 0,
            ;
        }
        let mean = sum / (count as u128);
        v.push((mean as i64 - 0x8000_0000) as i32);
        t += 1;
    }
    let r = Point::new(v);
    assert(r@ =~= mean_of(pts, lab@, c as int, old@));
    r
}

/// Every centroid moved to the mean of its members.
fn update_all(points: &[Point], cents: &Vec<Point>, lab: &Vec<usize>) -> (r: Vec<Point>)
    requires
        points@.len() >= 1,
        all_of_dimension(coords_of(points@), coords_of(points@)[0].len() as int),
        all_of_dimension(coords_of(cents@), coords_of(points@)[0].len() as int),
        lab@.len() == points@.len(),
    ensures
        coords_of(r@) == update(coords_of(points@), coords_of(cents@), lab@),
        all_of_dimension(coords_of(r@), coords_of(points@)[0].len() as int),
        r@.len() == cents@.len(),
{
    let ghost pts = coords_of(points@);
    let ghost cv = coords_of(cents@);
    let mut r: Vec<Point> = Vec::with_capacity(cents.len());
    let mut c: usize = 0;
    while c < cents.len()
        invariant
            pts == coords_of(points@),
            cv == coords_of(cents@),
            points@.len() >= 1,
            all_of_dimension(pts, pts[0].len() as int),
            all_of_dimension(cv, pts[0].len() as int),
            lab@.len() == points@.len(),
            c <= cents@.len(),
            r@.len() == c,
            forall|q: int| 0 <= q < c ==> #[trigger] r@[q]@ == mean_of(pts, lab@, q, cv[q]),
            forall|q: int| 0 <= q < c ==> (#[trigger] r@[q])@.len() == pts[0].len(),
        decreases cents@.len() - c,
    {
        assert(cv[c as int] == cents@[c as int]@);
        assert(cv[c as int].len() == pts[0].len());
        let m = mean_of_members(points, lab, c, &cents[c]);
        r.push(m);
        c += 1;
    }
    assert(coords_of(r@) =~= update(pts, cv, lab@));
    r
}

fn same_labels(a: &Vec<usize>, b: &Vec<usize>) -> (r: bool)
    ensures
        r == (a@ == b@),
{
    if a.len() != b.len() {
        return false;
    }
    let mut i: usize = 0;
    while i < a.len()
        invariant
            a@.len() == b@.len(),
            i <= a@.len(),
            forall|q: int| 0 <= q < i ==> a@[q] == b@[q],
        decreases a@.len() - i,
    {
        if a[i] != b[i] {
            return false;
        }
        i += 1;
    }
    assert(a@ =~= b@);
    true
}

/// Sum of the first `n` weights.
pub open spec fn prefix_sum(w: Seq<u128>, n: int) -> int
    decreases n,
{
    if n <= 0 {
        0
    } else {
        prefix_sum(w, n - 1) + w[n - 1]
    }
}

/// The index whose share of the running sum of `weights` holds `target`:
/// each index is picked by as many targets as its weight.
pub fn weighted_pick(weights: &Vec<u128>, target: u128) -> (r: usize)
    requires
        target < prefix_sum(weights@, weights@.len() as int),
    ensures
        r < weights@.len(),
        prefix_sum(weights@, r as int) <= target < prefix_sum(weights@, r + 1),
{
    let mut acc: u128 = 0;
    let mut i: usize = 0;
    while i < weights.len()
        invariant
            i <= weights@.len(),
            acc as int == prefix_sum(weights@, i as int),
            acc <= target,
            target < prefix_sum(weights@, weights@.len() as int),
        decreases weights@.len() - i,
    {
        if weights[i] > target - acc {
            return i;
        }
        acc = acc + weights[i];
        i += 1;
    }
    proof {
        assert(false);
    }
    0
}

/// `c` is one of the points.
pub open spec fn is_input_point(pts: Seq<Seq<i32>>, c: Seq<i32>) -> bool {
    exists|i: int| 0 <= i < pts.len() && pts[i] == c
}

/// The sum, over all points, of the distance to the nearest centroid fits in a `u128`.
pub open spec fn kmeans_fits(pts: Seq<Seq<i32>>) -> bool {
    forall|i: int| 0 <= i < pts.len() ==> pts.len() * #[trigger] pts[i].len() <= 0x4000_0000_0000_0000
}

/// `k` points drawn at random, with replacement.
pub(crate) fn random_centroids(points: &[Point], k: usize) -> (r: Vec<Point>)
    requires
        points@.len() >= 1,
    ensures
        r@.len() == k,
        forall|j: int| 0 <= j < k ==> is_input_point(coords_of(points@), #[trigger] r@[j]@),
{
    let ghost pts = coords_of(points@);
    let mut r: Vec<Point> = Vec::with_capacity(k);
    let mut j: usize = 0;
    while j < k
        invariant
            pts == coords_of(points@),
            points@.len() >= 1,
            j <= k,
            r@.len() == j,
            forall|q: int| 0 <= q < j ==> is_input_point(pts, #[trigger] r@[q]@),
        decreases k - j,
    {
        let i = random_below(points.len());
        let c = points[i].duplicate();
        assert(pts[i as int] == c@);
        r.push(c);
        j += 1;
    }
    r
}

/// k-means++ seeding: a first point at random, then each further centroid
/// drawn with weight its squared distance to the nearest centroid so far
/// (the first point when every weight is zero).
pub(crate) fn plus_plus_centroids(points: &[Point], k: usize) -> (r: Vec<Point>)
    requires
        points@.len() >= 1,
        k >= 1,
        all_of_dimension(coords_of(points@), coords_of(points@)[0].len() as int),
        kmeans_fits(coords_of(points@)),
    ensures
        r@.len() == k,
        forall|j: int| 0 <= j < k ==> is_input_point(coords_of(points@), #[trigger] r@[j]@),
{
    let ghost pts = coords_of(points@);
    let n = points.len();
    let ghost d = pts[0].len() as int;
    let mut r: Vec<Point> = Vec::with_capacity(k);
    let first = random_below(n);
    let c0 = points[first].duplicate();
    assert(pts[first as int] == c0@);
    r.push(c0);
    while r.len() < k
        invariant
            pts == coords_of(points@),
            n == points@.len(),
            n >= 1,
            d == pts[0].len(),
            all_of_dimension(pts, d),
            kmeans_fits(pts),
            1 <= r@.len() <= k,
            all_of_dimension(coords_of(r@), d),
            forall|q: int| 0 <= q < r@.len() ==> is_input_point(pts, #[trigger] r@[q]@),
        decreases k - r@.len(),
    {
        let mut weights: Vec<u128> = Vec::with_capacity(n);
        let mut total: u128 = 0;
        let mut p: usize = 0;
        assert(pts.len() * pts[0].len() <= 0x4000_0000_0000_0000);
        while p < n
            invariant
                pts == coords_of(points@),
                n == points@.len(),
                d == pts[0].len(),
                all_of_dimension(pts, d),
                pts.len() * d <= 0x4000_0000_0000_0000,
                r@.len() >= 1,
                all_of_dimension(coords_of(r@), d),
                p <= n,
                weights@.len() == p,
                total as int == prefix_sum(weights@, p as int),
                total <= p * (d * square_bound()),
            decreases n - p,
        {
            assert(pts[p as int] == points@[p as int]@);
            let (_, w) = closest_centroid(points[p].coordinates(), &r);
            proof {
                assert((p + 1) * (d * square_bound()) <= n * d * square_bound()) by (nonlinear_arith)
                    requires
                        p + 1 <= n,
                        d >= 0,
                ;
                assert((p + 1) * (d * square_bound()) == p * (d * square_bound()) + d * square_bound()) by (nonlinear_arith);
                assert(n * d * square_bound() <= 0x4000_0000_0000_0000 * square_bound()) by (nonlinear_arith)
                    requires
                        n * d <= 0x4000_0000_0000_0000,
                ;
            }
            let ghost before_w = weights@;
            weights.push(w);
            total = total + w;
            proof {
                lemma_prefix_sum_prefix(weights@, before_w, p as int);
                assert(weights@[p as int] == w);
            }
            p += 1;
        }
        let pick = if total == 0 {
            0
        } else {
            let target = random_below_wide(total);
            weighted_pick(&weights, target)
        };
        let c = points[pick].duplicate();
        assert(pts[pick as int] == c@);
        let ghost before = r@;
        r.push(c);
        proof {
            assert forall|q: int| 0 <= q < r@.len() implies #[trigger] coords_of(r@)[q].len() == d by {
                if q < before.len() {
                    assert(coords_of(before)[q] == before[q]@);
                    assert(r@[q] == before[q]);
                }
            }
            assert forall|q: int| 0 <= q < r@.len() implies is_input_point(pts, #[trigger] r@[q]@) by {
                if q < before.len() {
                    assert(r@[q] == before[q]);
                }
            }
        }
    }
    r
}

proof fn lemma_prefix_sum_prefix(w1: Seq<u128>, w2: Seq<u128>, n: int)
    requires
        n <= w1.len(),
        n <= w2.len(),
        forall|i: int| 0 <= i < n ==> w1[i] == w2[i],
    ensures
        prefix_sum(w1, n) == prefix_sum(w2, n),
    decreases n,
{
    if n > 0 {
        lemma_prefix_sum_prefix(w1, w2, n - 1);
    }
}

/// How k-means picks its first centroids.
#[derive(Debug, Clone, Copy, PartialEq, Eq, Structural)]
pub enum KMeansInitialization {
    /// Points drawn at random.
    Random,
    /// k-means++: each further centroid drawn with weight its squared distance to the nearest one so far.
    KMeansPlusPlus,
    /// Centroids given by the caller.
    Precomputed,
}

/// The outcome of a k-means run.
pub struct KMeans {
    pub assignments: Vec<usize>,
    pub centroids: Vec<Point>,
    pub iterations: usize,
    pub converged: bool,
    /// The centroids the iteration started from.
    pub initial: Ghost<Seq<Seq<i32>>>,
}

impl KMeans {
    /// The outcome of Lloyd's iteration from `init`, with `max` rounds at most.
    pub open spec fn is_lloyd_of(&self, pts: Seq<Seq<i32>>, init: Seq<Seq<i32>>, max: int) -> bool {
        &&& self.initial@ == init
        &&& (coords_of(self.centroids@), self.assignments@, self.iterations as int) == lloyd(pts, init, Seq::empty(), 0, max)
        &&& self.converged == (self.iterations < max)
    }

    /// Lloyd's iteration from the centroids `initial`: each round labels
    /// every point with its nearest centroid and stops if no label changed;
    /// otherwise each centroid moves to the mean of its points (rounded down;
    /// a centroid with no point stays). At most `max_iterations` rounds move
    /// the centroids; the labels are those of the last round.
    pub fn from_centroids(points: &[Point], initial: Vec<Point>, max_iterations: usize) -> (r: KMeans)
        requires
            points@.len() >= 1,
            initial@.len() >= 1,
            all_of_dimension(coords_of(points@), coords_of(points@)[0].len() as int),
            all_of_dimension(coords_of(initial@), coords_of(points@)[0].len() as int),
        ensures
            r.is_lloyd_of(coords_of(points@), coords_of(initial@), max_iterations as int),
            r.centroids@.len() == initial@.len(),
    {
        let ghost pts = coords_of(points@);
        let ghost init = coords_of(initial@);
        let ghost k = initial@.len();
        let mut cents = initial;
        let mut prev: Vec<usize> = Vec::new();
        let mut i: usize = 0;
        let mut stop = false;
        while i < max_iterations && !stop
            invariant
                pts == coords_of(points@),
                points@.len() >= 1,
                all_of_dimension(pts, pts[0].len() as int),
                all_of_dimension(coords_of(cents@), pts[0].len() as int),
                cents@.len() == k,
                k >= 1,
                i <= max_iterations,
                lloyd(pts, coords_of(cents@), prev@, i as int, max_iterations as int) == lloyd(pts, init, Seq::empty(), 0, max_iterations as int),
                stop ==> lloyd(pts, coords_of(cents@), prev@, i as int, max_iterations as int) == (coords_of(cents@), prev@, i as int),
            decreases max_iterations - i, if stop { 0int } else { 1int },
        {
            let lab = label_all(points, &cents);
            if same_labels(&lab, &prev) {
                stop = true;
            } else {
                cents = update_all(points, &cents, &lab);
                prev = lab;
                i += 1;
            }
        }
        KMeans { assignments: prev, centroids: cents, iterations: i, converged: i < max_iterations, initial: Ghost(init) }
    }

    /// k-means on `points` with `no_clusters` centroids, seeded as
    /// `init_method` says (`precomputed` holds the centroids for
    /// `Precomputed`), then Lloyd's iteration with `max_iterations` rounds at most.
    pub fn run(
        points: &[Point],
        no_clusters: usize,
        max_iterations: usize,
        init_method: KMeansInitialization,
        precomputed: Option<&[Point]>,
    ) -> (r: Result<KMeans, ClusterError>)
        requires
            kmeans_fits(coords_of(points@)),
        ensures
            points@.len() == 0 ==> r == Err::<KMeans, ClusterError>(ClusterError::EmptyInput),
            points@.len() > 0 && !all_of_dimension(coords_of(points@), coords_of(points@)[0].len() as int) ==> r
                == Err::<KMeans, ClusterError>(ClusterError::DimensionMismatch),
            points@.len() > 0 && all_of_dimension(coords_of(points@), coords_of(points@)[0].len() as int) && no_clusters
                == 0 ==> r == Err::<KMeans, ClusterError>(ClusterError::InvalidClusterCount),
            points@.len() > 0 && all_of_dimension(coords_of(points@), coords_of(points@)[0].len() as int) && no_clusters
                > 0 ==> match init_method {
                KMeansInitialization::Precomputed => match precomputed {
                    None => r == Err::<KMeans, ClusterError>(ClusterError::MissingCentroids),
                    Some(c) => if c@.len() != no_clusters {
                        r == Err::<KMeans, ClusterError>(ClusterError::InvalidClusterCount)
                    } else if !all_of_dimension(coords_of(c@), coords_of(points@)[0].len() as int) {
                        r == Err::<KMeans, ClusterError>(ClusterError::DimensionMismatch)
                    } else {
                        r is Ok && r->Ok_0.is_lloyd_of(coords_of(points@), coords_of(c@), max_iterations as int)
                    },
                },
                _ => r is Ok,
            },
            r is Ok ==> r->Ok_0.is_lloyd_of(coords_of(points@), r->Ok_0.initial@, max_iterations as int),
            r is Ok ==> r->Ok_0.initial@.len() == no_clusters,
            r is Ok && init_method != KMeansInitialization::Precomputed ==> forall|j: int| 0 <= j < no_clusters ==>
                is_input_point(coords_of(points@), #[trigger] r->Ok_0.initial@[j]),
    {
        let n = points.len();
        if n == 0 {
            return Err(ClusterError::EmptyInput);
        }
        let ghost pts = coords_of(points@);
        let d = points[0].dimension();
        if !same_dimension(points, d) {
            return Err(ClusterError::DimensionMismatch);
        }
        if no_clusters == 0 {
            return Err(ClusterError::InvalidClusterCount);
        }
        let initial = match init_method {
            KMeansInitialization::Random => random_centroids(points, no_clusters),
            KMeansInitialization::KMeansPlusPlus => plus_plus_centroids(points, no_clusters),
            KMeansInitialization::Precomputed => match precomputed {
                None => {
                    return Err(ClusterError::MissingCentroids);
                },
                Some(c) => {
                    if c.len() != no_clusters {
                        return Err(ClusterError::InvalidClusterCount);
                    }
                    if !same_dimension(c, d) {
                        return Err(ClusterError::DimensionMismatch);
                    }
                    let mut v: Vec<Point> = Vec::with_capacity(c.len());
                    let mut j: usize = 0;
                    while j < c.len()
                        invariant
                            j <= c@.len(),
                            v@.len() == j,
                            forall|q: int| 0 <= q < j ==> #[trigger] v@[q]@ == c@[q]@,
                        decreases c@.len() - j,
                    {
                        v.push(c[j].duplicate());
                        j += 1;
                    }
                    assert(coords_of(v@) =~= coords_of(c@));
                    v
                },
            },
        };
        proof {
            assert forall|q: int| 0 <= q < initial@.len() implies #[trigger] coords_of(initial@)[q].len() == d by {
                if init_method != KMeansInitialization::Precomputed {
                    let i = choose|i: int| 0 <= i < pts.len() && pts[i] == initial@[q]@;
                    assert(pts[i].len() == d);
                } else {
                    assert(coords_of(initial@)[q] == initial@[q]@);
                }
            }
        }
        Ok(KMeans::from_centroids(points, initial, max_iterations))
    }

    /// The final centroids, one per cluster.
    pub fn centroids(&self) -> (r: &[Point])
        ensures
            r@ == self.centroids@,
    {
        self.centroids.as_slice()
    }

    /// The label of each point in the last round: the position of its nearest centroid.
    pub fn assignments(&self) -> (r: &[usize])
        ensures
            r@ == self.assignments@,
    {
        self.assignments.as_slice()
    }

    /// The number of rounds that moved the centroids.
    pub fn iterations(&self) -> (r: usize)
        ensures
            r == self.iterations,
    {
        self.iterations
    }

    /// Whether a round left every label as it was before the round limit.
    pub fn converged(&self) -> (r: bool)
        ensures
            r == self.converged,
    {
        self.converged
    }
}

/// Whether every point of `points` has dimension `d`.
pub(crate) fn same_dimension(points: &[Point], d: usize) -> (r: bool)
    ensures
        r == all_of_dimension(coords_of(points@), d as int),
{
    let mut i: usize = 0;
    while i < points.len()
        invariant
            i <= points@.len(),
            forall|q: int| 0 <= q < i ==> #[trigger] coords_of(points@)[q].len() == d,
        decreases points@.len() - i,
    {
        if points[i].dimension() != d {
            assert(coords_of(points@)[i as int].len() != d);
            return false;
        }
        i += 1;
    }
    true
}

} // verus!
