//! Randomized medoid search (CLARANS): restarts from random medoid sets,
//! each improved by random single-medoid swaps.
//!
//! A swap is scored by the swap cost formula exactly as stated here
//! (`contribution`, `swap_cost_spec`), including its stand-in of a point's
//! distance to its own coordinates. That formula alone judges almost every
//! swap worth taking (the candidate point's own share is minus infinity
//! whenever it is labelled with the other nearest medoid), so a search on it
//! alone would seldom end. As a deliberate departure, a swap is taken only
//! when the formula is negative *and* a recount of the total dissimilarity
//! shows a strict drop. This makes every restart end and never lets a
//! restart end worse than it started.

use crate::distance::{square_bound, squared_distance, squared_euclidean};
use crate::error::ClusterError;
use crate::point::{coords_of, Point};
use crate::random::{random_below, random_distinct};
use vstd::prelude::*;

verus! {

/// All points share one dimension, and the collection is small enough that
/// every sum of distances the search forms fits in an `i128`.
pub open spec fn well_sized(pts: Seq<Seq<i32>>) -> bool {
    &&& pts.len() > 0
    &&& forall|i: int| 0 <= i < pts.len() ==> #[trigger] pts[i].len() == pts[0].len()
    &&& (pts.len() + 1) * (pts.len() + 1) * pts[0].len() <= 0x4000_0000_0000_0000
}

/// The dissimilarity the search uses: squared Euclidean distance between points `i` and `j`.
pub open spec fn dist(pts: Seq<Seq<i32>>, i: int, j: int) -> int {
    squared_euclidean(pts[i], pts[j])
}

/// A medoid set: distinct point indices, at least one.
pub open spec fn valid_medoids(n: int, meds: Seq<usize>) -> bool {
    &&& 1 <= meds.len() <= n
    &&& meds.no_duplicates()
    &&& forall|j: int| 0 <= j < meds.len() ==> #[trigger] meds[j] < n
}

/// The slot among the first `k` medoids nearest to point `p`; the first one on ties.
pub open spec fn nearest_slot(pts: Seq<Seq<i32>>, meds: Seq<usize>, p: int, k: int) -> int
    decreases k,
{
    if k <= 1 {
        0
    } else {
        let j = nearest_slot(pts, meds, p, k - 1);
        if dist(pts, p, meds[k - 1] as int) < dist(pts, p, meds[j] as int) {
            k - 1
        } else {
            j
        }
    }
}

/// The slot among the first `k` medoids, slot `m` left out, nearest to point `p`;
/// the first one on ties, and `-1` where no slot is left.
pub open spec fn nearest_other(pts: Seq<Seq<i32>>, meds: Seq<usize>, p: int, m: int, k: int) -> int
    decreases k,
{
    if k <= 0 {
        -1
    } else {
        let j = nearest_other(pts, meds, p, m, k - 1);
        if k - 1 == m {
            j
        } else if j < 0 || dist(pts, p, meds[k - 1] as int) < dist(pts, p, meds[j] as int) {
            k - 1
        } else {
            j
        }
    }
}

/// The label of point `p`: the position of its nearest medoid.
pub open spec fn label(pts: Seq<Seq<i32>>, meds: Seq<usize>, p: int) -> int {
    nearest_slot(pts, meds, p, meds.len() as int)
}

/// The distance from point `p` to its nearest medoid.
pub open spec fn nearest_dist(pts: Seq<Seq<i32>>, meds: Seq<usize>, p: int) -> int {
    dist(pts, p, meds[label(pts, meds, p)] as int)
}

/// Sum, over the first `n` points, of the distance to the nearest medoid.
pub open spec fn cost_upto(pts: Seq<Seq<i32>>, meds: Seq<usize>, n: int) -> int
    decreases n,
{
    if n <= 0 {
        0
    } else {
        cost_upto(pts, meds, n - 1) + nearest_dist(pts, meds, n - 1)
    }
}

/// Total dissimilarity of a medoid set.
pub open spec fn total_cost(pts: Seq<Seq<i32>>, meds: Seq<usize>) -> int {
    cost_upto(pts, meds, pts.len() as int)
}

/// Sum of the distances from point `p` to the first `k` medoids.
pub open spec fn dist_sum(pts: Seq<Seq<i32>>, meds: Seq<usize>, p: int, k: int) -> int
    decreases k,
{
    if k <= 0 {
        0
    } else {
        dist_sum(pts, meds, p, k - 1) + dist(pts, p, meds[k - 1] as int)
    }
}

/// The labels of every point under a medoid set.
pub open spec fn labels_of(pts: Seq<Seq<i32>>, meds: Seq<usize>, assign: Seq<usize>) -> bool {
    &&& assign.len() == pts.len()
    &&& forall|p: int| 0 <= p < pts.len() ==> #[trigger] assign[p] == label(pts, meds, p)
}

/// Upper bound of one distance between points of dimension `d`.
pub open spec fn dist_bound(d: int) -> int {
    d * square_bound()
}

proof fn lemma_nearest_slot_min(pts: Seq<Seq<i32>>, meds: Seq<usize>, p: int, k: int)
    requires
        k >= 1,
    ensures
        0 <= nearest_slot(pts, meds, p, k) < k,
        forall|j: int| 0 <= j < k ==> dist(pts, p, meds[nearest_slot(pts, meds, p, k)] as int) <= dist(pts, p, #[trigger] meds[j] as int),
        forall|j: int| 0 <= j < nearest_slot(pts, meds, p, k) ==> dist(pts, p, meds[nearest_slot(pts, meds, p, k)] as int) < dist(pts, p, #[trigger] meds[j] as int),
    decreases k,
{
    if k > 1 {
        lemma_nearest_slot_min(pts, meds, p, k - 1);
    }
}

/// A label names a nearest medoid: no medoid is closer to the point, and
/// every medoid at an earlier position is farther.
pub proof fn lemma_label_is_nearest(pts: Seq<Seq<i32>>, meds: Seq<usize>, p: int)
    requires
        meds.len() >= 1,
    ensures
        0 <= label(pts, meds, p) < meds.len(),
        forall|j: int| 0 <= j < meds.len() ==> nearest_dist(pts, meds, p) <= dist(pts, p, #[trigger] meds[j] as int),
        forall|j: int| 0 <= j < label(pts, meds, p) ==> nearest_dist(pts, meds, p) < dist(pts, p, #[trigger] meds[j] as int),
{
    lemma_nearest_slot_min(pts, meds, p, meds.len() as int);
}

proof fn lemma_every_point_is_medoid(n: int, meds: Seq<usize>, p: int)
    requires
        valid_medoids(n, meds),
        meds.len() == n,
        0 <= p < n,
    ensures
        exists|j: int| 0 <= j < meds.len() && meds[j] as int == p,
{
    let s = meds.map_values(|x: usize| x as int);
    assert forall|a: int, b: int| 0 <= a < s.len() && 0 <= b < s.len() && a != b implies s[a] != s[b] by {
        assert(meds[a] != meds[b]);
    }
    assert(s.no_duplicates());
    s.unique_seq_to_set();
    vstd::set_lib::lemma_int_range(0, n);
    assert forall|x: int| s.to_set().contains(x) implies vstd::set_lib::set_int_range(0, n).contains(x) by {
        let j = choose|j: int| 0 <= j < s.len() && s[j] == x;
        assert(meds[j] < n);
    }
    vstd::set_lib::lemma_subset_equality(s.to_set(), vstd::set_lib::set_int_range(0, n));
    assert(vstd::set_lib::set_int_range(0, n).contains(p));
    assert(s.to_set().contains(p));
    let j = choose|j: int| 0 <= j < s.len() && s[j] == p;
    assert(meds[j] as int == p);
}

proof fn lemma_zero_cost_upto(pts: Seq<Seq<i32>>, meds: Seq<usize>, k: int)
    requires
        0 <= k <= pts.len(),
        forall|p: int| 0 <= p < pts.len() ==> #[trigger] nearest_dist(pts, meds, p) == 0,
    ensures
        cost_upto(pts, meds, k) == 0,
    decreases k,
{
    if k > 0 {
        lemma_zero_cost_upto(pts, meds, k - 1);
        assert(nearest_dist(pts, meds, k - 1) == 0);
    }
}

/// When the medoid set holds every point, each point is at distance zero
/// from its nearest medoid, and the total dissimilarity is zero.
pub proof fn lemma_all_points_as_medoids(pts: Seq<Seq<i32>>, meds: Seq<usize>)
    requires
        same_dimension(pts),
        valid_medoids(pts.len() as int, meds),
        meds.len() == pts.len(),
    ensures
        forall|p: int| 0 <= p < pts.len() ==> #[trigger] nearest_dist(pts, meds, p) == 0,
        total_cost(pts, meds) == 0,
{
    assert forall|p: int| 0 <= p < pts.len() implies #[trigger] nearest_dist(pts, meds, p) == 0 by {
        lemma_every_point_is_medoid(pts.len() as int, meds, p);
        let j = choose|j: int| 0 <= j < meds.len() && meds[j] as int == p;
        lemma_label_is_nearest(pts, meds, p);
        crate::distance::lemma_distance_to_itself(pts[p]);
        assert(dist(pts, p, meds[j] as int) == 0);
        let l = label(pts, meds, p);
        let q = meds[l] as int;
        assert(pts[p].len() == pts[0].len() && pts[q].len() == pts[0].len());
        lemma_sum_sq_bounds(pts[p], pts[q], pts[p].len() as int);
    }
    lemma_zero_cost_upto(pts, meds, pts.len() as int);
}

proof fn lemma_dist_bounds(pts: Seq<Seq<i32>>, i: int, j: int)
    requires
        well_sized(pts),
        0 <= i < pts.len(),
        0 <= j < pts.len(),
    ensures
        0 <= dist(pts, i, j) <= dist_bound(pts[0].len() as int),
{
    lemma_sum_sq_bounds(pts[i], pts[j], pts[i].len() as int);
}

proof fn lemma_sum_sq_bounds(a: Seq<i32>, b: Seq<i32>, n: int)
    requires
        0 <= n <= a.len(),
        n <= b.len(),
    ensures
        0 <= crate::distance::sum_sq(a, b, n) <= n * square_bound(),
    decreases n,
{
    if n > 0 {
        lemma_sum_sq_bounds(a, b, n - 1);
        let d: int = a[n - 1] - b[n - 1];
        assert(-0xffff_ffff <= d <= 0xffff_ffff);
        assert(0 <= d * d <= 0xffff_ffff * 0xffff_ffff) by (nonlinear_arith)
            requires
                -0xffff_ffff <= d <= 0xffff_ffff,
        ;
    }
}

/// Distance between points `i` and `j`.
fn point_dist(points: &[Point], i: usize, j: usize) -> (r: u128)
    requires
        well_sized(coords_of(points@)),
        i < points@.len(),
        j < points@.len(),
    ensures
        r as int == dist(coords_of(points@), i as int, j as int),
        r as int <= dist_bound(coords_of(points@)[0].len() as int),
{
    let ghost pts = coords_of(points@);
    assert(pts[i as int] == points@[i as int]@);
    assert(pts[j as int] == points@[j as int]@);
    assert(pts[i as int].len() == pts[0].len());
    assert(pts[j as int].len() == pts[0].len());
    squared_distance(points[i].coordinates(), points[j].coordinates())
}

/// Point `p`'s nearest medoid slot and its distance.
pub fn closest(points: &[Point], medoids: &Vec<usize>, p: usize) -> (r: (usize, u128))
    requires
        well_sized(coords_of(points@)),
        valid_medoids(points@.len() as int, medoids@),
        p < points@.len(),
    ensures
        r.0 as int == label(coords_of(points@), medoids@, p as int),
        r.1 as int == nearest_dist(coords_of(points@), medoids@, p as int),
        r.0 < medoids@.len(),
{
    let ghost pts = coords_of(points@);
    let mut best: usize = 0;
    let mut best_d = point_dist(points, p, medoids[0]);
    let mut j: usize = 1;
    while j < medoids.len()
        invariant
            pts == coords_of(points@),
            well_sized(pts),
            valid_medoids(points@.len() as int, medoids@),
            p < points@.len(),
            1 <= j <= medoids@.len(),
            best as int == nearest_slot(pts, medoids@, p as int, j as int),
            best < j,
            best_d as int == dist(pts, p as int, medoids@[best as int] as int),
        decreases medoids@.len() - j,
    {
        let d = point_dist(points, p, medoids[j]);
        if d < best_d {
            best = j;
            best_d = d;
        }
        j += 1;
    }
    (best, best_d)
}

/// Point `p`'s nearest medoid slot other than `m`, with its distance; `None` when `m` is the only slot.
pub fn closest_other(points: &[Point], medoids: &Vec<usize>, p: usize, m: usize) -> (r: Option<(usize, u128)>)
    requires
        well_sized(coords_of(points@)),
        valid_medoids(points@.len() as int, medoids@),
        p < points@.len(),
        m < medoids@.len(),
    ensures
        match r {
            Some((j, d)) => j as int == nearest_other(coords_of(points@), medoids@, p as int, m as int, medoids@.len() as int)
                && j < medoids@.len() && d as int == dist(coords_of(points@), p as int, medoids@[j as int] as int),
            None => nearest_other(coords_of(points@), medoids@, p as int, m as int, medoids@.len() as int) == -1,
        },
{
    let ghost pts = coords_of(points@);
    let mut best: Option<(usize, u128)> = None;
    let mut j: usize = 0;
    while j < medoids.len()
        invariant
            pts == coords_of(points@),
            well_sized(pts),
            valid_medoids(points@.len() as int, medoids@),
            p < points@.len(),
            m < medoids@.len(),
            j <= medoids@.len(),
            match best {
                Some((b, d)) => b as int == nearest_other(pts, medoids@, p as int, m as int, j as int)
                    && b < j && d as int == dist(pts, p as int, medoids@[b as int] as int),
                None => nearest_other(pts, medoids@, p as int, m as int, j as int) == -1,
            },
        decreases medoids@.len() - j,
    {
        if j != m {
            let d = point_dist(points, p, medoids[j]);
            match best {
                None => {
                    best = Some((j, d));
                },
                Some((_, bd)) => {
                    if d < bd {
                        best = Some((j, d));
                    }
                },
            }
        }
        j += 1;
    }
    best
}

/// What stands in for a point's distance to its nearest medoid in the swap
/// formula: its distance to its own coordinates, unless the point is the
/// candidate or the medoid being replaced, where there is none (an infinite distance).
pub open spec fn stand_in(pts: Seq<Seq<i32>>, meds: Seq<usize>, m: int, c: int, p: int) -> Option<int> {
    if p != c && p != meds[m] as int {
        Some(dist(pts, p, p))
    } else {
        None
    }
}

/// Point `p`'s share of the cost of putting candidate `c` in medoid slot `m`;
/// `None` stands for minus infinity.
pub open spec fn contribution(
    pts: Seq<Seq<i32>>,
    meds: Seq<usize>,
    assign: Seq<usize>,
    m: int,
    c: int,
    p: int,
) -> Option<int> {
    let d_cand = dist(pts, p, c);
    let d_cur = dist_sum(pts, meds, p, meds.len() as int);
    let other = nearest_other(pts, meds, p, m, meds.len() as int);
    if assign[p] as int == m {
        match stand_in(pts, meds, m, c, p) {
            Some(d_near) => Some(
                if d_cand <= d_near {
                    d_cand
                } else {
                    d_near
                } - d_cur,
            ),
            None => Some(d_cand - d_cur),
        }
    } else if other >= 0 && assign[p] as int == other {
        match stand_in(pts, meds, m, c, p) {
            Some(d_near) => if d_cand < d_near {
                Some(d_cand - d_near)
            } else {
                Some(0)
            },
            None => None,
        }
    } else {
        Some(0)
    }
}

/// Sum of the contributions of the first `n` points; `None` (minus infinity) absorbs.
pub open spec fn swap_cost_upto(
    pts: Seq<Seq<i32>>,
    meds: Seq<usize>,
    assign: Seq<usize>,
    m: int,
    c: int,
    n: int,
) -> Option<int>
    decreases n,
{
    if n <= 0 {
        Some(0)
    } else {
        match (swap_cost_upto(pts, meds, assign, m, c, n - 1), contribution(pts, meds, assign, m, c, n - 1)) {
            (Some(a), Some(b)) => Some(a + b),
            _ => None,
        }
    }
}

/// The swap cost delta of putting candidate `c` in medoid slot `m`.
pub open spec fn swap_cost_spec(pts: Seq<Seq<i32>>, meds: Seq<usize>, assign: Seq<usize>, m: int, c: int) -> Option<int> {
    swap_cost_upto(pts, meds, assign, m, c, pts.len() as int)
}

/// The swap formula finds the swap worth taking: its delta is negative.
pub open spec fn formula_accepts(pts: Seq<Seq<i32>>, meds: Seq<usize>, assign: Seq<usize>, m: int, c: int) -> bool {
    match swap_cost_spec(pts, meds, assign, m, c) {
        Some(d) => d < 0,
        None => true,
    }
}

/// Number of `false` entries among the first `n` of `s`: of points that are no medoid.
pub open spec fn count_free(s: Seq<bool>, n: int) -> int
    decreases n,
{
    if n <= 0 {
        0
    } else {
        count_free(s, n - 1) + if !s[n - 1] {
            1int
        } else {
            0int
        }
    }
}

proof fn lemma_size(pts: Seq<Seq<i32>>)
    requires
        well_sized(pts),
    ensures
        0 <= dist_bound(pts[0].len() as int),
        (pts.len() + 1) * (pts.len() + 1) * dist_bound(pts[0].len() as int)
            <= 0x4000_0000_0000_0000_0000_0000_0000_0000,
        pts.len() * dist_bound(pts[0].len() as int) <= (pts.len() + 1) * dist_bound(pts[0].len() as int),
        dist_bound(pts[0].len() as int) <= (pts.len() + 1) * dist_bound(pts[0].len() as int),
        0 <= pts.len() * dist_bound(pts[0].len() as int),
        dist_bound(pts[0].len() as int) <= pts.len() * dist_bound(pts[0].len() as int),
        (pts.len() + 1) * dist_bound(pts[0].len() as int) <= (pts.len() + 1) * (pts.len() + 1) * dist_bound(
            pts[0].len() as int,
        ),
{
    let n = pts.len() as int;
    let d = pts[0].len() as int;
    assert((n + 1) * (n + 1) * (d * 0x1_0000_0000_0000_0000) <= 0x4000_0000_0000_0000_0000_0000_0000_0000)
        by (nonlinear_arith)
        requires
            (n + 1) * (n + 1) * d <= 0x4000_0000_0000_0000,
            d >= 0,
            n >= 0,
    ;
    let b = d * 0x1_0000_0000_0000_0000;
    assert(0 <= n * b <= (n + 1) * b) by (nonlinear_arith)
        requires
            b >= 0,
            n >= 0,
    ;
    assert(b <= n * b <= (n + 1) * b) by (nonlinear_arith)
        requires
            b >= 0,
            n >= 1,
    ;
    assert((n + 1) * b <= (n + 1) * (n + 1) * b) by (nonlinear_arith)
        requires
            b >= 0,
            n >= 0,
    ;
}

proof fn lemma_step_bound(acc: int, t: int, i: int, w: int, n: int)
    requires
        0 <= acc <= i * w,
        0 <= t <= w,
        0 <= i < n,
    ensures
        0 <= acc + t <= (i + 1) * w,
        (i + 1) * w <= n * w,
{
    assert((i + 1) * w == i * w + w) by (nonlinear_arith);
    assert((i + 1) * w <= n * w) by (nonlinear_arith)
        requires
            0 <= w,
            i + 1 <= n,
    ;
}

/// The label of every point: the position of its nearest medoid.
pub fn assign_all(points: &[Point], medoids: &Vec<usize>) -> (r: Vec<usize>)
    requires
        well_sized(coords_of(points@)),
        valid_medoids(points@.len() as int, medoids@),
    ensures
        labels_of(coords_of(points@), medoids@, r@),
        forall|p: int| 0 <= p < r@.len() ==> #[trigger] r@[p] < medoids@.len(),
{
    let ghost pts = coords_of(points@);
    let mut r: Vec<usize> = Vec::with_capacity(points.len());
    let mut p: usize = 0;
    while p < points.len()
        invariant
            pts == coords_of(points@),
            well_sized(pts),
            valid_medoids(points@.len() as int, medoids@),
            p <= points@.len(),
            r@.len() == p,
            forall|q: int| 0 <= q < p ==> #[trigger] r@[q] == label(pts, medoids@, q),
            forall|q: int| 0 <= q < p ==> #[trigger] r@[q] < medoids@.len(),
        decreases points@.len() - p,
    {
        let (j, _) = closest(points, medoids, p);
        r.push(j);
        p += 1;
    }
    r
}

/// Total dissimilarity of a medoid set: the sum over all points of the
/// distance to the nearest medoid.
pub fn total_dissimilarity(points: &[Point], medoids: &Vec<usize>) -> (r: u128)
    requires
        well_sized(coords_of(points@)),
        valid_medoids(points@.len() as int, medoids@),
    ensures
        r as int == total_cost(coords_of(points@), medoids@),
{
    let ghost pts = coords_of(points@);
    let ghost b = dist_bound(pts[0].len() as int);
    proof {
        lemma_size(pts);
    }
    let mut acc: u128 = 0;
    let mut p: usize = 0;
    while p < points.len()
        invariant
            pts == coords_of(points@),
            well_sized(pts),
            b == dist_bound(pts[0].len() as int),
            0 <= b,
            pts.len() * b <= 0x4000_0000_0000_0000_0000_0000_0000_0000,
            valid_medoids(points@.len() as int, medoids@),
            p <= points@.len(),
            acc as int == cost_upto(pts, medoids@, p as int),
            acc as int <= p * b,
        decreases points@.len() - p,
    {
        let (j, d) = closest(points, medoids, p);
        proof {
            lemma_dist_bounds(pts, p as int, medoids@[j as int] as int);
            lemma_step_bound(acc as int, d as int, p as int, b, pts.len() as int);
        }
        acc = acc + d;
        p += 1;
    }
    acc
}

proof fn lemma_signed_step(acc: int, t: int, i: int, w: int, n: int)
    requires
        -(i * w) <= acc <= i * w,
        -w <= t <= w,
        0 <= i < n,
    ensures
        -((i + 1) * w) <= acc + t <= (i + 1) * w,
        (i + 1) * w <= n * w,
{
    assert((i + 1) * w == i * w + w) by (nonlinear_arith);
    assert((i + 1) * w <= n * w) by (nonlinear_arith)
        requires
            0 <= w,
            i + 1 <= n,
    ;
}

/// Sum of the distances from point `p` to every medoid.
fn distance_sum(points: &[Point], medoids: &Vec<usize>, p: usize) -> (r: u128)
    requires
        well_sized(coords_of(points@)),
        valid_medoids(points@.len() as int, medoids@),
        p < points@.len(),
    ensures
        r as int == dist_sum(coords_of(points@), medoids@, p as int, medoids@.len() as int),
        r as int <= points@.len() * dist_bound(coords_of(points@)[0].len() as int),
{
    let ghost pts = coords_of(points@);
    let ghost b = dist_bound(pts[0].len() as int);
    proof {
        lemma_size(pts);
    }
    let mut acc: u128 = 0;
    let mut j: usize = 0;
    assert(0 * b == 0) by (nonlinear_arith);
    while j < medoids.len()
        invariant
            pts == coords_of(points@),
            well_sized(pts),
            b == dist_bound(pts[0].len() as int),
            0 <= b,
            pts.len() * b <= 0x4000_0000_0000_0000_0000_0000_0000_0000,
            valid_medoids(points@.len() as int, medoids@),
            p < points@.len(),
            j <= medoids@.len(),
            acc as int == dist_sum(pts, medoids@, p as int, j as int),
            acc as int <= j * b,
            j * b <= pts.len() * b,
        decreases medoids@.len() - j,
    {
        let d = point_dist(points, p, medoids[j]);
        proof {
            lemma_step_bound(acc as int, d as int, j as int, b, pts.len() as int);
        }
        acc = acc + d;
        j += 1;
    }
    acc
}

/// Point `p`'s share of the swap cost of putting candidate `c` in slot `m`; `None` is minus infinity.
fn point_contribution(
    points: &[Point],
    medoids: &Vec<usize>,
    assignment: &Vec<usize>,
    m: usize,
    c: usize,
    p: usize,
) -> (r: Option<i128>)
    requires
        well_sized(coords_of(points@)),
        valid_medoids(points@.len() as int, medoids@),
        assignment@.len() == points@.len(),
        m < medoids@.len(),
        c < points@.len(),
        p < points@.len(),
    ensures
        match r {
            Some(x) => contribution(coords_of(points@), medoids@, assignment@, m as int, c as int, p as int)
                == Some(x as int) && -(points@.len() * dist_bound(coords_of(points@)[0].len() as int)) <= x
                <= points@.len() * dist_bound(coords_of(points@)[0].len() as int),
            None => contribution(coords_of(points@), medoids@, assignment@, m as int, c as int, p as int)
                is None,
        },
{
    let ghost pts = coords_of(points@);
    proof {
        lemma_size(pts);
        lemma_dist_bounds(pts, p as int, c as int);
        lemma_dist_bounds(pts, p as int, p as int);
    }
    let d_cand = point_dist(points, p, c);
    let d_cur = distance_sum(points, medoids, p);
    let d_near: Option<u128> = if p != c && p != medoids[m] {
        Some(point_dist(points, p, p))
    } else {
        None
    };
    let a = assignment[p];
    if a == m {
        let best = match d_near {
            Some(dn) => if d_cand <= dn {
                d_cand
            } else {
                dn
            },
            None => d_cand,
        };
        Some(best as i128 - d_cur as i128)
    } else {
        match closest_other(points, medoids, p, m) {
            Some((other, _)) => {
                if a == other {
                    match d_near {
                        Some(dn) => if d_cand < dn {
                            Some(d_cand as i128 - dn as i128)
                        } else {
                            Some(0)
                        },
                        None => None,
                    }
                } else {
                    Some(0)
                }
            },
            None => Some(0),
        }
    }
}

/// The swap cost delta of putting candidate point `c` in medoid slot `m`,
/// summed over every point; `None` is minus infinity.
pub fn swap_cost(points: &[Point], medoids: &Vec<usize>, assignment: &Vec<usize>, m: usize, c: usize) -> (r:
    Option<i128>)
    requires
        well_sized(coords_of(points@)),
        valid_medoids(points@.len() as int, medoids@),
        assignment@.len() == points@.len(),
        m < medoids@.len(),
        c < points@.len(),
    ensures
        match r {
            Some(x) => swap_cost_spec(coords_of(points@), medoids@, assignment@, m as int, c as int) == Some(
                x as int,
            ),
            None => swap_cost_spec(coords_of(points@), medoids@, assignment@, m as int, c as int) is None,
        },
{
    let ghost pts = coords_of(points@);
    let ghost w = pts.len() * dist_bound(pts[0].len() as int);
    proof {
        lemma_size(pts);
        assert(pts.len() * w <= 0x4000_0000_0000_0000_0000_0000_0000_0000) by (nonlinear_arith)
            requires
                w == pts.len() * dist_bound(pts[0].len() as int),
                pts.len() * dist_bound(pts[0].len() as int) <= (pts.len() + 1) * dist_bound(pts[0].len() as int),
                (pts.len() + 1) * dist_bound(pts[0].len() as int) <= (pts.len() + 1) * (pts.len() + 1) * dist_bound(pts[0].len() as int),
                (pts.len() + 1) * (pts.len() + 1) * dist_bound(pts[0].len() as int) <= 0x4000_0000_0000_0000_0000_0000_0000_0000,
                0 <= dist_bound(pts[0].len() as int),
        ;
    }
    let mut acc: i128 = 0;
    let mut p: usize = 0;
    while p < points.len()
        invariant
            pts == coords_of(points@),
            well_sized(pts),
            w == pts.len() * dist_bound(pts[0].len() as int),
            0 <= w,
            pts.len() * w <= 0x4000_0000_0000_0000_0000_0000_0000_0000,
            valid_medoids(points@.len() as int, medoids@),
            assignment@.len() == points@.len(),
            m < medoids@.len(),
            c < points@.len(),
            p <= points@.len(),
            swap_cost_upto(pts, medoids@, assignment@, m as int, c as int, p as int) == Some(acc as int),
            -(p * w) <= acc <= p * w,
        decreases points@.len() - p,
    {
        match point_contribution(points, medoids, assignment, m, c, p) {
            Some(x) => {
                proof {
                    lemma_signed_step(acc as int, x as int, p as int, w, pts.len() as int);
                }
                acc = acc + x;
            },
            None => {
                proof {
                    lemma_absorbs(pts, medoids@, assignment@, m as int, c as int, p as int + 1, pts.len() as int);
                }
                return None;
            },
        }
        p += 1;
    }
    Some(acc)
}

proof fn lemma_absorbs(
    pts: Seq<Seq<i32>>,
    meds: Seq<usize>,
    assign: Seq<usize>,
    m: int,
    c: int,
    k: int,
    n: int,
)
    requires
        swap_cost_upto(pts, meds, assign, m, c, k) is None,
        k <= n,
    ensures
        swap_cost_upto(pts, meds, assign, m, c, n) is None,
    decreases n - k,
{
    if k < n {
        lemma_absorbs(pts, meds, assign, m, c, k + 1, n);
    }
}

/// Number of points that are no medoid.
fn free_count(in_set: &Vec<bool>) -> (r: usize)
    ensures
        r as int == count_free(in_set@, in_set@.len() as int),
{
    let mut r: usize = 0;
    let mut i: usize = 0;
    while i < in_set.len()
        invariant
            i <= in_set@.len(),
            r as int == count_free(in_set@, i as int),
            r <= i,
        decreases in_set@.len() - i,
    {
        if !in_set[i] {
            r += 1;
        }
        i += 1;
    }
    r
}

/// The point that is no medoid and has exactly `rank` such points before it.
fn nth_free(in_set: &Vec<bool>, rank: usize) -> (c: usize)
    requires
        rank < count_free(in_set@, in_set@.len() as int),
    ensures
        c < in_set@.len(),
        !in_set@[c as int],
        count_free(in_set@, c as int) == rank,
{
    let mut seen: usize = 0;
    let mut i: usize = 0;
    while i < in_set.len()
        invariant
            i <= in_set@.len(),
            seen as int == count_free(in_set@, i as int),
            seen <= rank,
            rank < count_free(in_set@, in_set@.len() as int),
        decreases in_set@.len() - i,
    {
        if !in_set[i] {
            if seen == rank {
                return i;
            }
            seen += 1;
        }
        i += 1;
    }
    proof {
        assert(false);
    }
    0
}

proof fn lemma_swap_members(meds: Seq<usize>, m: int, c: usize)
    requires
        meds.no_duplicates(),
        0 <= m < meds.len(),
        !meds.contains(c),
    ensures
        meds.update(m, c).no_duplicates(),
        forall|i: usize| #[trigger]
            meds.update(m, c).contains(i) <==> (i == c || (meds.contains(i) && i != meds[m])),
{
    let nm = meds.update(m, c);
    assert forall|a: int, b: int| 0 <= a < nm.len() && 0 <= b < nm.len() && a != b implies nm[a] != nm[b] by {
        if a == m {
            assert(meds[b] == nm[b]);
        } else if b == m {
            assert(meds[a] == nm[a]);
        } else {
            assert(meds[a] != meds[b]);
        }
    }
    assert forall|i: usize| #[trigger]
        nm.contains(i) <==> (i == c || (meds.contains(i) && i != meds[m])) by {
        if nm.contains(i) {
            let k = choose|k: int| 0 <= k < nm.len() && nm[k] == i;
            if k != m {
                assert(meds[k] == i);
                assert(meds[k] != meds[m]);
            }
        }
        if i == c {
            assert(nm[m] == c);
        } else if meds.contains(i) && i != meds[m] {
            let k = choose|k: int| 0 <= k < meds.len() && meds[k] == i;
            assert(k != m);
            assert(nm[k] == i);
        }
    }
}

/// The working state of one restart: the medoid set, the set of point
/// indices it uses, every point's label and the total dissimilarity.
pub struct SearchState {
    pub medoids: Vec<usize>,
    pub in_set: Vec<bool>,
    pub assignment: Vec<usize>,
    pub cost: u128,
}

impl SearchState {
    /// The parts of the state agree with one another and with the points.
    pub open spec fn wf(&self, pts: Seq<Seq<i32>>) -> bool {
        &&& valid_medoids(pts.len() as int, self.medoids@)
        &&& self.in_set@.len() == pts.len()
        &&& forall|i: int| 0 <= i < pts.len() ==> (#[trigger] self.in_set@[i] <==> self.medoids@.contains(i as usize))
        &&& labels_of(pts, self.medoids@, self.assignment@)
        &&& self.cost as int == total_cost(pts, self.medoids@)
    }

    /// The state of a search that starts from `medoids`.
    pub fn new(points: &[Point], medoids: Vec<usize>) -> (st: SearchState)
        requires
            well_sized(coords_of(points@)),
            valid_medoids(points@.len() as int, medoids@),
        ensures
            st.wf(coords_of(points@)),
            st.medoids@ == medoids@,
    {
        let ghost pts = coords_of(points@);
        let mut in_set: Vec<bool> = Vec::with_capacity(points.len());
        let mut i: usize = 0;
        while i < points.len()
            invariant
                i <= points@.len(),
                in_set@.len() == i,
                forall|q: int| 0 <= q < i ==> !#[trigger] in_set@[q],
            decreases points@.len() - i,
        {
            in_set.push(false);
            i += 1;
        }
        let mut j: usize = 0;
        while j < medoids.len()
            invariant
                valid_medoids(points@.len() as int, medoids@),
                j <= medoids@.len(),
                in_set@.len() == points@.len(),
                forall|q: int| 0 <= q < points@.len() ==> (#[trigger] in_set@[q] <==> exists|k: int|
                    0 <= k < j && #[trigger] medoids@[k] as int == q),
            decreases medoids@.len() - j,
        {
            let ghost before = in_set@;
            in_set.set(medoids[j], true);
            proof {
                assert forall|q: int| 0 <= q < points@.len() implies (#[trigger] in_set@[q] <==> exists|k: int|
                    0 <= k < j + 1 && #[trigger] medoids@[k] as int == q) by {
                    if q == medoids@[j as int] as int {
                        assert(medoids@[j as int] as int == q);
                    } else {
                        assert(in_set@[q] == before[q]);
                        if exists|k: int| 0 <= k < j + 1 && #[trigger] medoids@[k] as int == q {
                            let k = choose|k: int| 0 <= k < j + 1 && #[trigger] medoids@[k] as int == q;
                            assert(k < j);
                        }
                    }
                }
            }
            j += 1;
        }
        assert forall|q: int| 0 <= q < points@.len() implies (#[trigger] in_set@[q] <==> medoids@.contains(q as usize)) by {
            if medoids@.contains(q as usize) {
                let k = choose|k: int| 0 <= k < medoids@.len() && #[trigger] medoids@[k] == q as usize;
                assert(medoids@[k] as int == q);
            }
        }
        let assignment = assign_all(points, &medoids);
        let cost = total_dissimilarity(points, &medoids);
        SearchState { medoids, in_set, assignment, cost }
    }

    /// Tries the swap that puts point `c`, no medoid, in medoid slot `m`.
    /// It is taken when the swap cost delta is negative and the swap strictly
    /// lowers the total dissimilarity; the labels are then rebuilt. Otherwise
    /// the state is left as it was.
    pub fn try_swap(&mut self, points: &[Point], m: usize, c: usize) -> (accepted: bool)
        requires
            well_sized(coords_of(points@)),
            old(self).wf(coords_of(points@)),
            m < old(self).medoids@.len(),
            c < points@.len(),
            !old(self).in_set@[c as int],
        ensures
            final(self).wf(coords_of(points@)),
            accepted == (formula_accepts(coords_of(points@), old(self).medoids@, old(self).assignment@, m as int, c as int)
                && total_cost(coords_of(points@), old(self).medoids@.update(m as int, c)) < old(self).cost),
            accepted ==> final(self).medoids@ == old(self).medoids@.update(m as int, c),
            accepted ==> final(self).cost < old(self).cost,
            !accepted ==> final(self).medoids@ == old(self).medoids@ && final(self).in_set@ == old(self).in_set@
                && final(self).assignment@ == old(self).assignment@ && final(self).cost == old(self).cost,
    {
        let ghost pts = coords_of(points@);
        let ghost meds0 = self.medoids@;
        let delta = swap_cost(points, &self.medoids, &self.assignment, m, c);
        let formula = match delta {
            Some(x) => x < 0,
            None => true,
        };
        if !formula {
            return false;
        }
        proof {
            assert(!self.in_set@[c as int]);
            lemma_swap_members(meds0, m as int, c);
        }
        let ghost set0 = self.in_set@;
        let n = points.len();
        assert(pts.len() == n);
        let old_med = self.medoids[m];
        self.medoids.set(m, c);
        let new_total = total_dissimilarity(points, &self.medoids);
        if new_total < self.cost {
            self.in_set.set(old_med, false);
            self.in_set.set(c, true);
            proof {
                assert forall|i: int| 0 <= i < pts.len() implies (#[trigger] self.in_set@[i]
                    <==> self.medoids@.contains(i as usize)) by {
                    let u = i as usize;
                    assert(u as int == i);
                    assert(meds0.update(m as int, c).contains(u) <==> (u == c || (meds0.contains(u) && u
                        != meds0[m as int])));
                    assert(self.medoids@ == meds0.update(m as int, c));
                    assert(old_med == meds0[m as int]);
                    assert(set0[i] <==> meds0.contains(i as usize));
                    if i != c as int && i != old_med as int {
                        assert(self.in_set@[i] == set0[i]);
                    } else if i == c as int {
                        assert(self.in_set@[i]);
                    } else {
                        assert(!self.in_set@[i]);
                        assert(i as usize != c);
                    }
                }
            }
            self.assignment = assign_all(points, &self.medoids);
            self.cost = new_total;
            true
        } else {
            self.medoids.set(m, old_med);
            assert(self.medoids@ =~= meds0);
            false
        }
    }
}

/// Every point's label under the medoid set `meds`.
pub open spec fn label_seq(pts: Seq<Seq<i32>>, meds: Seq<usize>) -> Seq<usize> {
    Seq::new(pts.len(), |p: int| label(pts, meds, p) as usize)
}

/// Putting point `c`, no medoid, in slot `m` of `meds` is a swap that
/// `try_swap` turns down.
pub open spec fn swap_turned_down(pts: Seq<Seq<i32>>, meds: Seq<usize>, m: int, c: usize) -> bool {
    &&& 0 <= m < meds.len()
    &&& c < pts.len()
    &&& !meds.contains(c)
    &&& !(formula_accepts(pts, meds, label_seq(pts, meds), m, c as int) && total_cost(pts, meds.update(m, c))
        < total_cost(pts, meds))
}

/// Some swap of `meds` was tried and turned down.
pub open spec fn tried_and_kept(pts: Seq<Seq<i32>>, meds: Seq<usize>) -> bool {
    exists|m: int, c: usize| #[trigger] swap_turned_down(pts, meds, m, c)
}

/// How a search from `initial` with the budget `max_neighbor` may end: with
/// a medoid set of the same size that is no worse; unchanged when no swap
/// may be tried; and, when a swap may be tried and some point is no medoid,
/// on a set for which a swap was tried and turned down.
pub open spec fn search_outcome(pts: Seq<Seq<i32>>, initial: Seq<usize>, max_neighbor: int, r: Seq<usize>) -> bool {
    &&& valid_medoids(pts.len() as int, r)
    &&& r.len() == initial.len()
    &&& total_cost(pts, r) <= total_cost(pts, initial)
    &&& max_neighbor == 0 ==> r == initial
    &&& max_neighbor > 0 && r.len() < pts.len() ==> tried_and_kept(pts, r)
}

proof fn lemma_no_free_point(s: Seq<bool>, k: int)
    requires
        0 <= k <= s.len(),
        count_free(s, k) == 0,
    ensures
        forall|i: int| 0 <= i < k ==> #[trigger] s[i],
    decreases k,
{
    if k > 0 {
        lemma_count_free_nonneg(s, k - 1);
        lemma_no_free_point(s, k - 1);
    }
}

proof fn lemma_count_free_nonneg(s: Seq<bool>, k: int)
    ensures
        count_free(s, k) >= 0,
    decreases k,
{
    if k > 0 {
        lemma_count_free_nonneg(s, k - 1);
    }
}

/// A medoid set without duplicates that holds every point has at least as many entries as points.
proof fn lemma_holds_all_points(n: int, meds: Seq<usize>)
    requires
        0 <= n <= usize::MAX,
        meds.no_duplicates(),
        forall|i: int| 0 <= i < n ==> #[trigger] meds.contains(i as usize),
    ensures
        meds.len() >= n,
{
    let s = meds.map_values(|x: usize| x as int);
    assert forall|a: int, b: int| 0 <= a < s.len() && 0 <= b < s.len() && a != b implies s[a] != s[b] by {
        assert(meds[a] != meds[b]);
    }
    s.unique_seq_to_set();
    vstd::set_lib::lemma_int_range(0, n);
    assert forall|x: int| vstd::set_lib::set_int_range(0, n).contains(x) implies s.to_set().contains(x) by {
        assert(meds.contains(x as usize));
        let j = choose|j: int| 0 <= j < meds.len() && meds[j] == x as usize;
        assert(s[j] == x);
    }
    vstd::set_lib::lemma_len_subset(vstd::set_lib::set_int_range(0, n), s.to_set());
}

/// One restart's local search from the medoid set `initial`: random swaps
/// are tried until `max_neighbor` of them in a row were turned down, or no
/// point is left that is not a medoid. Whatever the draws, the result is a
/// medoid set of the same size that is no worse than `initial`, and when the
/// search could try a swap it ends on a set for which one was turned down.
pub fn local_search(points: &[Point], initial: Vec<usize>, max_neighbor: usize) -> (r: Vec<usize>)
    requires
        well_sized(coords_of(points@)),
        valid_medoids(points@.len() as int, initial@),
    ensures
        search_outcome(coords_of(points@), initial@, max_neighbor as int, r@),
{
    let ghost pts = coords_of(points@);
    let ghost start = initial@;
    let mut st = SearchState::new(points, initial);
    let mut trial: usize = 0;
    let mut exhausted = false;
    let n = points.len();
    while trial < max_neighbor && !exhausted
        invariant
            pts == coords_of(points@),
            n == pts.len(),
            well_sized(pts),
            st.wf(pts),
            st.medoids@.len() == start.len(),
            st.cost <= total_cost(pts, start),
            max_neighbor == 0 ==> st.medoids@ == start,
            trial <= max_neighbor,
            trial > 0 ==> tried_and_kept(pts, st.medoids@),
            exhausted ==> st.medoids@.len() >= pts.len(),
        decreases st.cost, max_neighbor - trial, if exhausted { 0int } else { 1int },
    {
        let free = free_count(&st.in_set);
        if free == 0 {
            proof {
                lemma_no_free_point(st.in_set@, pts.len() as int);
                assert forall|i: int| 0 <= i < pts.len() implies #[trigger] st.medoids@.contains(i as usize) by {
                    assert(st.in_set@[i]);
                }
                lemma_holds_all_points(pts.len() as int, st.medoids@);
            }
            exhausted = true;
        } else {
            let m = random_below(st.medoids.len());
            let rank = random_below(free);
            let c = nth_free(&st.in_set, rank);
            let ghost before = st.medoids@;
            if st.try_swap(points, m, c) {
                trial = 0;
            } else {
                proof {
                    assert(st.assignment@ =~= label_seq(pts, st.medoids@));
                    assert(!st.medoids@.contains(c));
                    assert(swap_turned_down(pts, st.medoids@, m as int, c));
                }
                trial += 1;
            }
        }
    }
    st.medoids
}

/// The first restart, among the first `k`, whose medoid set has the lowest total dissimilarity.
pub open spec fn best_index(pts: Seq<Seq<i32>>, sets: Seq<Seq<usize>>, k: int) -> int
    decreases k,
{
    if k <= 1 {
        0
    } else {
        let j = best_index(pts, sets, k - 1);
        if total_cost(pts, sets[k - 1]) < total_cost(pts, sets[j]) {
            k - 1
        } else {
            j
        }
    }
}

proof fn lemma_best_index(pts: Seq<Seq<i32>>, sets: Seq<Seq<usize>>, k: int)
    requires
        k >= 1,
    ensures
        0 <= best_index(pts, sets, k) < k,
        forall|i: int| 0 <= i < k ==> total_cost(pts, sets[best_index(pts, sets, k)]) <= total_cost(pts, #[trigger] sets[i]),
    decreases k,
{
    if k > 1 {
        lemma_best_index(pts, sets, k - 1);
    }
}

proof fn lemma_best_index_prefix(pts: Seq<Seq<i32>>, s1: Seq<Seq<usize>>, s2: Seq<Seq<usize>>, k: int)
    requires
        k <= s1.len(),
        k <= s2.len(),
        forall|i: int| 0 <= i < k ==> s1[i] == s2[i],
    ensures
        best_index(pts, s1, k) == best_index(pts, s2, k),
    decreases k,
{
    if k > 1 {
        lemma_best_index_prefix(pts, s1, s2, k - 1);
        lemma_best_index(pts, s1, k - 1);
    }
}

/// The collection is small enough for the search: with `n` points, every
/// point's dimension `d` has `(n + 1) * (n + 1) * d <= 2^62`.
pub open spec fn search_fits(pts: Seq<Seq<i32>>) -> bool {
    forall|i: int| 0 <= i < pts.len() ==> (pts.len() + 1) * (pts.len() + 1) * #[trigger] pts[i].len() <= 0x4000_0000_0000_0000
}

/// All points have the dimension of the first.
pub open spec fn same_dimension(pts: Seq<Seq<i32>>) -> bool {
    forall|i: int| 0 <= i < pts.len() ==> #[trigger] pts[i].len() == pts[0].len()
}

/// The outcome of a medoid search: every point's label, the representative
/// points, and the medoid set they were copied from.
pub struct Clarans {
    pub assignments: Vec<usize>,
    pub centroids: Vec<Point>,
    pub medoids: Vec<usize>,
    pub iterations: usize,
    pub converged: bool,
    /// The initial medoid set of each restart.
    pub starts: Ghost<Seq<Seq<usize>>>,
    /// The medoid set each restart's search ended with.
    pub optima: Ghost<Seq<Seq<usize>>>,
}

impl Clarans {
    /// Randomized medoid search: `num_local` restarts, each from `no_clusters`
    /// distinct random points, each searching until `max_neighbor` swaps in a
    /// row were turned down. The restart whose final medoid set has the lowest
    /// total dissimilarity (the first on ties) gives the result.
    pub fn run(points: &[Point], no_clusters: usize, num_local: usize, max_neighbor: usize) -> (r: Result<
        Clarans,
        ClusterError,
    >)
        requires
            search_fits(coords_of(points@)),
        ensures
            points@.len() == 0 ==> r == Err::<Clarans, ClusterError>(ClusterError::EmptyInput),
            points@.len() > 0 && !same_dimension(coords_of(points@)) ==> r == Err::<Clarans, ClusterError>(
                ClusterError::DimensionMismatch,
            ),
            points@.len() > 0 && same_dimension(coords_of(points@)) && (no_clusters == 0 || no_clusters
                > points@.len()) ==> r == Err::<Clarans, ClusterError>(ClusterError::InvalidClusterCount),
            points@.len() > 0 && same_dimension(coords_of(points@)) && 1 <= no_clusters <= points@.len()
                && num_local == 0 ==> r == Err::<Clarans, ClusterError>(ClusterError::NoRestarts),
            points@.len() > 0 && same_dimension(coords_of(points@)) && 1 <= no_clusters <= points@.len()
                && num_local > 0 ==> r is Ok,
            r is Ok ==> r->Ok_0.is_result_of(coords_of(points@), no_clusters as int, num_local as int, max_neighbor as int),
            r is Ok ==> forall|j: int| 0 <= j < no_clusters ==> #[trigger] r->Ok_0.centroids@[j]@ == points@[r->Ok_0.medoids@[j] as int]@,
    {
        let n = points.len();
        if n == 0 {
            return Err(ClusterError::EmptyInput);
        }
        let ghost pts = coords_of(points@);
        let d = points[0].dimension();
        let mut i: usize = 1;
        while i < n
            invariant
                pts == coords_of(points@),
                n == points@.len(),
                1 <= i <= n,
                d == pts[0].len(),
                forall|q: int| 0 <= q < i ==> #[trigger] pts[q].len() == pts[0].len(),
            decreases n - i,
        {
            if points[i].dimension() != d {
                assert(pts[i as int].len() != pts[0].len());
                return Err(ClusterError::DimensionMismatch);
            }
            i += 1;
        }
        if no_clusters == 0 || no_clusters > n {
            return Err(ClusterError::InvalidClusterCount);
        }
        if num_local == 0 {
            return Err(ClusterError::NoRestarts);
        }
        assert(well_sized(pts));
        let mut best: Vec<usize> = Vec::new();
        let mut best_cost: u128 = 0;
        let ghost mut starts: Seq<Seq<usize>> = Seq::empty();
        let ghost mut optima: Seq<Seq<usize>> = Seq::empty();
        let mut run: usize = 0;
        while run < num_local
            invariant
                pts == coords_of(points@),
                well_sized(pts),
                n == points@.len(),
                1 <= no_clusters <= n,
                run <= num_local,
                starts.len() == run,
                optima.len() == run,
                forall|q: int| 0 <= q < run ==> valid_medoids(n as int, #[trigger] starts[q]) && starts[q].len() == no_clusters,
                forall|q: int| 0 <= q < run ==> valid_medoids(n as int, #[trigger] optima[q]) && optima[q].len() == no_clusters,
                forall|q: int| 0 <= q < run ==> total_cost(pts, #[trigger] optima[q]) <= total_cost(pts, starts[q]),
                forall|q: int| 0 <= q < run ==> search_outcome(pts, starts[q], max_neighbor as int, #[trigger] optima[q]),
                max_neighbor == 0 ==> optima == starts,
                run > 0 ==> best@ == optima[best_index(pts, optima, run as int)],
                run > 0 ==> best_cost as int == total_cost(pts, best@),
                run > 0 ==> valid_medoids(n as int, best@) && best@.len() == no_clusters,
            decreases num_local - run,
        {
            let init = random_distinct(n, no_clusters);
            proof {
                starts = starts.push(init@);
            }
            let found = local_search(points, init, max_neighbor);
            let c = total_dissimilarity(points, &found);
            let ghost before = optima;
            proof {
                optima = optima.push(found@);
                lemma_best_index(pts, optima, run as int + 1);
                lemma_best_index_prefix(pts, before, optima, run as int);
                if run > 0 {
                    lemma_best_index(pts, before, run as int);
                    assert(optima[best_index(pts, before, run as int)] == before[best_index(pts, before, run as int)]);
                }
            }
            if run == 0 || c < best_cost {
                best = found;
                best_cost = c;
            }
            run += 1;
        }
        let assignments = assign_all(points, &best);
        let mut centroids: Vec<Point> = Vec::with_capacity(best.len());
        let mut j: usize = 0;
        while j < best.len()
            invariant
                valid_medoids(n as int, best@),
                n == points@.len(),
                j <= best@.len(),
                centroids@.len() == j,
                forall|q: int| 0 <= q < j ==> #[trigger] centroids@[q]@ == points@[best@[q] as int]@,
            decreases best@.len() - j,
        {
            centroids.push(points[best[j]].duplicate());
            j += 1;
        }
        proof {
            lemma_best_index(pts, optima, num_local as int);
            assert forall|q: int| 0 <= q < num_local implies total_cost(pts, best@) <= total_cost(
                pts,
                #[trigger] starts[q],
            ) by {
                assert(total_cost(pts, optima[q]) <= total_cost(pts, starts[q]));
            }
        }
        Ok(Clarans {
            assignments,
            centroids,
            medoids: best,
            iterations: 0,
            converged: true,
            starts: Ghost(starts),
            optima: Ghost(optima),
        })
    }

    /// What a search on the points `pts` with these parameters returns:
    /// every point labelled with the position of its nearest medoid; a
    /// medoid set of `k` distinct points, the best (first on ties) of the
    /// restarts' final sets and no worse than any restart's initial set;
    /// each restart's final set is an outcome of its local search (with no
    /// swap allowed, the initial set itself).
    pub open spec fn is_result_of(&self, pts: Seq<Seq<i32>>, k: int, num_local: int, max_neighbor: int) -> bool {
        &&& valid_medoids(pts.len() as int, self.medoids@)
        &&& self.medoids@.len() == k
        &&& labels_of(pts, self.medoids@, self.assignments@)
        &&& forall|p: int| 0 <= p < pts.len() ==> #[trigger] self.assignments@[p] < k
        &&& self.centroids@.len() == k
        &&& self.iterations == 0
        &&& self.converged
        &&& self.starts@.len() == num_local
        &&& self.optima@.len() == num_local
        &&& forall|q: int| 0 <= q < num_local ==> valid_medoids(pts.len() as int, #[trigger] self.starts@[q])
            && self.starts@[q].len() == k
        &&& forall|q: int| 0 <= q < num_local ==> total_cost(pts, #[trigger] self.optima@[q]) <= total_cost(pts, self.starts@[q])
        &&& forall|q: int| 0 <= q < num_local ==> search_outcome(pts, self.starts@[q], max_neighbor, #[trigger] self.optima@[q])
        &&& self.medoids@ == self.optima@[best_index(pts, self.optima@, num_local)]
        &&& forall|q: int| 0 <= q < num_local ==> total_cost(pts, self.medoids@) <= total_cost(pts, #[trigger] self.starts@[q])
        &&& max_neighbor == 0 ==> self.optima@ == self.starts@
    }

    /// The label of each point: the position of its medoid among the medoids.
    pub fn assignments(&self) -> (r: &[usize])
        ensures
            r@ == self.assignments@,
    {
        self.assignments.as_slice()
    }

    /// The representative points, copies of the medoids, in medoid order.
    pub fn centroids(&self) -> (r: &[Point])
        ensures
            r@ == self.centroids@,
    {
        self.centroids.as_slice()
    }

    /// The index, in the input, of each medoid.
    pub fn medoids(&self) -> (r: &[usize])
        ensures
            r@ == self.medoids@,
    {
        self.medoids.as_slice()
    }

    pub fn iterations(&self) -> (r: usize)
        ensures
            r == self.iterations,
    {
        self.iterations
    }

    pub fn converged(&self) -> (r: bool)
        ensures
            r == self.converged,
    {
        self.converged
    }
}

} // verus!
