use crate::distance::{squared_distance, squared_euclidean};
use crate::error::ClusterError;
use crate::kmeans::{
    all_of_dimension, is_input_point, kmeans_fits, label_all, labels, member_count, plus_plus_centroids,
    random_centroids, same_dimension,
};
use crate::point::{coords_of, Point};
use vstd::prelude::*;
use vstd::relations::{sorted_by, total_ordering};

verus! {

/// Over the first `n` points labelled `c`: their coordinate `t`, in order.
pub open spec fn member_values(pts: Seq<Seq<i32>>, lab: Seq<usize>, c: int, t: int, n: int) -> Seq<i32>
    decreases n,
{
    if n <= 0 {
        Seq::empty()
    } else if lab[n - 1] as int == c {
        member_values(pts, lab, c, t, n - 1).push(pts[n - 1][t])
    } else {
        member_values(pts, lab, c, t, n - 1)
    }
}

pub open spec fn int_leq() -> spec_fn(i32, i32) -> bool {
    |a: i32, b: i32| a <= b
}

/// The median of a non-empty sequence: its middle value once sorted, or the
/// mean of the two middle values (rounded down) when the length is even.
pub open spec fn median(vals: Seq<i32>) -> i32 {
    let s = vals.sort_by(int_leq());
    let m = s.len() / 2;
    if s.len() % 2 == 1 {
        s[m as int]
    } else {
        ((s[m - 1] + s[m as int] + 0x1_0000_0000) / 2 - 0x8000_0000) as i32
    }
}

proof fn lemma_int_leq_total()
    ensures
        total_ordering(int_leq()),
{
}

proof fn lemma_member_values_len(pts: Seq<Seq<i32>>, lab: Seq<usize>, c: int, t: int, n: int)
    ensures
        member_values(pts, lab, c, t, n).len() == member_count(lab, c, n),
    decreases n,
{
    if n > 0 {
        lemma_member_values_len(pts, lab, c, t, n - 1);
    }
}

/// `v` in ascending order.
fn sorted_copy(v: &Vec<i32>) -> (r: Vec<i32>)
    ensures
        r@ == v@.sort_by(int_leq()),
{
    let mut out: Vec<i32> = Vec::with_capacity(v.len());
    let mut i: usize = 0;
    proof {
        broadcast use vstd::seq_lib::group_to_multiset_ensures;

        assert(v@.subrange(0, 0) =~= out@);
    }
    while i < v.len()
        invariant
            i <= v@.len(),
            sorted_by(out@, int_leq()),
            out@.to_multiset() == v@.subrange(0, i as int).to_multiset(),
        decreases v@.len() - i,
    {
        let x = v[i];
        let mut pos: usize = 0;
        while pos < out.len() && out[pos] <= x
            invariant
                pos <= out@.len(),
                forall|q: int| 0 <= q < pos ==> #[trigger] out@[q] <= x,
            decreases out@.len() - pos,
        {
            pos += 1;
        }
        let ghost before = out@;
        out.insert(pos, x);
        proof {
            assert forall|a: int, b: int| 0 <= a < b < out@.len() implies #[trigger] int_leq()(out@[a], out@[b]) by {
                if b < pos {
                    assert(int_leq()(before[a], before[b]));
                } else if b == pos {
                    assert(before[a] <= x);
                } else if a < pos {
                    assert(int_leq()(before[a], before[b - 1]));
                } else if a == pos {
                    assert(before[pos as int] > x);
                    if b - 1 > pos {
                        assert(int_leq()(before[pos as int], before[b - 1]));
                    }
                } else {
                    assert(int_leq()(before[a - 1], before[b - 1]));
                }
            }
            assert(out@ =~= before.subrange(0, pos as int) + seq![x] + before.subrange(pos as int, before.len() as int));
            assert(before =~= before.subrange(0, pos as int) + before.subrange(pos as int, before.len() as int));
            vstd::seq_lib::lemma_multiset_commutative(before.subrange(0, pos as int), seq![x]);
            vstd::seq_lib::lemma_multiset_commutative(
                before.subrange(0, pos as int) + seq![x],
                before.subrange(pos as int, before.len() as int),
            );
            vstd::seq_lib::lemma_multiset_commutative(before.subrange(0, pos as int), before.subrange(pos as int, before.len() as int));
            assert(v@.subrange(0, i + 1) =~= v@.subrange(0, i as int) + seq![x]);
            vstd::seq_lib::lemma_multiset_commutative(v@.subrange(0, i as int), seq![x]);
            assert(out@.to_multiset() =~= v@.subrange(0, i + 1).to_multiset());
        }
        i += 1;
    }
    proof {
        assert(v@.subrange(0, v@.len() as int) =~= v@);
        lemma_int_leq_total();
        v@.lemma_sort_by_ensures(int_leq());
        vstd::seq_lib::lemma_sorted_unique(out@, v@.sort_by(int_leq()), int_leq());
    }
    out
}

/// The new centroid of cluster `c`: the coordinate-wise median of its
/// members; a cluster with no member keeps its centroid `old`.
pub open spec fn median_of(pts: Seq<Seq<i32>>, lab: Seq<usize>, c: int, old: Seq<i32>) -> Seq<i32> {
    let n = pts.len() as int;
    if member_count(lab, c, n) == 0 {
        old
    } else {
        Seq::new(old.len(), |t: int| median(member_values(pts, lab, c, t, n)))
    }
}

/// One update: every centroid moves to the median of the points labelled with it.
pub open spec fn median_update(pts: Seq<Seq<i32>>, cents: Seq<Seq<i32>>, lab: Seq<usize>) -> Seq<Seq<i32>> {
    Seq::new(cents.len(), |c: int| median_of(pts, lab, c, cents[c]))
}

/// The largest squared distance between a centroid among the first `k` and its update.
pub open spec fn max_change(old: Seq<Seq<i32>>, new: Seq<Seq<i32>>, k: int) -> int
    decreases k,
{
    if k <= 0 {
        0
    } else {
        let m = max_change(old, new, k - 1);
        let d = squared_euclidean(old[k - 1], new[k - 1]);
        if d > m {
            d
        } else {
            m
        }
    }
}

/// The median iteration from round `i` on: each round moves every centroid
/// to the median of its points, and stops once no centroid moved by more
/// than the squared tolerance `tol2`, or after `max` rounds. The final
/// centroids and the number of rounds that did not stop it.
pub open spec fn median_rounds(pts: Seq<Seq<i32>>, cents: Seq<Seq<i32>>, i: int, max: int, tol2: int) -> (
    Seq<Seq<i32>>,
    int,
)
    decreases max - i,
{
    if i >= max {
        (cents, i)
    } else {
        let next = median_update(pts, cents, labels(pts, cents));
        if max_change(cents, next, cents.len() as int) <= tol2 {
            (next, i)
        } else {
            median_rounds(pts, next, i + 1, max, tol2)
        }
    }
}

fn median_exec(vals: &Vec<i32>) -> (r: i32)
    requires
        vals@.len() >= 1,
    ensures
        r == median(vals@),
{
    let s = sorted_copy(vals);
    proof {
        lemma_int_leq_total();
        vals@.lemma_sort_by_ensures(int_leq());
        vals@.to_multiset_ensures();
        s@.to_multiset_ensures();
    }
    let m = s.len() / 2;
    if s.len() % 2 == 1 {
        s[m]
    } else {
        let a = s[m - 1] as i64 + 0x8000_0000;
        let b = s[m] as i64 + 0x8000_0000;
        ((a + b) / 2 - 0x8000_0000) as i32
    }
}

/// The coordinate-wise median of the points labelled `c`; `old` when there is none.
fn median_of_members(points: &[Point], lab: &Vec<usize>, c: usize, old: &Point) -> (r: Point)
    requires
        all_of_dimension(coords_of(points@), old@.len() as int),
        lab@.len() == points@.len(),
    ensures
        r@ == median_of(coords_of(points@), lab@, c as int, old@),
{
    let ghost pts = coords_of(points@);
    let n = points.len();
    let d = old.dimension();
    let mut v: Vec<i32> = Vec::with_capacity(d);
    let mut t: usize = 0;
    let mut any = false;
    let mut p: usize = 0;
    while p < n
        invariant
            n == points@.len(),
            lab@.len() == n,
            p <= n,
            any == (member_count(lab@, c as int, p as int) > 0),
            member_count(lab@, c as int, p as int) >= 0,
        decreases n - p,
    {
        if lab[p] == c {
            any = true;
        }
        p += 1;
    }
    if !any {
        return old.duplicate();
    }
    while t < d
        invariant
            pts == coords_of(points@),
            all_of_dimension(pts, d as int),
            d == old@.len(),
            n == points@.len(),
            lab@.len() == n,
            member_count(lab@, c as int, n as int) > 0,
            t <= d,
            v@.len() == t,
            forall|u: int| 0 <= u < t ==> #[trigger] v@[u] == median(member_values(pts, lab@, c as int, u, n as int)),
        decreases d - t,
    {
        let mut vals: Vec<i32> = Vec::new();
        let mut q: usize = 0;
        while q < n
            invariant
                pts == coords_of(points@),
                all_of_dimension(pts, d as int),
                n == points@.len(),
                lab@.len() == n,
                t < d,
                q <= n,
                vals@ == member_values(pts, lab@, c as int, t as int, q as int),
            decreases n - q,
        {
            if lab[q] == c {
                assert(pts[q as int] == points@[q as int]@);
                assert(pts[q as int].len() == d);
                vals.push(points[q].coordinates()[t]);
            }
            q += 1;
        }
        proof {
            lemma_member_values_len(pts, lab@, c as int, t as int, n as int);
        }
        v.push(median_exec(&vals));
        t += 1;
    }
    let r = Point::new(v);
    assert(r@ =~= median_of(pts, lab@, c as int, old@));
    r
}

/// Every centroid moved to the median of its members.
fn median_update_all(points: &[Point], cents: &Vec<Point>, lab: &Vec<usize>) -> (r: Vec<Point>)
    requires
        points@.len() >= 1,
        all_of_dimension(coords_of(points@), coords_of(points@)[0].len() as int),
        all_of_dimension(coords_of(cents@), coords_of(points@)[0].len() as int),
        lab@.len() == points@.len(),
    ensures
        coords_of(r@) == median_update(coords_of(points@), coords_of(cents@), lab@),
        all_of_dimension(coords_of(r@), coords_of(points@)[0].len() as int),
        r@.len() == cents@.len(),
{
    let ghost pts = coords_of(points@);
    let ghost cv = coords_of(cents@);
    let mut r: Vec<Point> = Vec::with_capacity(cents.len());
    let mut c: usize = 0;
    while c < cents.len()
        invariant
            pts == coords_of(points@),
            cv == coords_of(cents@),
            points@.len() >= 1,
            all_of_dimension(pts, pts[0].len() as int),
            all_of_dimension(cv, pts[0].len() as int),
            lab@.len() == points@.len(),
            c <= cents@.len(),
            r@.len() == c,
            forall|q: int| 0 <= q < c ==> #[trigger] r@[q]@ == median_of(pts, lab@, q, cv[q]),
            forall|q: int| 0 <= q < c ==> (#[trigger] r@[q])@.len() == pts[0].len(),
        decreases cents@.len() - c,
    {
        assert(cv[c as int] == cents@[c as int]@);
        assert(cv[c as int].len() == pts[0].len());
        let m = median_of_members(points, lab, c, &cents[c]);
        r.push(m);
        c += 1;
    }
    assert(coords_of(r@) =~= median_update(pts, cv, lab@));
    r
}

/// The largest squared distance between a centroid and its update.
fn largest_change(old: &Vec<Point>, new: &Vec<Point>, d: usize) -> (r: u128)
    requires
        old@.len() == new@.len(),
        all_of_dimension(coords_of(old@), d as int),
        all_of_dimension(coords_of(new@), d as int),
    ensures
        r as int == max_change(coords_of(old@), coords_of(new@), old@.len() as int),
{
    let ghost ov = coords_of(old@);
    let ghost nv = coords_of(new@);
    let mut m: u128 = 0;
    let mut c: usize = 0;
    while c < old.len()
        invariant
            ov == coords_of(old@),
            nv == coords_of(new@),
            old@.len() == new@.len(),
            all_of_dimension(ov, d as int),
            all_of_dimension(nv, d as int),
            c <= old@.len(),
            m as int == max_change(ov, nv, c as int),
        decreases old@.len() - c,
    {
        assert(ov[c as int] == old@[c as int]@);
        assert(nv[c as int] == new@[c as int]@);
        assert(ov[c as int].len() == d && nv[c as int].len() == d);
        let x = squared_distance(old[c].coordinates(), new[c].coordinates());
        if x > m {
            m = x;
        }
        c += 1;
    }
    m
}

/// How k-medians picks its first centroids.
#[derive(Debug, Clone, Copy, PartialEq, Eq, Structural)]
pub enum KMediansInitialization {
    /// Points drawn at random.
    Random,
    /// k-means++ seeding.
    KMeansPlusPlus,
    /// The centroids set with `set_precomputed`.
    Precomputed,
}

/// k-medians clustering: its settings, and after `run` its outcome.
pub struct KMedians {
    pub assignments: Vec<usize>,
    pub centroids: Vec<Point>,
    pub iterations: usize,
    pub converged: bool,
    pub init_method: KMediansInitialization,
    pub precomputed: Option<Vec<Point>>,
    pub max_iterations: usize,
    /// The run stops once no centroid moves farther than this (Euclidean distance).
    pub tolerance: u32,
    /// The centroids the last run started from.
    pub initial: Ghost<Seq<Seq<i32>>>,
}

fn copy_points(v: &Vec<Point>) -> (r: Vec<Point>)
    ensures
        coords_of(r@) == coords_of(v@),
{
    let mut r: Vec<Point> = Vec::with_capacity(v.len());
    let mut j: usize = 0;
    while j < v.len()
        invariant
            j <= v@.len(),
            r@.len() == j,
            forall|q: int| 0 <= q < j ==> #[trigger] r@[q]@ == v@[q]@,
        decreases v@.len() - j,
    {
        r.push(v[j].duplicate());
        j += 1;
    }
    assert(coords_of(r@) =~= coords_of(v@));
    r
}

impl Default for KMedians {
    fn default() -> (r: KMedians)
        ensures
            r.assignments@.len() == 0,
            r.centroids@.len() == 0,
            r.iterations == 0,
            !r.converged,
            r.init_method == KMediansInitialization::Random,
            r.precomputed is None,
            r.max_iterations == 15,
            r.tolerance == 0,
    {
        KMedians {
            assignments: Vec::new(),
            centroids: Vec::new(),
            iterations: 0,
            converged: false,
            init_method: KMediansInitialization::Random,
            precomputed: None,
            max_iterations: 15,
            tolerance: 0,
            initial: Ghost(Seq::empty()),
        }
    }
}

impl KMedians {
    /// Settings with no outcome yet: random seeding, at most 15 rounds, tolerance zero.
    pub fn new() -> (r: KMedians)
        ensures
            r.assignments@.len() == 0,
            r.centroids@.len() == 0,
            r.iterations == 0,
            !r.converged,
            r.init_method == KMediansInitialization::Random,
            r.precomputed is None,
            r.max_iterations == 15,
            r.tolerance == 0,
    {
        KMedians::default()
    }

    /// The squared tolerance, against which a round's largest squared move is held.
    pub open spec fn stop_bound(&self) -> int {
        self.tolerance * self.tolerance
    }

    /// The settings of `self` and `other` agree.
    pub open spec fn same_settings(&self, other: &KMedians) -> bool {
        &&& self.init_method == other.init_method
        &&& self.max_iterations == other.max_iterations
        &&& self.tolerance == other.tolerance
        &&& match (self.precomputed, other.precomputed) {
            (Some(a), Some(b)) => coords_of(a@) == coords_of(b@),
            (None, None) => true,
            _ => false,
        }
    }

    /// The outcome of the median iteration on `pts` from `init`.
    pub open spec fn is_median_result_of(&self, pts: Seq<Seq<i32>>, init: Seq<Seq<i32>>) -> bool {
        &&& self.initial@ == init
        &&& (coords_of(self.centroids@), self.iterations as int) == median_rounds(
            pts,
            init,
            0,
            self.max_iterations as int,
            self.stop_bound(),
        )
        &&& self.assignments@ == labels(pts, coords_of(self.centroids@))
        &&& self.converged == (self.iterations < self.max_iterations)
    }

    /// The first centroids, as `init_method` says; `None` when precomputed
    /// centroids are asked for and none were set.
    pub fn initial_centroids(&self, points: &[Point], no_clusters: usize) -> (r: Option<Vec<Point>>)
        requires
            points@.len() >= 1,
            no_clusters >= 1,
            all_of_dimension(coords_of(points@), coords_of(points@)[0].len() as int),
            kmeans_fits(coords_of(points@)),
        ensures
            match self.init_method {
                KMediansInitialization::Precomputed => match (self.precomputed, r) {
                    (Some(p), Some(c)) => coords_of(c@) == coords_of(p@),
                    (None, None) => true,
                    _ => false,
                },
                _ => r is Some && r->Some_0@.len() == no_clusters && forall|j: int| 0 <= j < no_clusters ==>
                    is_input_point(coords_of(points@), #[trigger] r->Some_0@[j]@),
            },
    {
        match self.init_method {
            KMediansInitialization::Random => Some(random_centroids(points, no_clusters)),
            KMediansInitialization::KMeansPlusPlus => Some(plus_plus_centroids(points, no_clusters)),
            KMediansInitialization::Precomputed => match &self.precomputed {
                Some(p) => Some(copy_points(p)),
                None => None,
            },
        }
    }

    /// k-medians on `points` with `no_clusters` centroids: seeding, then
    /// rounds that label every point with its nearest centroid and move each
    /// centroid to the coordinate-wise median of its points (a centroid with
    /// no point stays), until no centroid moves farther than the tolerance or
    /// `max_iterations` rounds went by. The labels are those under the final centroids.
    pub fn run(self, points: &[Point], no_clusters: usize) -> (r: Result<KMedians, ClusterError>)
        requires
            kmeans_fits(coords_of(points@)),
        ensures
            points@.len() == 0 ==> r == Err::<KMedians, ClusterError>(ClusterError::EmptyInput),
            points@.len() > 0 && !all_of_dimension(coords_of(points@), coords_of(points@)[0].len() as int) ==> r
                == Err::<KMedians, ClusterError>(ClusterError::DimensionMismatch),
            points@.len() > 0 && all_of_dimension(coords_of(points@), coords_of(points@)[0].len() as int) && no_clusters
                == 0 ==> r == Err::<KMedians, ClusterError>(ClusterError::InvalidClusterCount),
            points@.len() > 0 && all_of_dimension(coords_of(points@), coords_of(points@)[0].len() as int) && no_clusters
                > 0 ==> match self.init_method {
                KMediansInitialization::Precomputed => match self.precomputed {
                    None => r == Err::<KMedians, ClusterError>(ClusterError::MissingCentroids),
                    Some(c) => if c@.len() != no_clusters {
                        r == Err::<KMedians, ClusterError>(ClusterError::InvalidClusterCount)
                    } else if !all_of_dimension(coords_of(c@), coords_of(points@)[0].len() as int) {
                        r == Err::<KMedians, ClusterError>(ClusterError::DimensionMismatch)
                    } else {
                        r is Ok && r->Ok_0.is_median_result_of(coords_of(points@), coords_of(c@))
                    },
                },
                _ => r is Ok,
            },
            r is Ok ==> r->Ok_0.is_median_result_of(coords_of(points@), r->Ok_0.initial@),
            r is Ok ==> r->Ok_0.same_settings(&self),
            r is Ok ==> r->Ok_0.initial@.len() == no_clusters,
            r is Ok && self.init_method != KMediansInitialization::Precomputed ==> forall|j: int| 0 <= j < no_clusters ==>
                is_input_point(coords_of(points@), #[trigger] r->Ok_0.initial@[j]),
    {
        let n = points.len();
        if n == 0 {
            return Err(ClusterError::EmptyInput);
        }
        let ghost pts = coords_of(points@);
        let d = points[0].dimension();
        if !same_dimension(points, d) {
            return Err(ClusterError::DimensionMismatch);
        }
        if no_clusters == 0 {
            return Err(ClusterError::InvalidClusterCount);
        }
        let initial = match self.initial_centroids(points, no_clusters) {
            None => {
                return Err(ClusterError::MissingCentroids);
            },
            Some(c) => c,
        };
        if initial.len() != no_clusters {
            return Err(ClusterError::InvalidClusterCount);
        }
        if !same_dimension(initial.as_slice(), d) {
            return Err(ClusterError::DimensionMismatch);
        }
        let ghost init = coords_of(initial@);
        let tol = self.tolerance as u128;
        assert(tol * tol <= 0xffff_ffff * 0xffff_ffff) by (nonlinear_arith)
            requires
                tol <= 0xffff_ffff,
        ;
        let tol2 = tol * tol;
        let max = self.max_iterations;
        let mut cents = initial;
        let mut i: usize = 0;
        let mut stop = false;
        while i < max && !stop
            invariant
                pts == coords_of(points@),
                points@.len() >= 1,
                d == pts[0].len(),
                all_of_dimension(pts, d as int),
                all_of_dimension(coords_of(cents@), d as int),
                cents@.len() == no_clusters,
                no_clusters >= 1,
                i <= max,
                tol2 as int == self.stop_bound(),
                !stop ==> median_rounds(pts, coords_of(cents@), i as int, max as int, tol2 as int) == median_rounds(
                    pts,
                    init,
                    0,
                    max as int,
                    tol2 as int,
                ),
                stop ==> median_rounds(pts, init, 0, max as int, tol2 as int) == (coords_of(cents@), i as int),
            decreases max - i, if stop { 0int } else { 1int },
        {
            let lab = label_all(points, &cents);
            let next = median_update_all(points, &cents, &lab);
            let change = largest_change(&cents, &next, d);
            cents = next;
            if change <= tol2 {
                stop = true;
            } else {
                i += 1;
            }
        }
        let assignments = label_all(points, &cents);
        Ok(KMedians {
            assignments,
            centroids: cents,
            iterations: i,
            converged: i < max,
            init_method: self.init_method,
            precomputed: self.precomputed,
            max_iterations: max,
            tolerance: self.tolerance,
            initial: Ghost(init),
        })
    }

    pub fn assignments(&self) -> (r: &[usize])
        ensures
            r@ == self.assignments@,
    {
        self.assignments.as_slice()
    }

    pub fn centroids(&self) -> (r: &[Point])
        ensures
            r@ == self.centroids@,
    {
        self.centroids.as_slice()
    }

    pub fn converged(&self) -> (r: bool)
        ensures
            r == self.converged,
    {
        self.converged
    }

    pub fn iterations(&self) -> (r: usize)
        ensures
            r == self.iterations,
    {
        self.iterations
    }

    pub fn max_iterations(&self) -> (r: usize)
        ensures
            r == self.max_iterations,
    {
        self.max_iterations
    }

    pub fn set_tolerance(self, tolerance: u32) -> (r: KMedians)
        ensures
            r == (KMedians { tolerance, ..self }),
    {
        KMedians { tolerance, ..self }
    }

    pub fn set_max_iterations(self, max_iterations: usize) -> (r: KMedians)
        ensures
            r == (KMedians { max_iterations, ..self }),
    {
        KMedians { max_iterations, ..self }
    }

    pub fn set_init_method(self, init_method: KMediansInitialization) -> (r: KMedians)
        ensures
            r == (KMedians { init_method, ..self }),
    {
        KMedians { init_method, ..self }
    }

    /// Sets the centroids that `Precomputed` seeding starts from (copies of them).
    pub fn set_precomputed(self, precomputed: &Option<Vec<Point>>) -> (r: KMedians)
        ensures
            r.assignments == self.assignments,
            r.centroids == self.centroids,
            r.iterations == self.iterations,
            r.converged == self.converged,
            r.init_method == self.init_method,
            r.max_iterations == self.max_iterations,
            r.tolerance == self.tolerance,
            match (r.precomputed, *precomputed) {
                (Some(a), Some(b)) => coords_of(a@) == coords_of(b@),
                (None, None) => true,
                _ => false,
            },
    {
        let copied = match precomputed {
            Some(p) => Some(copy_points(p)),
            None => None,
        };
        KMedians { precomputed: copied, ..self }
    }
}

} // verus!
