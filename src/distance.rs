use crate::error::ClusterError;
use vstd::prelude::*;

verus! {

/// Squared Euclidean distance: the sum of squared coordinate differences.
pub struct SquaredEuclidean;

/// Euclidean distance, rounded down to an integer.
pub struct Euclidean;

/// Hamming distance: the number of coordinates that differ.
pub struct Hamming;

/// Chebyshev distance: the largest absolute coordinate difference.
pub struct Chebyshev;

/// Manhattan distance: the sum of absolute coordinate differences.
pub struct Manhattan;

/// The largest square of a difference of two `i32` values is below this bound.
pub open spec fn square_bound() -> int {
    0x1_0000_0000_0000_0000
}

pub open spec fn abs_diff(x: i32, y: i32) -> int {
    if x >= y {
        x - y
    } else {
        y - x
    }
}

/// Sum of squared differences over the first `n` coordinates.
pub open spec fn sum_sq(a: Seq<i32>, b: Seq<i32>, n: int) -> int
    decreases n,
{
    if n <= 0 {
        0
    } else {
        sum_sq(a, b, n - 1) + (a[n - 1] - b[n - 1]) * (a[n - 1] - b[n - 1])
    }
}

/// Sum of absolute differences over the first `n` coordinates.
pub open spec fn sum_abs(a: Seq<i32>, b: Seq<i32>, n: int) -> int
    decreases n,
{
    if n <= 0 {
        0
    } else {
        sum_abs(a, b, n - 1) + abs_diff(a[n - 1], b[n - 1])
    }
}

/// Largest absolute difference over the first `n` coordinates (zero when `n` is zero).
pub open spec fn max_abs(a: Seq<i32>, b: Seq<i32>, n: int) -> int
    decreases n,
{
    if n <= 0 {
        0
    } else if max_abs(a, b, n - 1) >= abs_diff(a[n - 1], b[n - 1]) {
        max_abs(a, b, n - 1)
    } else {
        abs_diff(a[n - 1], b[n - 1])
    }
}

/// Number of differing coordinates among the first `n`.
pub open spec fn count_diff(a: Seq<i32>, b: Seq<i32>, n: int) -> int
    decreases n,
{
    if n <= 0 {
        0
    } else {
        count_diff(a, b, n - 1) + if a[n - 1] != b[n - 1] {
            1int
        } else {
            0int
        }
    }
}

pub open spec fn squared_euclidean(a: Seq<i32>, b: Seq<i32>) -> int {
    sum_sq(a, b, a.len() as int)
}

pub open spec fn is_floor_sqrt(r: int, s: int) -> bool {
    0 <= r && r * r <= s && s < (r + 1) * (r + 1)
}

/// The integer square root (rounded down) of a non-negative `s`.
pub open spec fn floor_sqrt(s: int) -> int {
    choose|r: int| is_floor_sqrt(r, s)
}

/// A metric on equal-length coordinate vectors.
pub trait Distance {
    spec fn spec_distance(a: Seq<i32>, b: Seq<i32>) -> int;

    /// The distance between `a` and `b`; a `DimensionMismatch` when their lengths differ.
    fn distance(a: &[i32], b: &[i32]) -> (r: Result<u128, ClusterError>)
        ensures
            match r {
                Ok(d) => a@.len() == b@.len() && d as int == Self::spec_distance(a@, b@),
                Err(e) => a@.len() != b@.len() && e == ClusterError::DimensionMismatch,
            },
    ;

    /// The metric laws: a vector is at distance zero from itself, and on
    /// vectors of one length the distance is non-negative and symmetric.
    proof fn lemma_metric(a: Seq<i32>, b: Seq<i32>)
        ensures
            Self::spec_distance(a, a) == 0,
            a.len() == b.len() ==> Self::spec_distance(a, b) >= 0,
            a.len() == b.len() ==> Self::spec_distance(a, b) == Self::spec_distance(b, a),
    ;
}

proof fn lemma_sums_symmetric(a: Seq<i32>, b: Seq<i32>, n: int)
    requires
        n <= a.len(),
        n <= b.len(),
    ensures
        sum_sq(a, b, n) == sum_sq(b, a, n),
        sum_abs(a, b, n) == sum_abs(b, a, n),
        max_abs(a, b, n) == max_abs(b, a, n),
        count_diff(a, b, n) == count_diff(b, a, n),
        sum_sq(a, b, n) >= 0,
        sum_abs(a, b, n) >= 0,
        max_abs(a, b, n) >= 0,
        count_diff(a, b, n) >= 0,
    decreases n,
{
    if n > 0 {
        lemma_sums_symmetric(a, b, n - 1);
        let d: int = a[n - 1] - b[n - 1];
        assert(d * d >= 0) by (nonlinear_arith);
        assert((b[n - 1] - a[n - 1]) * (b[n - 1] - a[n - 1]) == d * d) by (nonlinear_arith)
            requires
                d == a[n - 1] - b[n - 1],
        ;
    }
}

proof fn lemma_floor_sqrt_exists(s: int)
    requires
        s >= 0,
    ensures
        is_floor_sqrt(floor_sqrt(s), s),
    decreases s,
{
    if s == 0 {
        assert(is_floor_sqrt(0, 0));
    } else {
        lemma_floor_sqrt_exists(s - 1);
        let r = floor_sqrt(s - 1);
        if (r + 1) * (r + 1) <= s {
            assert(s < (r + 2) * (r + 2)) by (nonlinear_arith)
                requires
                    s - 1 < (r + 1) * (r + 1),
                    r >= 0,
            ;
            assert(is_floor_sqrt(r + 1, s));
            lemma_floor_sqrt_is(r + 1, s);
        } else {
            assert(is_floor_sqrt(r, s));
            lemma_floor_sqrt_is(r, s);
        }
    }
}

proof fn lemma_square_bound(x: i32, y: i32)
    ensures
        0 <= (x - y) * (x - y) < square_bound(),
{
    let d: int = x - y;
    assert(-0xffff_ffff <= d <= 0xffff_ffff);
    assert(0 <= d * d <= 0xffff_ffff * 0xffff_ffff) by (nonlinear_arith)
        requires
            -0xffff_ffff <= d <= 0xffff_ffff,
    ;
}

fn abs_diff_exec(x: i32, y: i32) -> (r: u64)
    ensures
        r as int == abs_diff(x, y),
        r <= 0xffff_ffff,
{
    if x >= y {
        (x as i64 - y as i64) as u64
    } else {
        (y as i64 - x as i64) as u64
    }
}

/// Sum of squared coordinate differences; it always fits in a `u128`.
pub fn squared_distance(a: &[i32], b: &[i32]) -> (r: u128)
    requires
        a@.len() == b@.len(),
    ensures
        r as int == squared_euclidean(a@, b@),
        r as int <= a@.len() * square_bound(),
{
    let mut acc: u128 = 0;
    let mut i: usize = 0;
    while i < a.len()
        invariant
            i <= a@.len(),
            a@.len() == b@.len(),
            acc as int == sum_sq(a@, b@, i as int),
            acc as int <= i * square_bound(),
        decreases a@.len() - i,
    {
        let d = abs_diff_exec(a[i], b[i]);
        proof {
            lemma_square_bound(a@[i as int], b@[i as int]);
            assert((d as int) * (d as int) == (a@[i as int] - b@[i as int]) * (a@[i as int]
                - b@[i as int])) by (nonlinear_arith)
                requires
                    d as int == abs_diff(a@[i as int], b@[i as int]),
            ;
            assert(i + 1 <= 0xffff_ffff_ffff_ffff);
        }
        acc = acc + (d as u128) * (d as u128);
        i += 1;
    }
    acc
}

fn isqrt(s: u128) -> (r: u128)
    ensures
        is_floor_sqrt(r as int, s as int),
{
    let mut lo: u128 = 0;
    let mut hi: u128 = 0x1_0000_0000_0000_0000;
    assert(s < hi * hi);
    while hi - lo > 1
        invariant
            lo < hi <= 0x1_0000_0000_0000_0000,
            lo * lo <= s,
            (s as int) < (hi as int) * (hi as int),
        decreases hi - lo,
    {
        let mid = lo + (hi - lo) / 2;
        assert(mid < 0x1_0000_0000_0000_0000);
        assert(mid * mid <= 0xffff_ffff_ffff_ffff * 0xffff_ffff_ffff_ffff) by (nonlinear_arith)
            requires
                mid < 0x1_0000_0000_0000_0000,
        ;
        if mid * mid <= s {
            lo = mid;
        } else {
            hi = mid;
        }
    }
    assert(hi == lo + 1);
    lo
}

proof fn lemma_floor_sqrt_unique(r1: int, r2: int, s: int)
    requires
        is_floor_sqrt(r1, s),
        is_floor_sqrt(r2, s),
    ensures
        r1 == r2,
{
    if r1 < r2 {
        assert((r1 + 1) * (r1 + 1) <= r2 * r2) by (nonlinear_arith)
            requires
                0 <= r1 < r2,
        ;
    } else if r2 < r1 {
        assert((r2 + 1) * (r2 + 1) <= r1 * r1) by (nonlinear_arith)
            requires
                0 <= r2 < r1,
        ;
    }
}

proof fn lemma_floor_sqrt_is(r: int, s: int)
    requires
        is_floor_sqrt(r, s),
    ensures
        floor_sqrt(s) == r,
{
    assert(exists|x: int| is_floor_sqrt(x, s));
    lemma_floor_sqrt_unique(floor_sqrt(s), r, s);
}

fn manhattan_distance(a: &[i32], b: &[i32]) -> (r: u128)
    requires
        a@.len() == b@.len(),
    ensures
        r as int == sum_abs(a@, b@, a@.len() as int),
{
    let mut acc: u128 = 0;
    let mut i: usize = 0;
    while i < a.len()
        invariant
            i <= a@.len(),
            a@.len() == b@.len(),
            acc as int == sum_abs(a@, b@, i as int),
            acc as int <= i * 0x1_0000_0000,
        decreases a@.len() - i,
    {
        let d = abs_diff_exec(a[i], b[i]);
        assert(i + 1 <= 0xffff_ffff_ffff_ffff);
        acc = acc + d as u128;
        i += 1;
    }
    acc
}

fn chebyshev_distance(a: &[i32], b: &[i32]) -> (r: u128)
    requires
        a@.len() == b@.len(),
    ensures
        r as int == max_abs(a@, b@, a@.len() as int),
{
    let mut acc: u64 = 0;
    let mut i: usize = 0;
    while i < a.len()
        invariant
            i <= a@.len(),
            a@.len() == b@.len(),
            acc as int == max_abs(a@, b@, i as int),
        decreases a@.len() - i,
    {
        let d = abs_diff_exec(a[i], b[i]);
        if d > acc {
            acc = d;
        }
        i += 1;
    }
    acc as u128
}

fn hamming_distance(a: &[i32], b: &[i32]) -> (r: u128)
    requires
        a@.len() == b@.len(),
    ensures
        r as int == count_diff(a@, b@, a@.len() as int),
{
    let mut acc: u128 = 0;
    let mut i: usize = 0;
    while i < a.len()
        invariant
            i <= a@.len(),
            a@.len() == b@.len(),
            acc as int == count_diff(a@, b@, i as int),
            acc <= i,
        decreases a@.len() - i,
    {
        if a[i] != b[i] {
            acc = acc + 1;
        }
        i += 1;
    }
    acc
}

impl Distance for SquaredEuclidean {
    open spec fn spec_distance(a: Seq<i32>, b: Seq<i32>) -> int {
        squared_euclidean(a, b)
    }

    fn distance(a: &[i32], b: &[i32]) -> (r: Result<u128, ClusterError>) {
        if a.len() != b.len() {
            return Err(ClusterError::DimensionMismatch);
        }
        Ok(squared_distance(a, b))
    }

    proof fn lemma_metric(a: Seq<i32>, b: Seq<i32>) {
        lemma_distance_to_itself(a);
        if a.len() == b.len() {
            lemma_sums_symmetric(a, b, a.len() as int);
        }
    }
}

impl Distance for Euclidean {
    open spec fn spec_distance(a: Seq<i32>, b: Seq<i32>) -> int {
        floor_sqrt(squared_euclidean(a, b))
    }

    fn distance(a: &[i32], b: &[i32]) -> (r: Result<u128, ClusterError>) {
        if a.len() != b.len() {
            return Err(ClusterError::DimensionMismatch);
        }
        let s = squared_distance(a, b);
        let r = isqrt(s);
        proof {
            lemma_floor_sqrt_is(r as int, s as int);
        }
        Ok(r)
    }

    proof fn lemma_metric(a: Seq<i32>, b: Seq<i32>) {
        lemma_distance_to_itself(a);
        if a.len() == b.len() {
            lemma_sums_symmetric(a, b, a.len() as int);
            let s = squared_euclidean(a, b);
            lemma_floor_sqrt_exists(s);
        }
    }
}

impl Distance for Manhattan {
    open spec fn spec_distance(a: Seq<i32>, b: Seq<i32>) -> int {
        sum_abs(a, b, a.len() as int)
    }

    fn distance(a: &[i32], b: &[i32]) -> (r: Result<u128, ClusterError>) {
        if a.len() != b.len() {
            return Err(ClusterError::DimensionMismatch);
        }
        Ok(manhattan_distance(a, b))
    }

    proof fn lemma_metric(a: Seq<i32>, b: Seq<i32>) {
        lemma_distance_to_itself(a);
        if a.len() == b.len() {
            lemma_sums_symmetric(a, b, a.len() as int);
        }
    }
}

impl Distance for Chebyshev {
    open spec fn spec_distance(a: Seq<i32>, b: Seq<i32>) -> int {
        max_abs(a, b, a.len() as int)
    }

    fn distance(a: &[i32], b: &[i32]) -> (r: Result<u128, ClusterError>) {
        if a.len() != b.len() {
            return Err(ClusterError::DimensionMismatch);
        }
        Ok(chebyshev_distance(a, b))
    }

    proof fn lemma_metric(a: Seq<i32>, b: Seq<i32>) {
        lemma_distance_to_itself(a);
        if a.len() == b.len() {
            lemma_sums_symmetric(a, b, a.len() as int);
        }
    }
}

impl Distance for Hamming {
    open spec fn spec_distance(a: Seq<i32>, b: Seq<i32>) -> int {
        count_diff(a, b, a.len() as int)
    }

    fn distance(a: &[i32], b: &[i32]) -> (r: Result<u128, ClusterError>) {
        if a.len() != b.len() {
            return Err(ClusterError::DimensionMismatch);
        }
        Ok(hamming_distance(a, b))
    }

    proof fn lemma_metric(a: Seq<i32>, b: Seq<i32>) {
        lemma_distance_to_itself(a);
        if a.len() == b.len() {
            lemma_sums_symmetric(a, b, a.len() as int);
        }
    }
}

proof fn lemma_self_prefix(a: Seq<i32>, n: int)
    requires
        n <= a.len(),
    ensures
        sum_sq(a, a, n) == 0,
        sum_abs(a, a, n) == 0,
        max_abs(a, a, n) == 0,
        count_diff(a, a, n) == 0,
    decreases n,
{
    if n > 0 {
        lemma_self_prefix(a, n - 1);
    }
}

/// Every metric puts a vector at distance zero from itself.
pub proof fn lemma_distance_to_itself(a: Seq<i32>)
    ensures
        SquaredEuclidean::spec_distance(a, a) == 0,
        Euclidean::spec_distance(a, a) == 0,
        Manhattan::spec_distance(a, a) == 0,
        Chebyshev::spec_distance(a, a) == 0,
        Hamming::spec_distance(a, a) == 0,
{
    lemma_self_prefix(a, a.len() as int);
    assert(is_floor_sqrt(0, 0));
    lemma_floor_sqrt_is(0, 0);
}

} // verus!
