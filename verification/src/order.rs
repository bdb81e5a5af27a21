//! Order statistics: sorting, percentiles and extremes.

use vstd::arithmetic::div_mod::*;
use vstd::prelude::*;

verus! {

/// How many samples are below `x`.
pub open spec fn count_below(s: Seq<i64>, x: int) -> int
    decreases s.len(),
{
    if s.len() == 0 {
        0
    } else {
        count_below(s.drop_last(), x) + if s.last() < x {
            1int
        } else {
            0
        }
    }
}

/// How many samples are at most `x`.
pub open spec fn count_at_most(s: Seq<i64>, x: int) -> int {
    count_below(s, x + 1)
}

/// Whether `x` is a sample that stands at position `k` once the samples are sorted.
pub open spec fn has_rank(s: Seq<i64>, x: i64, k: int) -> bool {
    &&& s.contains(x)
    &&& count_below(s, x as int) <= k < count_at_most(s, x as int)
}

/// Whether the samples are in ascending order.
pub open spec fn is_sorted(s: Seq<i64>) -> bool {
    forall|i: int, j: int| 0 <= i <= j < s.len() ==> s[i] <= s[j]
}

/// The position of a percentile among `n` sorted samples, for a share in thousandths:
/// the integer nearest to `permille * (n - 1) / 1000`, the smaller one of two that are
/// equally near.
pub open spec fn rank(permille: int, n: int) -> int {
    (2 * permille * (n - 1) + 999) / 2000
}

/// A rank is nearest to the exact position, and a tie goes to the smaller one.
pub proof fn rank_is_nearest(permille: int, n: int)
    requires
        0 <= permille <= 1000,
        n > 0,
    ensures
        2000 * rank(permille, n) - 1000 < 2 * permille * (n - 1) <= 2000 * rank(permille, n) + 1000,
        0 <= rank(permille, n) < n,
{
    let e = permille * (n - 1);
    assert(0 <= e <= 1000 * (n - 1)) by (nonlinear_arith)
        requires
            0 <= permille <= 1000,
            n > 0,
            e == permille * (n - 1),
    ;
    assert(2 * permille * (n - 1) == 2 * e) by (nonlinear_arith)
        requires
            e == permille * (n - 1),
    ;
}

/// A larger share has no smaller rank.
pub proof fn rank_grows(p: int, q: int, n: int)
    requires
        0 <= p <= q,
        n > 0,
    ensures
        rank(p, n) <= rank(q, n),
{
    assert(2 * p * (n - 1) <= 2 * q * (n - 1)) by (nonlinear_arith)
        requires
            p <= q,
            n > 0,
    ;
}

/// No more samples are below `x` than below a larger bound, nor more than there are.
pub proof fn count_below_grows(s: Seq<i64>, x: int, y: int)
    requires
        x <= y,
    ensures
        0 <= count_below(s, x) <= count_below(s, y) <= s.len(),
    decreases s.len(),
{
    if s.len() > 0 {
        count_below_grows(s.drop_last(), x, y);
    }
}

/// A sample between the bounds counts for the upper one alone.
proof fn lemma_count_gap(s: Seq<i64>, i: int, x: int, y: int)
    requires
        0 <= i < s.len(),
        x <= s[i] < y,
    ensures
        count_below(s, x) < count_below(s, y),
    decreases s.len(),
{
    let rest = s.drop_last();
    if i == s.len() - 1 {
        count_below_grows(rest, x, y);
    } else {
        assert(rest[i] == s[i]);
        lemma_count_gap(rest, i, x, y);
    }
}

/// Where more samples are at most `x` than below it, `x` is a sample.
pub proof fn value_at_rank_is_sample(s: Seq<i64>, x: i64)
    requires
        count_below(s, x as int) < count_at_most(s, x as int),
    ensures
        s.contains(x),
    decreases s.len(),
{
    let rest = s.drop_last();
    if s.len() > 0 {
        if s.last() == x {
            assert(s[s.len() - 1] == x);
        } else {
            value_at_rank_is_sample(rest, x);
            let i = choose|i: int| 0 <= i < rest.len() && rest[i] == x;
            assert(s[i] == x);
        }
    }
}

proof fn lemma_count_insert(s: Seq<i64>, at: int, v: i64, x: int)
    requires
        0 <= at <= s.len(),
    ensures
        count_below(s.insert(at, v), x) == count_below(s, x) + if v < x {
            1int
        } else {
            0
        },
    decreases s.len(),
{
    let t = s.insert(at, v);
    if at == s.len() {
        assert(t.drop_last() =~= s);
        assert(t.last() == v);
    } else {
        assert(t.drop_last() =~= s.drop_last().insert(at, v));
        assert(t.last() == s.last());
        lemma_count_insert(s.drop_last(), at, v, x);
    }
}

/// In sorted samples, the first `k` alone can be below a sample at position `k`, and
/// those up to `k` are at most that sample.
proof fn lemma_sorted_counts(s: Seq<i64>, k: int)
    requires
        is_sorted(s),
        0 <= k < s.len(),
    ensures
        count_below(s, s[k] as int) <= k < count_at_most(s, s[k] as int),
{
    lemma_counts_of_prefix(s, k, s.len() as int, s[k] as int);
    lemma_counts_of_prefix(s, k, k + 1, s[k] as int);
    lemma_prefix_counts(s, k + 1, s[k] + 1);
    assert(s.take(s.len() as int) =~= s);
}

proof fn lemma_prefix_counts(s: Seq<i64>, n: int, x: int)
    requires
        0 <= n <= s.len(),
    ensures
        count_below(s.take(n), x) <= count_below(s, x),
    decreases s.len(),
{
    if n == s.len() {
        assert(s.take(n) =~= s);
    } else {
        lemma_prefix_counts(s.drop_last(), n, x);
        assert(s.drop_last().take(n) =~= s.take(n));
    }
}

proof fn lemma_counts_of_prefix(s: Seq<i64>, k: int, n: int, x: int)
    requires
        is_sorted(s),
        0 <= k < s.len(),
        0 <= n <= s.len(),
        x == s[k],
    ensures
        count_below(s.take(n), x) <= k,
        n <= k + 1 ==> count_below(s.take(n), x + 1) == n,
    decreases n,
{
    if n > 0 {
        lemma_counts_of_prefix(s, k, n - 1, x);
        assert(s.take(n).drop_last() =~= s.take(n - 1));
        assert(s.take(n).last() == s[n - 1]);
        if n - 1 >= k {
            assert(s[k] <= s[n - 1]);
        } else {
            assert(s[n - 1] <= s[k]);
            count_below_grows(s.take(n), x, x);
        }
    }
}

/// The sample at a share of the sorted samples, the share in thousandths; 0 where
/// there are no samples.
pub open spec fn percentile_of(s: Seq<i64>, permille: int) -> i64 {
    if s.len() == 0 {
        0
    } else {
        choose|x: i64| has_rank(s, x, rank(permille, s.len() as int))
    }
}

/// The least of the samples.
pub open spec fn min_of(s: Seq<i64>) -> i64 {
    choose|x: i64| is_minimum(s, x)
}

/// The greatest of the samples.
pub open spec fn max_of(s: Seq<i64>) -> i64 {
    choose|x: i64| is_maximum(s, x)
}

/// The samples in ascending order.
pub fn sorted(data: &[i64]) -> (r: Vec<i64>)
    ensures
        r.len() == data.len(),
        is_sorted(r@),
        forall|x: int| count_below(r@, x) == count_below(data@, x),
{
    let mut r: Vec<i64> = Vec::new();
    let mut i: usize = 0;
    while i < data.len()
        invariant
            i <= data.len(),
            r.len() == i,
            is_sorted(r@),
            forall|x: int| count_below(r@, x) == count_below(data@.take(i as int), x),
        decreases data.len() - i,
    {
        let v: i64 = data[i];
        let mut at: usize = r.len();
        while at > 0 && r[at - 1] > v
            invariant
                at <= r.len(),
                forall|j: int| at <= j < r.len() ==> r[j] > v,
            decreases at,
        {
            at = at - 1;
        }
        let ghost before = r@;
        r.insert(at, v);
        proof {
            assert(data@.take(i + 1).drop_last() =~= data@.take(i as int));
            assert forall|x: int| count_below(r@, x) == count_below(data@.take(i + 1), x) by {
                lemma_count_insert(before, at as int, v, x);
            }
            assert forall|a: int, b: int| 0 <= a <= b < r.len() implies r[a] <= r[b] by {
                if a < at && b > at {
                    assert(before[a] <= before[b - 1]);
                } else if a < at && b == at {
                    assert(before[a] <= before[at - 1]);
                } else if a < at {
                    assert(before[a] <= before[b]);
                } else if a > at {
                    assert(before[a - 1] <= before[b - 1]);
                }
            }
        }
        i = i + 1;
    }
    assert(data@.take(data.len() as int) =~= data@);
    r
}

/// The sample at a share of the sorted samples, the share in thousandths; 0 where
/// there are no samples.
pub fn percentile(data: &[i64], permille: u64) -> (r: i64)
    requires
        permille <= 1000,
    ensures
        data.len() == 0 ==> r == 0,
        data.len() > 0 ==> has_rank(data@, r, rank(permille as int, data.len() as int)),
        r == percentile_of(data@, permille as int),
{
    if data.len() == 0 {
        return 0;
    }
    let s = sorted(data);
    proof {
        rank_is_nearest(permille as int, data.len() as int);
        assert(2 * permille * (data.len() - 1) <= 2000 * (data.len() - 1)) by (nonlinear_arith)
            requires
                permille <= 1000,
                data.len() >= 1,
        ;
        assert(2 * permille * (data.len() - 1) >= 0) by (nonlinear_arith)
            requires
                permille >= 0,
                data.len() >= 1,
        ;
    }
    let at: u128 = (2 * (permille as u128) * (data.len() as u128 - 1) + 999) / 2000;
    let r: i64 = s[at as usize];
    proof {
        lemma_sorted_counts(s@, at as int);
        value_at_rank_is_sample(data@, r);
        assert(has_rank(data@, r, at as int));
        ranks_are_ordered(
            data@,
            r,
            percentile_of(data@, permille as int),
            at as int,
            at as int,
        );
    }
    r
}

/// Only one sample has a given rank, and a larger rank has no smaller sample.
pub proof fn ranks_are_ordered(s: Seq<i64>, x: i64, y: i64, j: int, k: int)
    requires
        j <= k,
        has_rank(s, x, j),
        has_rank(s, y, k),
    ensures
        x <= y,
        j == k ==> x == y,
{
    if y < x {
        count_below_grows(s, y + 1, x as int);
    }
    if x < y && j == k {
        count_below_grows(s, x + 1, y as int);
    }
}

/// The lowest percentile is the least sample.
pub proof fn lowest_percentile_is_minimum(s: Seq<i64>, x: i64)
    requires
        has_rank(s, x, rank(0, s.len() as int)),
    ensures
        forall|i: int| 0 <= i < s.len() ==> x <= #[trigger] s[i],
{
    assert(2 * 0int * (s.len() - 1) == 0) by (nonlinear_arith);
    count_below_grows(s, x as int, x as int);
    assert forall|i: int| 0 <= i < s.len() implies x <= #[trigger] s[i] by {
        if s[i] < x {
            count_below_grows(s, s[i] as int, s[i] as int);
            lemma_count_gap(s, i, s[i] as int, x as int);
        }
    }
}

/// The highest percentile is the greatest sample.
pub proof fn highest_percentile_is_maximum(s: Seq<i64>, x: i64)
    requires
        has_rank(s, x, rank(1000, s.len() as int)),
    ensures
        forall|i: int| 0 <= i < s.len() ==> #[trigger] s[i] <= x,
{
    let n = s.len() as int;
    assert(2 * 1000int * (n - 1) == 2000 * (n - 1)) by (nonlinear_arith);
    assert(rank(1000, n) == n - 1);
    assert forall|i: int| 0 <= i < s.len() implies #[trigger] s[i] <= x by {
        if s[i] > x {
            lemma_count_gap(s, i, x + 1, s[i] + 1);
            count_below_grows(s, s[i] + 1, s[i] + 1);
        }
    }
}

/// Whether `x` is the least of the samples.
pub open spec fn is_minimum(s: Seq<i64>, x: i64) -> bool {
    s.contains(x) && forall|i: int| 0 <= i < s.len() ==> x <= #[trigger] s[i]
}

/// Whether `x` is the greatest of the samples.
pub open spec fn is_maximum(s: Seq<i64>, x: i64) -> bool {
    s.contains(x) && forall|i: int| 0 <= i < s.len() ==> #[trigger] s[i] <= x
}

/// The least sample.
pub fn minimum(s: &[i64]) -> (r: i64)
    requires
        s.len() > 0,
    ensures
        is_minimum(s@, r),
        r == min_of(s@),
{
    let mut r: i64 = s[0];
    let mut i: usize = 1;
    while i < s.len()
        invariant
            1 <= i <= s.len(),
            exists|j: int| 0 <= j < i && s@[j] == r,
            forall|j: int| 0 <= j < i ==> r <= #[trigger] s@[j],
        decreases s.len() - i,
    {
        if s[i] < r {
            r = s[i];
        }
        i = i + 1;
    }
    assert(is_minimum(s@, r));
    r
}

/// The greatest sample.
pub fn maximum(s: &[i64]) -> (r: i64)
    requires
        s.len() > 0,
    ensures
        is_maximum(s@, r),
        r == max_of(s@),
{
    let mut r: i64 = s[0];
    let mut i: usize = 1;
    while i < s.len()
        invariant
            1 <= i <= s.len(),
            exists|j: int| 0 <= j < i && s@[j] == r,
            forall|j: int| 0 <= j < i ==> #[trigger] s@[j] <= r,
        decreases s.len() - i,
    {
        if s[i] > r {
            r = s[i];
        }
        i = i + 1;
    }
    assert(is_maximum(s@, r));
    r
}

} // verus!
