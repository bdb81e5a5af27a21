//! Sums, means and extremes of series of counts.

use std::collections::VecDeque;
use vstd::prelude::*;

verus! {

/// The sum of a series.
pub open spec fn total(s: Seq<u64>) -> int
    decreases s.len(),
{
    if s.len() == 0 {
        0
    } else {
        total(s.drop_last()) + s.last()
    }
}

/// The mean of a series, rounded down; 0 where it is empty.
pub open spec fn average(s: Seq<u64>) -> int {
    if s.len() == 0 {
        0
    } else {
        total(s) / s.len() as int
    }
}

/// The largest number of a series, or 0 where it is empty.
pub open spec fn peak(s: Seq<u64>) -> int
    decreases s.len(),
{
    if s.len() == 0 {
        0
    } else if s.last() > peak(s.drop_last()) {
        s.last() as int
    } else {
        peak(s.drop_last())
    }
}

/// The smallest number of a series and of `cap`.
pub open spec fn lowest(s: Seq<u64>, cap: int) -> int
    decreases s.len(),
{
    if s.len() == 0 {
        cap
    } else if s.last() < lowest(s.drop_last(), cap) {
        s.last() as int
    } else {
        lowest(s.drop_last(), cap)
    }
}

/// The sum of a series from position `from` on.
pub fn sum_from(s: &Vec<u64>, from: usize) -> (r: u128)
    requires
        from <= s@.len(),
    ensures
        r == total(s@.skip(from as int)),
        r <= (s@.len() - from) * u64::MAX,
{
    let ghost part = s@.skip(from as int);
    let mut sum: u128 = 0;
    let mut i: usize = from;
    while i < s.len()
        invariant
            from <= i <= s.len(),
            part == s@.skip(from as int),
            sum == total(part.take(i - from)),
            sum <= (i - from) * u64::MAX,
        decreases s.len() - i,
    {
        assert(part.take(i - from + 1).drop_last() =~= part.take(i - from));
        assert(part.take(i - from + 1).last() == s@[i as int]);
        sum = sum + s[i] as u128;
        i = i + 1;
    }
    assert(part.take(part.len() as int) =~= part);
    sum
}

/// The mean of a series, rounded down; 0 where it is empty.
pub fn average_of(s: &Vec<u64>) -> (r: u64)
    ensures
        r == average(s@),
{
    if s.len() == 0 {
        return 0;
    }
    assert(s@.skip(0) =~= s@);
    let sum: u128 = sum_from(s, 0);
    let mean: u128 = sum / s.len() as u128;
    assert(mean <= u64::MAX) by (nonlinear_arith)
        requires
            mean == sum as int / s@.len() as int,
            sum <= s@.len() * u64::MAX,
            s@.len() > 0,
    ;
    mean as u64
}

/// The largest number of a series, or 0 where it is empty.
pub fn peak_of(s: &Vec<u64>) -> (r: u64)
    ensures
        r == peak(s@),
{
    let mut best: u64 = 0;
    let mut i: usize = 0;
    while i < s.len()
        invariant
            i <= s.len(),
            best == peak(s@.take(i as int)),
        decreases s.len() - i,
    {
        assert(s@.take(i + 1).drop_last() =~= s@.take(i as int));
        if s[i] > best {
            best = s[i];
        }
        i = i + 1;
    }
    assert(s@.take(s.len() as int) =~= s@);
    best
}

/// The smallest number of a series and of `cap`.
pub fn lowest_of(s: &Vec<u64>, cap: u64) -> (r: u64)
    ensures
        r == lowest(s@, cap as int),
{
    let mut best: u64 = cap;
    let mut i: usize = 0;
    while i < s.len()
        invariant
            i <= s.len(),
            best == lowest(s@.take(i as int), cap as int),
        decreases s.len() - i,
    {
        assert(s@.take(i + 1).drop_last() =~= s@.take(i as int));
        if s[i] < best {
            best = s[i];
        }
        i = i + 1;
    }
    assert(s@.take(s.len() as int) =~= s@);
    best
}

/// The peak of a series that is not empty is one of its numbers, and none is above it.
pub proof fn peak_is_the_largest(s: Seq<u64>)
    ensures
        forall|i: int| 0 <= i < s.len() ==> #[trigger] s[i] <= peak(s),
        s.len() > 0 ==> exists|i: int| 0 <= i < s.len() && #[trigger] s[i] == peak(s),
    decreases s.len(),
{
    if s.len() > 0 {
        let rest = s.drop_last();
        peak_is_the_largest(rest);
        assert forall|i: int| 0 <= i < s.len() implies #[trigger] s[i] <= peak(s) by {
            if i < rest.len() {
                assert(rest[i] == s[i]);
            }
        }
        if s.last() > peak(rest) {
            assert(s[s.len() - 1] == peak(s));
        } else if rest.len() > 0 {
            let i = choose|i: int| 0 <= i < rest.len() && #[trigger] rest[i] == peak(rest);
            assert(s[i] == peak(s));
        } else {
            assert(s[s.len() - 1] == peak(s));
        }
    }
}

/// The mean of a series is not above its peak.
pub proof fn average_is_at_most_peak(s: Seq<u64>)
    ensures
        0 <= average(s) <= peak(s),
{
    total_is_at_most_peaks(s);
    let n = s.len() as int;
    let t = total(s);
    let p = peak(s);
    if n > 0 {
        assert(0 <= t / n <= p) by (nonlinear_arith)
            requires
                0 <= t <= n * p,
                n > 0,
        ;
    }
}

proof fn total_is_at_most_peaks(s: Seq<u64>)
    ensures
        0 <= total(s) <= s.len() * peak(s),
        0 <= peak(s),
    decreases s.len(),
{
    if s.len() > 0 {
        let rest = s.drop_last();
        total_is_at_most_peaks(rest);
        let n = rest.len() as int;
        let p = peak(s);
        let q = peak(rest);
        assert(n * q <= n * p) by (nonlinear_arith)
            requires
                n >= 0,
                q <= p,
        ;
        assert((n + 1) * p == n * p + p) by (nonlinear_arith);
    } else {
        assert(0 * peak(s) == 0);
    }
}

/// The items from position `from` up to `to`.
pub fn vec_of<T: Copy>(items: &VecDeque<T>, from: usize, to: usize) -> (r: Vec<T>)
    requires
        from <= to <= items@.len(),
    ensures
        r@ == items@.subrange(from as int, to as int),
{
    let mut r: Vec<T> = Vec::new();
    let mut i: usize = from;
    while i < to
        invariant
            from <= i <= to <= items@.len(),
            r@ == items@.subrange(from as int, i as int),
        decreases to - i,
    {
        r.push(items[i]);
        i = i + 1;
    }
    r
}

/// The sum of two series, one after the other, is the sum of their sums, and that of a
/// single number is the number.
pub proof fn totals_add_up(a: Seq<u64>, b: Seq<u64>, x: u64)
    ensures
        total(a + b) == total(a) + total(b),
        total(seq![x]) == x,
    decreases b.len(),
{
    assert(seq![x].drop_last() =~= seq![]);
    reveal_with_fuel(total, 2);
    if b.len() == 0 {
        assert(a + b =~= a);
    } else {
        assert((a + b).drop_last() =~= a + b.drop_last());
        assert((a + b).last() == b.last());
        totals_add_up(a, b.drop_last(), x);
    }
}

/// The mean of a series is at most the exact one, and less than one below it.
pub proof fn average_is_within_one(s: Seq<u64>)
    requires
        s.len() > 0,
    ensures
        average(s) * s.len() <= total(s) < (average(s) + 1) * s.len(),
{
    crate::arith::quotient_is_near(total(s), s.len() as int);
}

/// The lowest number is below none of the series, nor above the cap; it is the cap or one
/// of the series.
pub proof fn lowest_is_the_smallest(s: Seq<u64>, cap: int)
    ensures
        lowest(s, cap) <= cap,
        forall|i: int| 0 <= i < s.len() ==> lowest(s, cap) <= #[trigger] s[i],
        lowest(s, cap) == cap || exists|i: int|
            0 <= i < s.len() && #[trigger] s[i] == lowest(s, cap),
    decreases s.len(),
{
    if s.len() > 0 {
        let rest = s.drop_last();
        lowest_is_the_smallest(rest, cap);
        assert forall|i: int| 0 <= i < s.len() implies lowest(s, cap) <= #[trigger] s[i] by {
            if i < rest.len() {
                assert(rest[i] == s[i]);
            }
        }
        if s.last() < lowest(rest, cap) {
            assert(s[s.len() - 1] == lowest(s, cap));
        } else if lowest(rest, cap) != cap {
            let i = choose|i: int| 0 <= i < rest.len() && #[trigger] rest[i] == lowest(rest, cap);
            assert(s[i] == lowest(s, cap));
        }
    }
}

} // verus!
