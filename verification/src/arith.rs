//! Exact integer arithmetic: 256-bit sums, floor division and floor roots.

use vstd::prelude::*;

verus! {

/// Two to the power of 128, one more than the largest `u128`.
pub open spec fn word() -> int {
    0x1_0000_0000_0000_0000_0000_0000_0000_0000int
}

/// A non-negative integer below two to the power of 256, in two words.
#[derive(Clone, Copy, Debug, PartialEq, Eq, Structural)]
pub struct Wide {
    /// The more significant word.
    pub hi: u128,
    /// The less significant word.
    pub lo: u128,
}

impl Wide {
    /// The integer that the two words stand for.
    pub open spec fn value(self) -> int {
        self.hi * word() + self.lo
    }

    /// A single word as a wide integer.
    pub fn from_word(lo: u128) -> (r: Wide)
        ensures
            r.value() == lo,
    {
        Wide { hi: 0, lo }
    }

    /// The sum with a word.
    pub fn plus(self, x: u128) -> (r: Wide)
        requires
            self.value() + x < word() * word(),
        ensures
            r.value() == self.value() + x,
    {
        match self.lo.checked_add(x) {
            Some(lo) => Wide { hi: self.hi, lo },
            None => {
                proof {
                    let h = self.hi as int;
                    assert(h < word() - 1) by (nonlinear_arith)
                        requires
                            h * word() + word() < word() * word(),
                            word() > 0,
                    ;
                    assert((h + 1) * word() == h * word() + word()) by (nonlinear_arith);
                }
                Wide { hi: self.hi + 1, lo: self.lo.wrapping_add(x) }
            },
        }
    }

    /// Two wide integers of the same value are equal.
    pub proof fn value_is_unique(self, other: Wide)
        requires
            self.value() == other.value(),
        ensures
            self == other,
    {
        let a = self.hi as int;
        let b = other.hi as int;
        assert(a == b) by (nonlinear_arith)
            requires
                a * word() + self.lo == b * word() + other.lo,
                0 <= self.lo < word(),
                0 <= other.lo < word(),
        ;
    }
}

/// The quotient, rounded towards negative infinity.
pub fn floor_div(a: i128, n: i128) -> (q: i128)
    requires
        n > 0,
    ensures
        q == a as int / n as int,
{
    proof {
        assert(i128::MIN <= a as int / n as int <= i128::MAX) by (nonlinear_arith)
            requires
                i128::MIN <= a <= i128::MAX,
                n > 0,
        ;
    }
    match a.checked_div_euclid(n) {
        Some(q) => q,
        None => 0,
    }
}

/// A quotient that is rounded down is less than one below the exact one.
pub proof fn quotient_is_near(a: int, n: int)
    requires
        n > 0,
    ensures
        (a / n) * n <= a < (a / n + 1) * n,
{
    let q = a / n;
    assert(q * n <= a < (q + 1) * n) by (nonlinear_arith)
        requires
            n > 0,
            q == a / n,
    ;
}

/// Whether `k` is the largest integer whose square, times `d`, is at most `t`:
/// the square root of `t / d`, rounded down.
pub open spec fn is_floor_root(k: int, d: int, t: int) -> bool {
    &&& 0 <= k
    &&& k * k * d <= t
    &&& t < (k + 1) * (k + 1) * d
}

/// The square root of `t / d`, rounded down.
pub open spec fn root(d: int, t: int) -> int {
    choose|k: int| is_floor_root(k, d, t)
}

/// There is only one root that is rounded down.
pub proof fn floor_root_is_unique(j: int, k: int, d: int, t: int)
    requires
        d > 0,
        is_floor_root(j, d, t),
        is_floor_root(k, d, t),
    ensures
        j == k,
{
    if j < k {
        assert((j + 1) * (j + 1) * d <= k * k * d) by (nonlinear_arith)
            requires
                0 <= j < k,
                d > 0,
        ;
    }
    if k < j {
        assert((k + 1) * (k + 1) * d <= j * j * d) by (nonlinear_arith)
            requires
                0 <= k < j,
                d > 0,
        ;
    }
}

/// Every non-negative number has a root that is rounded down.
pub proof fn floor_root_exists(d: int, t: int)
    requires
        d > 0,
        t >= 0,
    ensures
        exists|k: int| is_floor_root(k, d, t),
{
    assert(t < (t + 1) * (t + 1) * d) by (nonlinear_arith)
        requires
            t >= 0,
            d > 0,
    ;
    lemma_root_below(d, t, t);
}

proof fn lemma_root_below(d: int, t: int, top: int)
    requires
        d > 0,
        0 <= t,
        0 <= top,
        t < (top + 1) * (top + 1) * d,
    ensures
        exists|k: int| is_floor_root(k, d, t),
    decreases top,
{
    if top * top * d <= t {
        assert(is_floor_root(top, d, t));
    } else {
        if top == 0 {
            assert(0int * 0 * d == 0) by (nonlinear_arith);
        }
        lemma_root_below(d, t, top - 1);
    }
}

/// A floor root is the value of `root`.
pub proof fn floor_root_is_root(k: int, d: int, t: int)
    requires
        d > 0,
        is_floor_root(k, d, t),
    ensures
        root(d, t) == k,
{
    floor_root_is_unique(root(d, t), k, d, t);
}

/// A root is below every number whose square is above the radicand.
pub proof fn root_is_below(k: int, d: int, t: int, c: int)
    requires
        d >= 1,
        c > 0,
        is_floor_root(k, d, t),
        t < c * c,
    ensures
        k < c,
{
    if k >= c {
        assert(k * k * d >= c * c) by (nonlinear_arith)
            requires
                k >= c,
                c > 0,
                d >= 1,
        ;
    }
}

} // verus!
