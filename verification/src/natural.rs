//! Natural numbers of any size.

use crate::arith::{floor_root_is_root, is_floor_root, root, word, Wide};
use vstd::arithmetic::mul::*;
use vstd::prelude::*;

verus! {

/// Two to the power of 64: one more than the largest digit.
pub const BASE: u128 = 0x1_0000_0000_0000_0000;

/// What a digit at a position counts for.
pub open spec fn weight(i: int) -> int
    decreases i,
{
    if i <= 0 {
        1
    } else {
        BASE * weight(i - 1)
    }
}

/// The digit at a position; 0 beyond the last one.
pub open spec fn digit(s: Seq<u64>, i: int) -> int {
    if 0 <= i < s.len() {
        s[i] as int
    } else {
        0
    }
}

/// The number that the digits below a position stand for.
pub open spec fn lower(s: Seq<u64>, i: int) -> int
    decreases i,
{
    if i <= 0 {
        0
    } else {
        lower(s, i - 1) + digit(s, i - 1) * weight(i - 1)
    }
}

/// The number that some digits stand for, the least significant of them first.
pub open spec fn number(s: Seq<u64>) -> int {
    lower(s, s.len() as int)
}

proof fn lemma_lower_agrees(s: Seq<u64>, t: Seq<u64>, i: int)
    requires
        forall|j: int| 0 <= j < i ==> #[trigger] digit(s, j) == digit(t, j),
    ensures
        lower(s, i) == lower(t, i),
    decreases i,
{
    if i > 0 {
        lemma_lower_agrees(s, t, i - 1);
        assert(digit(s, i - 1) == digit(t, i - 1));
    }
}

proof fn lemma_push(s: Seq<u64>, d: u64)
    ensures
        number(s.push(d)) == number(s) + d * weight(s.len() as int),
{
    let t = s.push(d);
    lemma_lower_agrees(s, t, s.len() as int);
    assert(digit(t, s.len() as int) == d);
}

proof fn lemma_padded(s: Seq<u64>, i: int)
    requires
        s.len() <= i,
    ensures
        lower(s, i) == number(s),
    decreases i,
{
    if i > s.len() {
        lemma_padded(s, i - 1);
        assert(digit(s, i - 1) * weight(i - 1) == 0) by (nonlinear_arith)
            requires
                digit(s, i - 1) == 0,
        ;
    }
}

proof fn lemma_lower_is_below(s: Seq<u64>, i: int)
    ensures
        0 <= lower(s, i) < weight(i),
    decreases i,
{
    if i > 0 {
        lemma_lower_is_below(s, i - 1);
        let l = lower(s, i - 1);
        let w = weight(i - 1);
        let d = digit(s, i - 1);
        assert(0 <= l + d * w < BASE * w) by (nonlinear_arith)
            requires
                0 <= l < w,
                0 <= d <= BASE - 1,
        ;
    }
}

proof fn lemma_weights_multiply(i: int, j: int)
    requires
        0 <= i,
        0 <= j,
    ensures
        weight(i + j) == weight(i) * weight(j),
    decreases j,
{
    if j > 0 {
        lemma_weights_multiply(i, j - 1);
        lemma_mul_is_associative(weight(i), BASE as int, weight(j - 1));
        lemma_mul_is_associative(BASE as int, weight(i), weight(j - 1));
        lemma_mul_is_commutative(weight(i), BASE as int);
    }
}

fn digit_at(v: &Vec<u64>, i: usize) -> (d: u64)
    ensures
        d == digit(v@, i as int),
{
    if i < v.len() {
        v[i]
    } else {
        0
    }
}

/// A natural number.
pub struct Natural {
    digits: Vec<u64>,
}

impl Natural {
    /// The number that the digits stand for.
    pub closed spec fn value(self) -> int {
        number(self.digits@)
    }

    /// A natural number is not negative.
    pub proof fn value_is_natural(self)
        ensures
            0 <= self.value(),
    {
        lemma_lower_is_below(self.digits@, self.digits@.len() as int);
    }

    /// A word as a natural number.
    pub fn from_word(x: u128) -> (r: Natural)
        ensures
            r.value() == x,
    {
        let mut digits: Vec<u64> = Vec::new();
        let low: u64 = (x % BASE) as u64;
        let high: u64 = (x / BASE) as u64;
        digits.push(low);
        digits.push(high);
        proof {
            let s = Seq::<u64>::empty();
            lemma_push(s, low);
            lemma_push(s.push(low), high);
            assert(digits@ =~= s.push(low).push(high));
            assert(weight(0) == 1);
            assert(weight(1) == BASE * weight(0));
            assert(low * weight(0) + high * weight(1) == x);
        }
        Natural { digits }
    }

    /// A wide integer as a natural number.
    pub fn from_wide(x: Wide) -> (r: Natural)
        ensures
            r.value() == x.value(),
    {
        proof {
            reveal_with_fuel(weight, 3);
            assert(weight(2) == word());
            lemma_mul_is_commutative(x.hi as int, word());
        }
        Natural::from_word(x.hi).shifted(2).plus(&Natural::from_word(x.lo))
    }

    /// The sum.
    pub fn plus(&self, other: &Natural) -> (r: Natural)
        ensures
            r.value() == self.value() + other.value(),
    {
        let n: usize = if self.digits.len() < other.digits.len() {
            other.digits.len()
        } else {
            self.digits.len()
        };
        let ghost a = self.digits@;
        let ghost b = other.digits@;
        let mut digits: Vec<u64> = Vec::new();
        let mut carry: u64 = 0;
        let mut i: usize = 0;
        while i < n
            invariant
                i <= n,
                digits@.len() == i,
                a == self.digits@,
                b == other.digits@,
                carry <= 1,
                number(digits@) + carry * weight(i as int) == lower(a, i as int) + lower(
                    b,
                    i as int,
                ),
            decreases n - i,
        {
            let p: u64 = digit_at(&self.digits, i);
            let q: u64 = digit_at(&other.digits, i);
            let x: u128 = p as u128 + q as u128 + carry as u128;
            let low: u64 = (x % BASE) as u64;
            let high: u64 = (x / BASE) as u64;
            proof {
                lemma_push(digits@, low);
                let w = weight(i as int);
                let h = BASE as int;
                let c = carry as int;
                assert(low * w + high * (h * w) == p * w + q * w + c * w) by (nonlinear_arith)
                    requires
                        low + h * high == p + q + c,
                ;
            }
            digits.push(low);
            carry = high;
            i = i + 1;
        }
        proof {
            lemma_padded(a, n as int);
            lemma_padded(b, n as int);
            lemma_push(digits@, carry);
        }
        digits.push(carry);
        Natural { digits }
    }

    /// The difference from a number that is no larger.
    pub fn minus(&self, other: &Natural) -> (r: Natural)
        requires
            other.value() <= self.value(),
        ensures
            r.value() == self.value() - other.value(),
    {
        let n: usize = if self.digits.len() < other.digits.len() {
            other.digits.len()
        } else {
            self.digits.len()
        };
        let ghost a = self.digits@;
        let ghost b = other.digits@;
        let mut digits: Vec<u64> = Vec::new();
        let mut borrow: u64 = 0;
        let mut i: usize = 0;
        while i < n
            invariant
                i <= n,
                digits@.len() == i,
                a == self.digits@,
                b == other.digits@,
                borrow <= 1,
                number(digits@) + lower(b, i as int) == lower(a, i as int) + borrow * weight(
                    i as int,
                ),
            decreases n - i,
        {
            let p: u64 = digit_at(&self.digits, i);
            let q: u64 = digit_at(&other.digits, i);
            let x: u128 = BASE + p as u128 - q as u128 - borrow as u128;
            let low: u64 = (x % BASE) as u64;
            let next: u64 = if x < BASE {
                1
            } else {
                0
            };
            proof {
                lemma_push(digits@, low);
                let w = weight(i as int);
                let h = BASE as int;
                let c = borrow as int;
                assert(low + q + c == p + next * h);
                assert(low * w + q * w + c * w == p * w + next * (h * w)) by (nonlinear_arith)
                    requires
                        low + q + c == p + next * h,
                ;
            }
            digits.push(low);
            borrow = next;
            i = i + 1;
        }
        proof {
            lemma_padded(a, n as int);
            lemma_padded(b, n as int);
            lemma_lower_is_below(digits@, n as int);
            assert(borrow == 0) by {
                if borrow == 1 {
                    assert(borrow * weight(n as int) == weight(n as int));
                }
            }
        }
        Natural { digits }
    }

    /// The product with a digit.
    fn scaled(&self, m: u64) -> (r: Natural)
        ensures
            r.value() == self.value() * m,
    {
        let ghost a = self.digits@;
        let mut digits: Vec<u64> = Vec::new();
        let mut carry: u64 = 0;
        let mut i: usize = 0;
        while i < self.digits.len()
            invariant
                i <= self.digits@.len(),
                digits@.len() == i,
                a == self.digits@,
                number(digits@) + carry * weight(i as int) == lower(a, i as int) * m,
            decreases self.digits@.len() - i,
        {
            let p: u64 = self.digits[i];
            proof {
                lemma_mul_upper_bound(p as int, BASE - 1, m as int, BASE - 1);
            }
            let x: u128 = p as u128 * m as u128 + carry as u128;
            let low: u64 = (x % BASE) as u64;
            let high: u64 = (x / BASE) as u64;
            proof {
                lemma_push(digits@, low);
                let w = weight(i as int);
                let h = BASE as int;
                let c = carry as int;
                let l = lower(a, i as int);
                let pm = p * m;
                assert(low * w + high * (h * w) == pm * w + c * w) by (nonlinear_arith)
                    requires
                        low + h * high == pm + c,
                ;
                assert((l + p * w) * m == l * m + pm * w) by (nonlinear_arith)
                    requires
                        pm == p * m,
                ;
            }
            digits.push(low);
            carry = high;
            i = i + 1;
        }
        proof {
            lemma_push(digits@, carry);
        }
        digits.push(carry);
        Natural { digits }
    }

    /// The product with a power of the base.
    fn shifted(&self, k: usize) -> (r: Natural)
        ensures
            r.value() == weight(k as int) * self.value(),
    {
        let ghost a = self.digits@;
        let mut digits: Vec<u64> = Vec::new();
        let mut i: usize = 0;
        while i < k
            invariant
                i <= k,
                digits@.len() == i,
                number(digits@) == 0,
            decreases k - i,
        {
            proof {
                lemma_push(digits@, 0);
                lemma_mul_basics(weight(i as int));
            }
            digits.push(0);
            i = i + 1;
        }
        let mut j: usize = 0;
        assert(weight(k as int) * lower(a, 0) == 0) by (nonlinear_arith)
            requires
                lower(a, 0) == 0,
        ;
        while j < self.digits.len()
            invariant
                j <= self.digits@.len(),
                a == self.digits@,
                digits@.len() == k + j,
                number(digits@) == weight(k as int) * lower(a, j as int),
            decreases self.digits@.len() - j,
        {
            let d: u64 = self.digits[j];
            proof {
                lemma_push(digits@, d);
                lemma_weights_multiply(k as int, j as int);
                let u = weight(k as int);
                let w = weight(j as int);
                let l = lower(a, j as int);
                assert(u * l + d * (u * w) == u * (l + d * w)) by (nonlinear_arith);
            }
            digits.push(d);
            j = j + 1;
        }
        Natural { digits }
    }

    /// The product.
    pub fn times(&self, other: &Natural) -> (r: Natural)
        ensures
            r.value() == self.value() * other.value(),
    {
        let ghost b = other.digits@;
        let mut r = Natural { digits: Vec::new() };
        let mut j: usize = 0;
        assert(self.value() * lower(b, 0) == 0) by (nonlinear_arith)
            requires
                lower(b, 0) == 0,
        ;
        while j < other.digits.len()
            invariant
                j <= other.digits@.len(),
                b == other.digits@,
                r.value() == self.value() * lower(b, j as int),
            decreases other.digits@.len() - j,
        {
            let d: u64 = other.digits[j];
            r = r.plus(&self.scaled(d).shifted(j));
            proof {
                let a = self.value();
                let w = weight(j as int);
                let l = lower(b, j as int);
                assert(a * l + w * (a * d) == a * (l + d * w)) by (nonlinear_arith);
            }
            j = j + 1;
        }
        r
    }

    /// Whether this number is at most the other one.
    pub fn at_most(&self, other: &Natural) -> (r: bool)
        ensures
            r == (self.value() <= other.value()),
    {
        let n: usize = if self.digits.len() < other.digits.len() {
            other.digits.len()
        } else {
            self.digits.len()
        };
        let ghost a = self.digits@;
        let ghost b = other.digits@;
        let mut i: usize = n;
        proof {
            lemma_padded(a, n as int);
            lemma_padded(b, n as int);
        }
        while i > 0
            invariant
                i <= n,
                a == self.digits@,
                b == other.digits@,
                number(a) - lower(a, i as int) == number(b) - lower(b, i as int),
            decreases i,
        {
            let p: u64 = digit_at(&self.digits, i - 1);
            let q: u64 = digit_at(&other.digits, i - 1);
            if p != q {
                proof {
                    lemma_lower_is_below(a, i - 1);
                    lemma_lower_is_below(b, i - 1);
                    let w = weight(i - 1);
                    if p < q {
                        assert(p * w + w <= q * w) by (nonlinear_arith)
                            requires
                                p + 1 <= q,
                                w >= 0,
                        ;
                    } else {
                        assert(q * w + w <= p * w) by (nonlinear_arith)
                            requires
                                q + 1 <= p,
                                w >= 0,
                        ;
                    }
                }
                return p < q;
            }
            i = i - 1;
        }
        true
    }
}

/// Whether the square of `k`, times `d`, is at most `t`.
fn square_times_at_most(k: &Natural, d: &Natural, t: &Natural) -> (r: bool)
    ensures
        r == (k.value() * k.value() * d.value() <= t.value()),
{
    k.times(k).times(d).at_most(t)
}

/// The largest word that takes a root from `base`, in steps of `unit`, no farther than
/// the square root of `t / d`.
fn root_word(base: &Natural, unit: &Natural, d: &Natural, t: &Natural) -> (k: u128)
    requires
        base.value() * base.value() * d.value() <= t.value(),
        t.value() < (base.value() + word() * unit.value()) * (base.value() + word()
            * unit.value()) * d.value(),
    ensures
        ({
            let low = base.value() + k * unit.value();
            let high = base.value() + (k + 1) * unit.value();
            low * low * d.value() <= t.value() < high * high * d.value()
        }),
{
    let ghost b = base.value();
    let ghost u = unit.value();
    let ghost dv = d.value();
    let mut k: u128 = 0;
    let mut top: u128 = u128::MAX;
    proof {
        lemma_mul_basics(u);
        assert(top + 1 == word());
    }
    while k < top
        invariant
            k <= top,
            b == base.value(),
            u == unit.value(),
            dv == d.value(),
            (b + k * u) * (b + k * u) * dv <= t.value(),
            t.value() < (b + (top + 1) * u) * (b + (top + 1) * u) * dv,
        decreases top - k,
    {
        let gap: u128 = top - k;
        let middle: u128 = k + gap / 2 + gap % 2;
        let at = base.plus(&Natural::from_word(middle).times(unit));
        if square_times_at_most(&at, d, t) {
            k = middle;
        } else {
            top = middle - 1;
        }
    }
    k
}

/// The square root of `t / d`, rounded down, where it is a single word.
pub fn floor_root(d: &Natural, t: &Natural) -> (k: u128)
    requires
        d.value() > 0,
        t.value() < word() * word() * d.value(),
    ensures
        is_floor_root(k as int, d.value(), t.value()),
        k == root(d.value(), t.value()),
{
    let zero = Natural::from_word(0);
    let one = Natural::from_word(1);
    proof {
        t.value_is_natural();
        assert(0int * 0 * d.value() == 0) by (nonlinear_arith);
    }
    let k: u128 = root_word(&zero, &one, d, t);
    proof {
        floor_root_is_root(k as int, d.value(), t.value());
    }
    k
}

/// The square root of `t / d`, rounded down, where it is a wide integer.
pub fn wide_root(d: &Natural, t: &Natural) -> (k: Wide)
    requires
        d.value() > 0,
        t.value() < (word() * word()) * (word() * word()) * d.value(),
    ensures
        is_floor_root(k.value(), d.value(), t.value()),
        k.value() == root(d.value(), t.value()),
{
    let zero = Natural::from_word(0);
    let one = Natural::from_word(1);
    let unit = Natural::from_wide(Wide { hi: 1, lo: 0 });
    proof {
        t.value_is_natural();
        assert(0int * 0 * d.value() == 0) by (nonlinear_arith);
    }
    let hi: u128 = root_word(&zero, &unit, d, t);
    let base = Natural::from_wide(Wide { hi, lo: 0 });
    proof {
        assert(base.value() + word() * 1 == (hi + 1) * word()) by (nonlinear_arith)
            requires
                base.value() == hi * word(),
        ;
    }
    let lo: u128 = root_word(&base, &one, d, t);
    let k = Wide { hi, lo };
    proof {
        floor_root_is_root(k.value(), d.value(), t.value());
    }
    k
}

} // verus!
