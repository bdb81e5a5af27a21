//! Workloads that keep the processor and the memory busy.

use crate::random::{gen_range, gen_ratio, random};
use vstd::prelude::*;

verus! {

/// The quotient of `a * b + a` by `b`, in 64-bit arithmetic that wraps around.
pub open spec fn int_quotient(a: u64, b: u64) -> int {
    a.wrapping_mul(b).wrapping_add(a) as int / b as int
}

/// One step of the integer workload; nothing where the divisor is zero.
pub fn int_step(a: u64, b: u64) -> (r: Option<u64>)
    ensures
        match r {
            Some(q) => b != 0 && q == int_quotient(a, b),
            None => b == 0,
        },
{
    if b == 0 {
        None
    } else {
        Some(a.wrapping_mul(b).wrapping_add(a) / b)
    }
}

/// The last pair of numbers that has a quotient, with that quotient; nothing where every
/// divisor is zero.
pub open spec fn last_quotient(draws: Seq<(u64, u64)>) -> Option<(u64, u64, u64)>
    decreases draws.len(),
{
    if draws.len() == 0 {
        None
    } else {
        let (a, b) = draws.last();
        if b != 0 {
            Some((a, b, int_quotient(a, b) as u64))
        } else {
            last_quotient(draws.drop_last())
        }
    }
}

/// Runs the integer workload on these pairs of numbers. The last pair that has a quotient
/// comes back with it; nothing where every divisor is zero.
pub fn run_int_steps(draws: &Vec<(u64, u64)>) -> (r: Option<(u64, u64, u64)>)
    ensures
        r == last_quotient(draws@),
        r matches Some(t) ==> draws@.contains((t.0, t.1)) && t.1 != 0 && t.2 == int_quotient(
            t.0,
            t.1,
        ),
        r is None <==> (forall|k: int| 0 <= k < draws@.len() ==> (#[trigger] draws@[k]).1 == 0),
{
    let mut last: Option<(u64, u64, u64)> = None;
    let mut i: usize = 0;
    while i < draws.len()
        invariant
            i <= draws.len(),
            last == last_quotient(draws@.take(i as int)),
            last matches Some(t) ==> draws@.contains((t.0, t.1)) && t.1 != 0 && t.2
                == int_quotient(t.0, t.1),
            last is None <==> (forall|k: int| 0 <= k < i ==> (#[trigger] draws@[k]).1 == 0),
        decreases draws.len() - i,
    {
        assert(draws@.take(i + 1).drop_last() =~= draws@.take(i as int));
        assert(draws@.take(i + 1).last() == draws@[i as int]);
        let (a, b) = draws[i];
        match int_step(a, b) {
            Some(q) => {
                last = Some((a, b, q));
            },
            None => {},
        }
        i = i + 1;
    }
    assert(draws@.take(draws.len() as int) =~= draws@);
    last
}

/// Ten thousand steps of the integer workload on random numbers. The last numbers and
/// their quotient come back; nothing where every divisor was zero.
pub fn int_intensive_workload() -> (r: Option<(u64, u64, u64)>)
    ensures
        exists|draws: Seq<(u64, u64)>|
            draws.len() == 10_000 && r == #[trigger] last_quotient(draws),
        r matches Some(t) ==> t.1 != 0 && t.2 == int_quotient(t.0, t.1),
{
    let mut draws: Vec<(u64, u64)> = Vec::new();
    while draws.len() < 10_000
        invariant
            draws.len() <= 10_000,
        decreases 10_000 - draws.len(),
    {
        let a: u64 = random();
        let b: u64 = random();
        draws.push((a, b));
    }
    run_int_steps(&draws)
}

/// The byte that a pattern has at a position.
pub open spec fn pattern_byte(i: int) -> u8 {
    (i % 256) as u8
}

/// The bytes of a pattern.
pub open spec fn pattern(size: nat) -> Seq<u8> {
    Seq::new(size, |i: int| pattern_byte(i))
}

/// The sum of some bytes.
pub open spec fn byte_total(s: Seq<u8>) -> int
    decreases s.len(),
{
    if s.len() == 0 {
        0
    } else {
        byte_total(s.drop_last()) + s.last()
    }
}

/// A buffer that counts from 0 to 255 over and over.
pub fn fill_pattern(size: usize) -> (r: Vec<u8>)
    ensures
        r@ == pattern(size as nat),
{
    let mut r: Vec<u8> = Vec::new();
    let mut i: usize = 0;
    while i < size
        invariant
            i <= size,
            r@ == pattern(i as nat),
        decreases size - i,
    {
        r.push((i % 256) as u8);
        assert(r@ =~= pattern((i + 1) as nat));
        i = i + 1;
    }
    r
}

/// The sum of the bytes of a buffer.
pub fn sum_bytes(data: &Vec<u8>) -> (r: u64)
    requires
        data@.len() <= 0xffff_ffff_ffff,
    ensures
        r == byte_total(data@),
{
    let mut sum: u64 = 0;
    let mut i: usize = 0;
    while i < data.len()
        invariant
            i <= data.len() <= 0xffff_ffff_ffff,
            sum == byte_total(data@.take(i as int)),
            sum <= i * 255,
        decreases data.len() - i,
    {
        assert(data@.take(i + 1).drop_last() =~= data@.take(i as int));
        sum = sum + data[i] as u64;
        i = i + 1;
    }
    assert(data@.take(data.len() as int) =~= data@);
    sum
}

/// Fills a buffer of a random size between a kilobyte and a megabyte, and adds its bytes
/// up. The size and the sum come back.
pub fn memory_intensive_workload() -> (r: (usize, u64))
    ensures
        1_024 <= r.0 <= 1_048_576,
        r.1 == byte_total(pattern(r.0 as nat)),
{
    let size: usize = gen_range(1_024, 1_048_577) as usize;
    let data = fill_pattern(size);
    (size, sum_bytes(&data))
}

/// The sum of a pattern: each full round adds 32640, and the rest counts from 0.
pub proof fn pattern_total(size: nat)
    ensures
        byte_total(pattern(size)) == (size as int / 256) * 32640 + (size as int % 256) * ((
        size as int % 256) - 1) / 2,
    decreases size,
{
    if size > 0 {
        let rest = (size - 1) as nat;
        pattern_total(rest);
        assert(pattern(size).drop_last() =~= pattern(rest));
        assert(pattern(size).last() == pattern_byte(rest as int));
        let q = rest as int / 256;
        let m = rest as int % 256;
        assert(m * (m - 1) / 2 + m == (m + 1) * m / 2) by (nonlinear_arith)
            requires
                0 <= m < 256,
        ;
        if m == 255 {
            assert(size as int / 256 == q + 1);
            assert(size as int % 256 == 0);
        } else {
            assert(size as int / 256 == q);
            assert(size as int % 256 == m + 1);
        }
    }
}

/// Half of a number, rounded towards zero.
pub open spec fn half(x: i32) -> i32 {
    if x >= 0 {
        (x as int / 2) as i32
    } else {
        (-((-x) as int / 2)) as i32
    }
}

/// One step of the branching workload: a coin decides between adding and subtracting,
/// and the result's divisors decide what follows. Arithmetic wraps around.
pub open spec fn branch_step(x: i32, i: i32, up: bool) -> i32 {
    let y = if up {
        x.wrapping_add(i)
    } else {
        x.wrapping_sub(i)
    };
    if y as int % 2 == 0 {
        y.wrapping_mul(3)
    } else if y as int % 3 == 0 {
        half(y)
    } else {
        y.wrapping_add(1)
    }
}

/// Where the branching workload is after some coins.
pub open spec fn branch_walk(coins: Seq<bool>) -> i32
    decreases coins.len(),
{
    if coins.len() == 0 {
        0
    } else {
        branch_step(branch_walk(coins.drop_last()), (coins.len() - 1) as i32, coins.last())
    }
}

/// One step of the branching workload.
pub fn take_branch(x: i32, i: i32, up: bool) -> (r: i32)
    ensures
        r == branch_step(x, i, up),
{
    let y: i32 = if up {
        x.wrapping_add(i)
    } else {
        x.wrapping_sub(i)
    };
    let shifted: u64 = (y as i64 + 0x1_8000_0000) as u64;
    if shifted % 2 == 0 {
        y.wrapping_mul(3)
    } else if shifted % 3 == 0 {
        if y >= 0 {
            y / 2
        } else {
            let n: u64 = (-(y as i64)) as u64;
            (-((n / 2) as i64)) as i32
        }
    } else {
        y.wrapping_add(1)
    }
}

/// Runs the branching workload on these coins.
pub fn run_branches(coins: &Vec<bool>) -> (r: i32)
    requires
        coins@.len() <= i32::MAX,
    ensures
        r == branch_walk(coins@),
{
    let mut x: i32 = 0;
    let mut i: usize = 0;
    while i < coins.len()
        invariant
            i <= coins.len() <= i32::MAX,
            x == branch_walk(coins@.take(i as int)),
        decreases coins.len() - i,
    {
        assert(coins@.take(i + 1).drop_last() =~= coins@.take(i as int));
        x = take_branch(x, i as i32, coins[i]);
        i = i + 1;
    }
    assert(coins@.take(coins.len() as int) =~= coins@);
    x
}

/// The branching workload with ten thousand fair coins.
pub fn branch_intensive_workload() -> (r: i32)
    ensures
        exists|coins: Seq<bool>| coins.len() == 10_000 && r == #[trigger] branch_walk(coins),
{
    let mut coins: Vec<bool> = Vec::new();
    while coins.len() < 10_000
        invariant
            coins.len() <= 10_000,
        decreases 10_000 - coins.len(),
    {
        coins.push(gen_ratio(1, 2));
    }
    run_branches(&coins)
}

/// A number tripled some times, in 64-bit arithmetic that wraps around.
pub open spec fn tripled(x: u64, rounds: nat) -> u64
    decreases rounds,
{
    if rounds == 0 {
        x
    } else {
        tripled(x, (rounds - 1) as nat).wrapping_mul(3)
    }
}

/// The numbers up to `len`, of which every 64th was tripled some times.
pub open spec fn thrashed(len: nat, rounds: nat) -> Seq<u64> {
    Seq::new(
        len,
        |i: int|
            if i % 64 == 0 {
                tripled(i as u64, rounds)
            } else {
                i as u64
            },
    )
}

/// Triples every 64th number once more.
fn thrash_round(data: &mut Vec<u64>, rounds: Ghost<nat>)
    requires
        old(data)@ == thrashed(old(data)@.len(), rounds@),
    ensures
        final(data)@ == thrashed(old(data)@.len(), rounds@ + 1),
{
    let ghost before = data@;
    let n: usize = data.len();
    let blocks: usize = if n % 64 == 0 {
        n / 64
    } else {
        n / 64 + 1
    };
    let mut k: usize = 0;
    while k < blocks
        invariant
            data@.len() == n,
            before.len() == n,
            k <= blocks,
            blocks * 64 < n + 64,
            forall|j: int|
                0 <= j < n ==> #[trigger] data@[j] == (if j < k * 64 && j % 64 == 0 {
                    before[j].wrapping_mul(3)
                } else {
                    before[j]
                }),
        decreases blocks - k,
    {
        let x: u64 = data[k * 64];
        data.set(k * 64, x.wrapping_mul(3));
        k = k + 1;
    }
    assert forall|j: int| 0 <= j < n implies #[trigger] data@[j] == thrashed(
        n as nat,
        rounds@ + 1,
    )[j] by {
        assert(before[j] == thrashed(n as nat, rounds@)[j]);
    }
    assert(data@ =~= thrashed(n as nat, rounds@ + 1));
}

/// Counts through a buffer of `len` numbers, and then triples every 64th of them
/// `rounds` times.
pub fn thrash(len: usize, rounds: u32) -> (r: Vec<u64>)
    ensures
        r@ == thrashed(len as nat, rounds as nat),
{
    let mut data: Vec<u64> = Vec::new();
    let mut i: usize = 0;
    while i < len
        invariant
            i <= len,
            data@ == thrashed(i as nat, 0),
        decreases len - i,
    {
        data.push(i as u64);
        assert(data@ =~= thrashed((i + 1) as nat, 0));
        i = i + 1;
    }
    let mut round: u32 = 0;
    while round < rounds
        invariant
            round <= rounds,
            data@ == thrashed(len as nat, round as nat),
        decreases rounds - round,
    {
        thrash_round(&mut data, Ghost(round as nat));
        round = round + 1;
    }
    data
}

/// Walks through ten megabytes in steps larger than a cache line, a hundred times.
pub fn cache_thrashing_workload() -> (r: Vec<u64>)
    ensures
        r@ == thrashed(1_310_720, 100),
{
    thrash(1_310_720, 100)
}

/// Fibonacci's numbers.
pub open spec fn fibonacci(n: nat) -> nat
    decreases n,
{
    if n <= 1 {
        n
    } else {
        fibonacci((n - 1) as nat) + fibonacci((n - 2) as nat)
    }
}

/// One of Fibonacci's numbers, by plain recursion.
pub fn fib(n: u64) -> (r: u64)
    requires
        fibonacci(n as nat) <= u64::MAX,
    ensures
        r == fibonacci(n as nat),
    decreases n,
{
    if n <= 1 {
        n
    } else {
        fib(n - 1) + fib(n - 2)
    }
}

/// The twentieth of Fibonacci's numbers.
pub fn recursive_workload() -> (r: u64)
    ensures
        r == fibonacci(20),
        r == 6765,
{
    proof {
        reveal_with_fuel(fibonacci, 21);
    }
    fib(20)
}

/// Fibonacci's numbers do not fall.
pub proof fn fibonacci_grows(n: nat, m: nat)
    requires
        n <= m,
    ensures
        fibonacci(n) <= fibonacci(m),
    decreases m - n,
{
    if n < m {
        fibonacci_grows(n, (m - 1) as nat);
    }
}

/// Only every 64th number is changed.
pub proof fn thrashing_skips(len: nat, rounds: nat, i: int)
    requires
        0 <= i < len,
        i % 64 != 0,
    ensures
        thrashed(len, rounds)[i] == i as u64,
{
}

} // verus!
