//! Prime numbers: testing, counting, the n-th prime, and distinct prime
//! factors.
use vstd::prelude::*;

verus! {

/// `n` is prime: at least 2, and no number from 2 to `n - 1` divides it.
pub open spec fn is_prime_spec(n: nat) -> bool {
    n >= 2 && forall|d: nat| 2 <= d < n ==> #[trigger] (n % d) != 0
}

/// How many primes are smaller than `m`.
pub open spec fn count_primes_below(m: nat) -> nat
    decreases m,
{
    if m == 0 {
        0
    } else {
        count_primes_below((m - 1) as nat) + if is_prime_spec((m - 1) as nat) {
            1nat
        } else {
            0nat
        }
    }
}

/// `p` is the `n`-th prime, counting from 1 (the first prime is 2); for `n`
/// equal to 0 the answer is 1.
pub open spec fn is_nth_prime(p: nat, n: nat) -> bool {
    if n == 0 {
        p == 1
    } else {
        is_prime_spec(p) && count_primes_below(p) + 1 == n
    }
}

/// The square of `2^32 - 1`: for a prime above it, the trial division of
/// `primes::factors_uniq` overflows.
pub open spec fn factor_limit() -> nat {
    18446744065119617025
}

/// `fs` lists, in increasing order, exactly the distinct primes that divide
/// `n`; for `n` at most 1 it is empty.
pub open spec fn is_unique_prime_factors(n: nat, fs: Seq<u64>) -> bool {
    &&& forall|i: int, j: int| 0 <= i < j < fs.len() ==> fs[i] < fs[j]
    &&& forall|i: int| 0 <= i < fs.len() ==> is_prime_spec(#[trigger] fs[i] as nat) && n % (
    fs[i] as nat) == 0 && n >= 2
    &&& forall|p: nat| is_prime_spec(p) && n >= 2 && #[trigger] (n % p) == 0 ==> fs.contains(
        p as u64,
    )
}

/// There are never fewer primes below a larger bound.
pub proof fn lemma_count_primes_monotonic(a: nat, b: nat)
    requires
        a <= b,
    ensures
        count_primes_below(a) <= count_primes_below(b),
    decreases b - a,
{
    if a < b {
        lemma_count_primes_monotonic(a, (b - 1) as nat);
    }
}

/// Each prime raises the count of the primes below any larger bound.
proof fn lemma_count_primes_past_prime(p: nat, b: nat)
    requires
        is_prime_spec(p),
        p < b,
    ensures
        count_primes_below(p) < count_primes_below(b),
{
    lemma_count_primes_monotonic(p + 1, b);
}

/// The primes come in order: the `n`-th is smaller than the `m`-th when `n`
/// is smaller than `m`, and there is only one `n`-th prime.
pub proof fn lemma_nth_prime_ordered(p: nat, n: nat, q: nat, m: nat)
    requires
        is_nth_prime(p, n),
        is_nth_prime(q, m),
    ensures
        n < m ==> p < q,
        n == m ==> p == q,
{
    if n >= 1 && m >= 1 {
        if q <= p && q != p {
            lemma_count_primes_past_prime(q, p);
        }
        if p < q {
            lemma_count_primes_past_prime(p, q);
        }
    }
}

/// A divisor of `n` no smaller than `i` pairs with a cofactor smaller than
/// `i` when `i * i > n`.
proof fn lemma_small_cofactor(n: nat, d: nat, i: nat)
    requires
        2 <= d < n,
        n % d == 0,
        i >= 2,
        i * i > n,
        d >= i,
    ensures
        2 <= n / d < i,
        n % (n / d) == 0,
{
    let e: nat = n / d;
    vstd::arithmetic::div_mod::lemma_fundamental_div_mod(n as int, d as int);
    assert(n == d * e);
    assert(e >= 2) by (nonlinear_arith)
        requires
            n == d * e,
            d < n,
            d > 0,
    ;
    assert(e < i) by (nonlinear_arith)
        requires
            n == d * e,
            d >= i,
            i * i > n,
            i >= 2,
    ;
    assert(n % e == 0) by (nonlinear_arith)
        requires
            n == d * e,
            e > 0,
    ;
}

/// Whether `n` is prime, by trial division up to its square root.
pub fn is_prime(n: u64) -> (r: bool)
    ensures
        r == is_prime_spec(n as nat),
{
    if n < 2 {
        return false;
    }
    let mut i: u64 = 2;
    while i <= n / i
        invariant
            2 <= i <= n,
            forall|d: nat| 2 <= d < i ==> #[trigger] (n as nat % d) != 0,
        decreases n - i,
    {
        if n % i == 0 {
            assert(i < n) by (nonlinear_arith)
                requires
                    i <= n / i,
                    i >= 2,
            ;
            return false;
        }
        assert(i < n) by (nonlinear_arith)
            requires
                i <= n / i,
                i >= 2,
        ;
        i += 1;
    }
    assert(i * i > n) by (nonlinear_arith)
        requires
            i > n / i,
            i >= 2,
    ;
    assert forall|d: nat| 2 <= d < n implies #[trigger] (n as nat % d) != 0 by {
        if d >= i && n as nat % d == 0 {
            lemma_small_cofactor(n as nat, d, i as nat);
            let e: nat = n as nat / d;
            assert(n as nat % e != 0);
        }
    }
    true
}

/// The `n`-th prime (the first is 2; 1 for `n` equal to 0), or `None` where
/// the `n`-th prime is not below `u64::MAX`.
pub fn nth_prime_checked(n: u64) -> (r: Option<u64>)
    ensures
        r is None <==> count_primes_below(u64::MAX as nat) < n,
        r matches Some(p) ==> is_nth_prime(p as nat, n as nat),
{
    if n == 0 {
        return Some(1);
    }
    let mut count: u64 = 0;
    let mut num: u64 = 2;
    assert(count_primes_below(2) == 0) by {
        assert(count_primes_below(0) == 0);
        assert(!is_prime_spec(0));
        assert(count_primes_below(1) == 0);
        assert(!is_prime_spec(1));
    }
    while count < n
        invariant
            2 <= num,
            count <= n,
            count == count_primes_below(num as nat),
            count == n ==> n == 0 || is_prime_spec((num - 1) as nat),
        decreases u64::MAX - num,
    {
        if num == u64::MAX {
            return None;
        }
        if is_prime(num) {
            count += 1;
        }
        num += 1;
    }
    proof {
        lemma_count_primes_monotonic(num as nat, u64::MAX as nat);
        if n > 0 {
            assert(count_primes_below(num as nat) == count_primes_below((num - 1) as nat) + 1);
        }
    }
    Some(num - 1)
}

/// The `n`-th prime (the first is 2; 1 for `n` equal to 0). The `n`-th prime
/// must be below `u64::MAX`.
pub fn nth_prime(n: u64) -> (r: u64)
    requires
        n <= count_primes_below(u64::MAX as nat),
    ensures
        is_nth_prime(r as nat, n as nat),
{
    match nth_prime_checked(n) {
        Some(p) => p,
        None => {
            assert(false);
            0
        },
    }
}

/// Calls `primes::factors_uniq`. Claimed, as its source shows: the distinct
/// prime factors of `x` in increasing order (none for `x` at most 1). Left
/// out: a prime `x` above `factor_limit()`, on which its trial division
/// overflows.
#[verifier::external_body]
fn factors_uniq(x: u64) -> (r: Vec<u64>)
    requires
        !(is_prime_spec(x as nat) && x > factor_limit()),
    ensures
        is_unique_prime_factors(x as nat, r@),
{
    primes::factors_uniq(x)
}

/// The distinct prime factors of `n`, in increasing order.
pub fn unique_prime_factors(n: u64) -> (r: Vec<u64>)
    requires
        !(is_prime_spec(n as nat) && n > factor_limit()),
    ensures
        is_unique_prime_factors(n as nat, r@),
{
    factors_uniq(n)
}

/// Each number with its distinct prime factors, in increasing order.
pub fn compute_prime_factors(numbers: &[u64]) -> (r: Vec<(u64, Vec<u64>)>)
    requires
        forall|i: int|
            0 <= i < numbers@.len() ==> !(is_prime_spec(#[trigger] numbers@[i] as nat)
                && numbers@[i] > factor_limit()),
    ensures
        r@.len() == numbers@.len(),
        forall|i: int|
            0 <= i < numbers@.len() ==> #[trigger] r@[i].0 == numbers@[i]
                && is_unique_prime_factors(numbers@[i] as nat, r@[i].1@),
{
    let mut out: Vec<(u64, Vec<u64>)> = Vec::new();
    let mut i: usize = 0;
    while i < numbers.len()
        invariant
            i <= numbers@.len(),
            out@.len() == i,
            forall|k: int|
                0 <= k < numbers@.len() ==> !(is_prime_spec(#[trigger] numbers@[k] as nat)
                    && numbers@[k] > factor_limit()),
            forall|k: int|
                0 <= k < i ==> #[trigger] out@[k].0 == numbers@[k] && is_unique_prime_factors(
                    numbers@[k] as nat,
                    out@[k].1@,
                ),
        decreases numbers@.len() - i,
    {
        let n: u64 = numbers[i];
        let fs: Vec<u64> = unique_prime_factors(n);
        out.push((n, fs));
        i += 1;
    }
    out
}

} // verus!
