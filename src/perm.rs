//! Permutations of `0..n` as index arrays: decoding a rank into a
//! permutation, inversion and composition.
use vstd::prelude::*;

verus! {

/// `16!`, the number of permutations of sixteen positions.
pub const FAC_16: u64 = 20922789888000;

/// `n!`
pub open spec fn fact(n: nat) -> nat
    decreases n,
{
    if n == 0 {
        1
    } else {
        n * fact((n - 1) as nat)
    }
}

/// `p` is a bijection of `0..p.len()`.
pub open spec fn is_perm(p: Seq<usize>) -> bool {
    &&& forall|k: int| 0 <= k < p.len() ==> p[k] < p.len()
    &&& forall|a: int, b: int| 0 <= a < p.len() && 0 <= b < p.len() && a != b ==> p[a] != p[b]
    &&& forall|v: int| 0 <= v < p.len() ==> #[trigger] occurs(p, v)
}

/// `v` stands at some position of `p`.
pub open spec fn occurs(p: Seq<usize>, v: int) -> bool {
    exists|k: int| 0 <= k < p.len() && p[k] == v
}

/// `v` stands at some position of `p`.
pub open spec fn occurs_int(p: Seq<int>, v: int) -> bool {
    exists|k: int| 0 <= k < p.len() && p[k] == v
}

/// Same as `is_perm`, over integers.
pub open spec fn is_int_perm(p: Seq<int>) -> bool {
    &&& forall|k: int| 0 <= k < p.len() ==> 0 <= #[trigger] p[k] < p.len()
    &&& forall|a: int, b: int| 0 <= a < p.len() && 0 <= b < p.len() && a != b ==> p[a] != p[b]
    &&& forall|v: int| 0 <= v < p.len() ==> #[trigger] occurs_int(p, v)
}

/// The digits of `i` in the factorial number system, most significant first,
/// with bases `(n-1)!, ..., 1!, 0!`.
pub open spec fn lehmer_digits(i: nat, n: nat) -> Seq<int>
    decreases n,
{
    if n == 0 {
        Seq::empty()
    } else {
        let f = fact((n - 1) as nat);
        seq![(i / f) as int] + lehmer_digits(i % f, (n - 1) as nat)
    }
}

/// Shifts `v` up by one when it is at or above `d`, making room for `d`.
pub open spec fn bump(v: int, d: int) -> int {
    if d <= v {
        v + 1
    } else {
        v
    }
}

/// Turns a Lehmer code into the sequence of values it denotes: the first
/// digit is kept and every later value is moved past it.
pub open spec fn decode_digits(d: Seq<int>) -> Seq<int>
    decreases d.len(),
{
    if d.len() == 0 {
        Seq::empty()
    } else {
        let rest = decode_digits(d.drop_first());
        seq![d[0]] + Seq::new(rest.len(), |k: int| bump(rest[k], d[0]))
    }
}

/// The permutation of `0..n` whose rank is `i`.
pub open spec fn perm_of_rank(i: nat, n: nat) -> Seq<usize> {
    let p = decode_digits(lehmer_digits(i, n));
    Seq::new(p.len(), |k: int| p[k] as usize)
}

/// Every digit of position `k` is below `d.len() - k`.
pub open spec fn digits_in_range(d: Seq<int>) -> bool {
    forall|k: int| 0 <= k < d.len() ==> 0 <= #[trigger] d[k] < d.len() - k
}

/// The value of position `k` once the positions `m..k` before it have been
/// scanned, from the nearest one back.
pub open spec fn adjusted(d: Seq<int>, k: int, m: int) -> int
    decreases k - m,
{
    if m >= k {
        d[k]
    } else {
        bump(adjusted(d, k, m + 1), d[m])
    }
}

/// The inverse of a permutation: `inverse(p)[p[k]] == k`.
pub open spec fn inverse(p: Seq<usize>) -> Seq<usize> {
    Seq::new(p.len(), |v: int| (choose|k: int| 0 <= k < p.len() && p[k] == v) as usize)
}

/// `compose(f, g)[k] == f[g[k]]`: first `g`, then `f`.
pub open spec fn compose(f: Seq<usize>, g: Seq<usize>) -> Seq<usize> {
    Seq::new(g.len(), |k: int| f[g[k] as int])
}

/// Every factorial is at least 1.
pub proof fn lemma_fact_positive(n: nat)
    ensures
        fact(n) >= 1,
    decreases n,
{
    if n > 0 {
        lemma_fact_positive((n - 1) as nat);
        assert(n * fact((n - 1) as nat) >= 1) by (nonlinear_arith)
            requires
                n >= 1,
                fact((n - 1) as nat) >= 1,
        ;
    }
}

/// Factorials grow with their argument.
pub proof fn lemma_fact_monotonic(m: nat, n: nat)
    requires
        m <= n,
    ensures
        fact(m) <= fact(n),
    decreases n - m,
{
    if m < n {
        lemma_fact_monotonic(m, (n - 1) as nat);
        lemma_fact_positive((n - 1) as nat);
        assert(fact((n - 1) as nat) <= n * fact((n - 1) as nat)) by (nonlinear_arith)
            requires
                n >= 1,
        ;
    }
}

/// `16!`, and `20!`, the largest factorial that fits in a `u64`.
pub proof fn lemma_fact_values()
    ensures
        fact(16) == 20922789888000,
        fact(20) == 2432902008176640000,
{
    assert(fact(0) == 1);
    assert(fact(1) == 1);
    assert(fact(2) == 2);
    assert(fact(3) == 6);
    assert(fact(4) == 24);
    assert(fact(5) == 120);
    assert(fact(6) == 720);
    assert(fact(7) == 5040);
    assert(fact(8) == 40320);
    assert(fact(9) == 362880);
    assert(fact(10) == 3628800);
    assert(fact(11) == 39916800);
    assert(fact(12) == 479001600);
    assert(fact(13) == 6227020800);
    assert(fact(14) == 87178291200);
    assert(fact(15) == 1307674368000);
    assert(fact(16) == 20922789888000);
    assert(fact(17) == 355687428096000);
    assert(fact(18) == 6402373705728000);
    assert(fact(19) == 121645100408832000);
    assert(fact(20) == 2432902008176640000);
}

/// The factorial-base digits of a rank below `n!` are `n` digits, each in
/// range for its position.
proof fn lemma_lehmer_digits(i: nat, n: nat)
    requires
        i < fact(n),
    ensures
        lehmer_digits(i, n).len() == n,
        digits_in_range(lehmer_digits(i, n)),
    decreases n,
{
    if n > 0 {
        let f = fact((n - 1) as nat);
        lemma_fact_positive((n - 1) as nat);
        assert(i / f < n) by (nonlinear_arith)
            requires
                i < n * f,
                f >= 1,
        ;
        lemma_lehmer_digits(i % f, (n - 1) as nat);
        let d = lehmer_digits(i, n);
        let rest = lehmer_digits(i % f, (n - 1) as nat);
        assert(d == seq![(i / f) as int] + rest);
        assert forall|k: int| 0 <= k < d.len() implies 0 <= #[trigger] d[k] < d.len() - k by {
            if k > 0 {
                assert(d[k] == rest[k - 1]);
            }
        }
    }
}

/// Digits in range decode to a bijection.
proof fn lemma_decode_is_perm(d: Seq<int>)
    requires
        digits_in_range(d),
    ensures
        decode_digits(d).len() == d.len(),
        is_int_perm(decode_digits(d)),
    decreases d.len(),
{
    if d.len() > 0 {
        let tail = d.drop_first();
        assert(digits_in_range(tail)) by {
            assert forall|k: int| 0 <= k < tail.len() implies 0 <= #[trigger] tail[k] < tail.len() - k by {
                assert(tail[k] == d[k + 1]);
            }
        }
        lemma_decode_is_perm(tail);
        let rest = decode_digits(tail);
        let p = decode_digits(d);
        let d0 = d[0];
        assert(p == seq![d0] + Seq::new(rest.len(), |k: int| bump(rest[k], d0)));
        assert forall|k: int| 0 <= k < p.len() implies 0 <= #[trigger] p[k] < p.len() by {
            if k > 0 {
                assert(p[k] == bump(rest[k - 1], d0));
            }
        }
        assert forall|a: int, b: int|
            0 <= a < p.len() && 0 <= b < p.len() && a != b implies p[a] != p[b] by {
            if a > 0 {
                assert(p[a] == bump(rest[a - 1], d0));
            }
            if b > 0 {
                assert(p[b] == bump(rest[b - 1], d0));
            }
        }
        assert forall|v: int| 0 <= v < p.len() implies #[trigger] occurs_int(p, v) by {
            if v == d0 {
                assert(p[0] == v);
            } else {
                let w = if v < d0 {
                    v
                } else {
                    v - 1
                };
                assert(0 <= w < rest.len());
                assert(occurs_int(rest, w));
                let j = choose|j: int| 0 <= j < rest.len() && rest[j] == w;
                assert(p[j + 1] == bump(rest[j], d0));
                assert(p[j + 1] == v);
            }
        }
    }
}

/// The scan of the positions before `k` yields the decoded value of `k`.
proof fn lemma_adjusted_decodes(d: Seq<int>, k: int, m: int)
    requires
        0 <= m <= k < d.len(),
    ensures
        decode_digits(d.subrange(m, d.len() as int)).len() == d.len() - m,
        decode_digits(d.subrange(m, d.len() as int))[k - m] == adjusted(d, k, m),
    decreases k - m,
{
    let s = d.subrange(m, d.len() as int);
    lemma_decode_len(s);
    assert(s.drop_first() =~= d.subrange(m + 1, d.len() as int));
    if m < k {
        lemma_adjusted_decodes(d, k, m + 1);
    }
}

proof fn lemma_decode_len(d: Seq<int>)
    ensures
        decode_digits(d).len() == d.len(),
    decreases d.len(),
{
    if d.len() > 0 {
        lemma_decode_len(d.drop_first());
    }
}

proof fn lemma_adjusted_bound(d: Seq<int>, k: int, m: int)
    requires
        0 <= m <= k < d.len(),
    ensures
        adjusted(d, k, m) <= d[k] + (k - m),
    decreases k - m,
{
    if m < k {
        lemma_adjusted_bound(d, k, m + 1);
    }
}

/// The rank of every permutation below `n!` decodes to a bijection of `0..n`.
pub proof fn lemma_rank_decodes_to_perm(i: nat, n: nat)
    requires
        i < fact(n),
        n <= 20,
    ensures
        perm_of_rank(i, n).len() == n,
        is_perm(perm_of_rank(i, n)),
{
    lemma_lehmer_digits(i, n);
    let d = lehmer_digits(i, n);
    lemma_decode_is_perm(d);
    let p = decode_digits(d);
    let q = perm_of_rank(i, n);
    assert forall|k: int| 0 <= k < q.len() implies q[k] == p[k] && #[trigger] q[k] < q.len() by {
        assert(0 <= p[k] < n);
    }
    assert forall|v: int| 0 <= v < q.len() implies #[trigger] occurs(q, v) by {
        assert(occurs_int(p, v));
        let k = choose|k: int| 0 <= k < p.len() && p[k] == v;
        assert(q[k] == p[k]);
    }
}

/// The factorial of `n`, for `n` up to 20 (the largest whose factorial fits).
pub fn fac(n: u64) -> (r: u64)
    requires
        n <= 20,
    ensures
        r == fact(n as nat),
    decreases n,
{
    if n == 0 {
        1
    } else {
        let f = fac(n - 1);
        proof {
            lemma_fact_values();
            lemma_fact_monotonic(n as nat, 20);
        }
        n * f
    }
}

/// Decodes the rank `i` into the permutation of `0..N` that it denotes: the
/// factorial-base digits of `i`, each moved past the digits before it.
#[allow(non_snake_case)]
pub fn ithPermutation<const N: usize>(i: u64) -> (r: [usize; N])
    requires
        N <= 20,
        i < fact(N as nat),
    ensures
        r@ == perm_of_rank(i as nat, N as nat),
        is_perm(r@),
{
    let ghost d = lehmer_digits(i as nat, N as nat);
    proof {
        lemma_lehmer_digits(i as nat, N as nat);
        lemma_rank_decodes_to_perm(i as nat, N as nat);
        lemma_fact_values();
    }
    let mut bases: [u64; N] = [1; N];
    let mut idx: usize = 1;
    while idx < N
        invariant
            1 <= idx,
            N <= 20,
            forall|j: int| 0 <= j < idx && j < N ==> bases[j] == fact(j as nat),
        decreases N - idx,
    {
        proof {
            lemma_fact_values();
            lemma_fact_monotonic(idx as nat, 20);
            let prev = fact((idx - 1) as nat);
            assert(fact(idx as nat) == idx * prev);
            assert(prev * idx == idx * prev) by (nonlinear_arith);
        }
        bases[idx] = bases[idx - 1] * (idx as u64);
        idx = idx + 1;
    }
    let mut digits: [u64; N] = [1; N];
    let mut rem: u64 = i;
    let mut k: usize = 0;
    while k < N
        invariant
            k <= N <= 20,
            d.len() == N,
            forall|j: int| 0 <= j < N ==> bases[j] == fact(j as nat),
            forall|j: int| 0 <= j < k ==> digits[j] == d[j],
            lehmer_digits(rem as nat, (N - k) as nat) == d.subrange(k as int, N as int),
        decreases N - k,
    {
        let f = bases[N - 1 - k];
        proof {
            lemma_fact_positive((N - 1 - k) as nat);
            let rest = lehmer_digits(rem as nat, (N - k) as nat);
            assert(rest[0] == d[k as int]);
            assert(lehmer_digits((rem % f) as nat, (N - k - 1) as nat) =~= d.subrange(
                k + 1,
                N as int,
            )) by {
                assert(rest.drop_first() =~= d.subrange(k + 1, N as int));
            }
        }
        digits[k] = rem / f;
        rem = rem % f;
        k = k + 1;
    }
    let mut k: usize = N;
    while k > 1
        invariant
            k <= N <= 20,
            d.len() == N,
            digits_in_range(d),
            forall|p: int| 0 <= p < k ==> digits[p] == d[p],
            forall|p: int| k <= p < N ==> digits[p] == adjusted(d, p, 0),
        decreases k,
    {
        k = k - 1;
        let mut j: usize = k;
        while j > 0
            invariant
                j <= k < N <= 20,
                d.len() == N,
                digits_in_range(d),
                forall|p: int| 0 <= p < k ==> digits[p] == d[p],
                forall|p: int| k < p < N ==> digits[p] == adjusted(d, p, 0),
                digits[k as int] == adjusted(d, k as int, j as int),
            decreases j,
        {
            j = j - 1;
            proof {
                lemma_adjusted_bound(d, k as int, j as int);
            }
            if digits[j] <= digits[k] {
                digits[k] = digits[k] + 1;
            }
        }
    }
    proof {
        lemma_decode_is_perm(d);
    }
    let mut out: [usize; N] = [0; N];
    let mut p: usize = 0;
    while p < N
        invariant
            p <= N <= 20,
            d.len() == N,
            forall|q: int| 0 <= q < N ==> digits[q] == adjusted(d, q, 0),
            digits_in_range(d),
            decode_digits(d).len() == N,
            is_int_perm(decode_digits(d)),
            forall|q: int| 0 <= q < p ==> out[q] == decode_digits(d)[q] as usize,
        decreases N - p,
    {
        proof {
            lemma_adjusted_decodes(d, p as int, 0);
            assert(d.subrange(0, N as int) =~= d);
            lemma_decode_is_perm(d);
            assert(0 <= decode_digits(d)[p as int] < N);
            assert(digits[p as int] == decode_digits(d)[p as int]);
        }
        out[p] = digits[p] as usize;
        p = p + 1;
    }
    proof {
        lemma_decode_len(d);
    }
    assert(out@ =~= perm_of_rank(i as nat, N as nat));
    out
}

/// For a bijection `p`, `inverse(p)` undoes it on both sides and is itself a
/// bijection.
pub proof fn lemma_inverse(p: Seq<usize>)
    requires
        is_perm(p),
    ensures
        inverse(p).len() == p.len(),
        is_perm(inverse(p)),
        forall|k: int| 0 <= k < p.len() ==> #[trigger] inverse(p)[p[k] as int] == k,
        forall|v: int| 0 <= v < p.len() ==> #[trigger] p[inverse(p)[v] as int] == v,
{
    let q = inverse(p);
    if p.len() > 0 {
        assert(occurs(p, p.len() - 1));
    }
    assert(p.len() <= usize::MAX + 1);
    assert forall|v: int| 0 <= v < p.len() implies 0 <= #[trigger] q[v] < p.len() && p[q[v] as int]
        == v by {
        assert(occurs(p, v));
        let k = choose|k: int| 0 <= k < p.len() && p[k] == v;
        assert(q[v] == k as usize);
    }
    assert forall|k: int| 0 <= k < p.len() implies #[trigger] q[p[k] as int] == k by {
        let v = p[k] as int;
        assert(occurs(p, v));
        assert(p[q[v] as int] == v);
    }
    assert forall|k: int| 0 <= k < p.len() implies #[trigger] occurs(q, k) by {
        assert(q[p[k] as int] == k);
    }
    assert forall|a: int, b: int|
        0 <= a < q.len() && 0 <= b < q.len() && a != b implies q[a] != q[b] by {
        assert(p[q[a] as int] == a);
        assert(p[q[b] as int] == b);
    }
}

/// Inverting a bijection twice gives it back.
pub proof fn lemma_invert_twice(p: Seq<usize>)
    requires
        is_perm(p),
    ensures
        inverse(inverse(p)) == p,
{
    lemma_inverse(p);
    let q = inverse(p);
    lemma_inverse(q);
    assert forall|k: int| 0 <= k < p.len() implies #[trigger] inverse(q)[k] == p[k] by {
        assert(q[p[k] as int] == k);
        assert(inverse(q)[q[p[k] as int] as int] == p[k] as int);
    }
    assert(inverse(q) =~= p);
}

/// The composition of two bijections of the same size is a bijection.
pub proof fn lemma_compose_is_perm(f: Seq<usize>, g: Seq<usize>)
    requires
        is_perm(f),
        is_perm(g),
        f.len() == g.len(),
    ensures
        is_perm(compose(f, g)),
        compose(f, g).len() == g.len(),
{
    let h = compose(f, g);
    assert forall|k: int| 0 <= k < h.len() implies #[trigger] h[k] < h.len() by {
        assert(g[k] < g.len());
    }
    assert forall|v: int| 0 <= v < h.len() implies #[trigger] occurs(h, v) by {
        assert(occurs(f, v));
        let a = choose|a: int| 0 <= a < f.len() && f[a] == v;
        assert(occurs(g, a));
        let b = choose|b: int| 0 <= b < g.len() && g[b] == a;
        assert(h[b] == v);
    }
    assert forall|a: int, b: int|
        0 <= a < h.len() && 0 <= b < h.len() && a != b implies h[a] != h[b] by {
        assert(g[a] != g[b]);
    }
}

/// The inverse of a bijection of `0..N`: `r[input[k]] == k`.
pub fn invert_perm<const N: usize>(input: &[usize; N]) -> (r: [usize; N])
    requires
        is_perm(input@),
    ensures
        r@ == inverse(input@),
        is_perm(r@),
{
    let mut out: [usize; N] = [0; N];
    let mut idx: usize = 0;
    while idx < N
        invariant
            idx <= N,
            is_perm(input@),
            forall|j: int| 0 <= j < idx ==> out[input[j] as int] == j,
        decreases N - idx,
    {
        out[input[idx]] = idx;
        proof {
            assert forall|j: int| 0 <= j < idx implies out[input[j] as int] == j by {
                assert(input[j] != input[idx as int]);
            }
        }
        idx = idx + 1;
    }
    proof {
        lemma_inverse(input@);
        assert forall|v: int| 0 <= v < N implies out[v] == inverse(input@)[v] by {
            let k = inverse(input@)[v] as int;
            assert(input[k] == v);
        }
    }
    assert(out@ =~= inverse(input@));
    out
}

/// `r[k] == f[g[k]]`: the permutation that applies `g`, then `f`.
pub fn compose_perm(f: &[usize; 16], g: &[usize; 16]) -> (r: [usize; 16])
    requires
        forall|k: int| 0 <= k < 16 ==> #[trigger] g[k] < 16,
    ensures
        r@ == compose(f@, g@),
{
    let mut out: [usize; 16] = [1; 16];
    let mut i: usize = 0;
    while i < 16
        invariant
            i <= 16,
            forall|k: int| 0 <= k < 16 ==> #[trigger] g[k] < 16,
            forall|k: int| 0 <= k < i ==> out[k] == f[g[k] as int],
        decreases 16 - i,
    {
        out[i] = f[g[i]];
        i = i + 1;
    }
    assert(out@ =~= compose(f@, g@));
    out
}

} // verus!
