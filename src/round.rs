//! The reversible transforms of one block: bytewise addition and subtraction
//! of a round key modulo 256, and gathering the bytes through a permutation.
use vstd::prelude::*;
use crate::perm::{compose, inverse, is_perm, lemma_inverse};

verus! {

/// `add_bytes(x, k)[i] == x[i] + k[i] mod 256`
pub open spec fn add_bytes(x: Seq<u8>, k: Seq<u8>) -> Seq<u8> {
    Seq::new(x.len(), |i: int| ((x[i] + k[i]) % 256) as u8)
}

/// `sub_bytes(x, k)[i] == x[i] - k[i] mod 256`
pub open spec fn sub_bytes(x: Seq<u8>, k: Seq<u8>) -> Seq<u8> {
    Seq::new(x.len(), |i: int| ((x[i] - k[i]) % 256) as u8)
}

/// `permute(x, p)[i] == x[p[i]]`: the bytes of `x` gathered through `p`.
pub open spec fn permute(x: Seq<u8>, p: Seq<usize>) -> Seq<u8> {
    Seq::new(p.len(), |i: int| x[p[i] as int])
}

/// One forward round: add the round key, then permute.
pub open spec fn forward_round(x: Seq<u8>, a: Seq<u8>, p: Seq<usize>) -> Seq<u8> {
    permute(add_bytes(x, a), p)
}

/// One backward round: permute by the inverse, then subtract the round key.
pub open spec fn backward_round(y: Seq<u8>, a: Seq<u8>, ip: Seq<usize>) -> Seq<u8> {
    sub_bytes(permute(y, ip), a)
}

/// Every entry of `p` indexes a block.
pub open spec fn indexes_block(p: Seq<usize>) -> bool {
    forall|k: int| 0 <= k < p.len() ==> #[trigger] p[k] < 16
}

/// Subtracting a key undoes adding it.
pub proof fn lemma_sub_undoes_add(x: Seq<u8>, k: Seq<u8>)
    requires
        x.len() == k.len(),
    ensures
        sub_bytes(add_bytes(x, k), k) == x,
{
    assert(sub_bytes(add_bytes(x, k), k) =~= x);
}

/// Gathering through a bijection and then through its inverse gives the block
/// back.
pub proof fn lemma_permute_then_inverse(x: Seq<u8>, p: Seq<usize>)
    requires
        is_perm(p),
        x.len() == p.len(),
    ensures
        permute(permute(x, p), inverse(p)) == x,
{
    lemma_inverse(p);
    assert(permute(permute(x, p), inverse(p)) =~= x);
}

/// Gathering through `compose(f, g)` once is gathering through `f`, then
/// through `g`; as maps of positions, `compose(f, g)` applies `g` first and
/// `f` second.
pub proof fn lemma_permute_compose(x: Seq<u8>, f: Seq<usize>, g: Seq<usize>)
    requires
        forall|k: int| 0 <= k < f.len() ==> #[trigger] f[k] < x.len(),
        forall|k: int| 0 <= k < g.len() ==> #[trigger] g[k] < f.len(),
    ensures
        permute(x, compose(f, g)) == permute(permute(x, f), g),
        forall|k: int| 0 <= k < g.len() ==> #[trigger] compose(f, g)[k] == f[g[k] as int],
{
    assert(permute(x, compose(f, g)) =~= permute(permute(x, f), g));
}

/// A backward round with the true inverse undoes a forward round.
pub proof fn lemma_round_trip(x: Seq<u8>, a: Seq<u8>, p: Seq<usize>)
    requires
        is_perm(p),
        x.len() == p.len(),
        a.len() == p.len(),
    ensures
        backward_round(forward_round(x, a, p), a, inverse(p)) == x,
{
    let y = add_bytes(x, a);
    lemma_permute_then_inverse(y, p);
    lemma_sub_undoes_add(x, a);
}

/// Adds the round key to the block, byte by byte, modulo 256.
pub fn round_add(target: &[u8; 16], add_round_key: &[u8; 16]) -> (r: [u8; 16])
    ensures
        r@ == add_bytes(target@, add_round_key@),
{
    let mut out: [u8; 16] = [0; 16];
    let mut i: usize = 0;
    while i < 16
        invariant
            i <= 16,
            forall|j: int| 0 <= j < i ==> out[j] == add_bytes(target@, add_round_key@)[j],
        decreases 16 - i,
    {
        out[i] = target[i].wrapping_add(add_round_key[i]);
        i = i + 1;
    }
    assert(out@ =~= add_bytes(target@, add_round_key@));
    out
}

/// Subtracts the round key from the block, byte by byte, modulo 256, by adding
/// its two's complement.
pub fn round_sub(target: &[u8; 16], add_round_key: &[u8; 16]) -> (r: [u8; 16])
    ensures
        r@ == sub_bytes(target@, add_round_key@),
{
    let mut out: [u8; 16] = [0; 16];
    let mut i: usize = 0;
    while i < 16
        invariant
            i <= 16,
            forall|j: int| 0 <= j < i ==> out[j] == sub_bytes(target@, add_round_key@)[j],
        decreases 16 - i,
    {
        out[i] = target[i].wrapping_add((u8::MAX - add_round_key[i]).wrapping_add(1));
        i = i + 1;
    }
    assert(out@ =~= sub_bytes(target@, add_round_key@));
    out
}

/// Gathers the bytes of the block through `perm_round`: `r[i] == target[perm_round[i]]`.
pub fn round_perm(target: &[u8; 16], perm_round: &[usize; 16]) -> (r: [u8; 16])
    requires
        indexes_block(perm_round@),
    ensures
        r@ == permute(target@, perm_round@),
{
    let mut out: [u8; 16] = [0; 16];
    let mut idx: usize = 0;
    while idx < 16
        invariant
            idx <= 16,
            indexes_block(perm_round@),
            forall|j: int| 0 <= j < idx ==> out[j] == target[perm_round[j] as int],
        decreases 16 - idx,
    {
        out[idx] = target[perm_round[idx]];
        idx = idx + 1;
    }
    assert(out@ =~= permute(target@, perm_round@));
    out
}

/// One forward round: adds the round key, then permutes.
pub fn round_subroutine(target: &[u8; 16], add_round_key: &[u8; 16], perm: &[usize; 16]) -> (r:
    [u8; 16])
    requires
        indexes_block(perm@),
    ensures
        r@ == forward_round(target@, add_round_key@, perm@),
{
    let tmp = round_add(target, add_round_key);
    round_perm(&tmp, perm)
}

/// One backward round: permutes by the inverse permutation, then subtracts the
/// round key.
pub fn inv_round_subroutine(target: &[u8; 16], add_round_key: &[u8; 16], invperm: &[usize; 16]) -> (r:
    [u8; 16])
    requires
        indexes_block(invperm@),
    ensures
        r@ == backward_round(target@, add_round_key@, invperm@),
{
    let tmp = round_perm(target, invperm);
    round_sub(&tmp, add_round_key)
}

/// The bytewise exclusive or of two arrays.
pub fn array_bitxor<const N: usize>(lhs: &[u8; N], rhs: &[u8; N]) -> (r: [u8; N])
    ensures
        forall|i: int| 0 <= i < N ==> #[trigger] r[i] == lhs[i] ^ rhs[i],
{
    let mut out: [u8; N] = [0; N];
    let mut i: usize = 0;
    while i < N
        invariant
            i <= N,
            forall|j: int| 0 <= j < i ==> #[trigger] out[j] == lhs[j] ^ rhs[j],
        decreases N - i,
    {
        out[i] = lhs[i] ^ rhs[i];
        i = i + 1;
    }
    out
}

} // verus!
