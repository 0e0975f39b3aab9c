//! Construction A: three rounds whose keys and permutations are sliced
//! directly out of the 64-byte key.
use vstd::prelude::*;
use vstd::string::StringSliceAdditionalSpecFns;
use rayon::prelude::{IntoParallelRefIterator, ParallelIterator};
use crate::perm::{
    compose, compose_perm, inverse, invert_perm, is_perm, ithPermutation, lemma_compose_is_perm,
    lemma_fact_values, lemma_inverse, lemma_rank_decodes_to_perm, perm_of_rank, FAC_16,
};
use crate::util::{blocks_to_string, blocks_view, joined_text, le_u64, string_to_blocks, text_blocks};
use crate::round::{
    backward_round, forward_round, indexes_block, inv_round_subroutine, lemma_round_trip,
    round_subroutine,
};

verus! {

/// The sixteen key bytes that start at `lo`.
pub open spec fn key_segment(k: Seq<u8>, lo: int) -> Seq<u8> {
    k.subrange(lo, lo + 16)
}

/// The permutation selected by the eight key bytes that start at `lo`: their
/// little-endian value, reduced modulo `16!`, decoded.
pub open spec fn selected_perm(k: Seq<u8>, lo: int) -> Seq<usize> {
    perm_of_rank((le_u64(k.subrange(lo, lo + 8)) % (FAC_16 as int)) as nat, 16)
}

/// The first permutation of construction A, chosen by bytes `48..56`.
pub open spec fn perm_a1(k: Seq<u8>) -> Seq<usize> {
    selected_perm(k, 48)
}

/// The second permutation of construction A, chosen by bytes `56..64`.
pub open spec fn perm_a2(k: Seq<u8>) -> Seq<usize> {
    selected_perm(k, 56)
}

/// The third permutation of construction A: the second, then the first.
pub open spec fn perm_a3(k: Seq<u8>) -> Seq<usize> {
    compose(perm_a1(k), perm_a2(k))
}

/// Construction A's encryption of block `b` under key `k`.
pub open spec fn encrypt_a(b: Seq<u8>, k: Seq<u8>) -> Seq<u8> {
    let x1 = forward_round(b, key_segment(k, 0), perm_a1(k));
    let x2 = forward_round(x1, key_segment(k, 16), perm_a2(k));
    forward_round(x2, key_segment(k, 32), perm_a3(k))
}

/// Construction A's decryption of block `y` under key `k`.
pub open spec fn decrypt_a(y: Seq<u8>, k: Seq<u8>) -> Seq<u8> {
    let x2 = backward_round(y, key_segment(k, 32), inverse(perm_a3(k)));
    let x1 = backward_round(x2, key_segment(k, 16), inverse(perm_a2(k)));
    backward_round(x1, key_segment(k, 0), inverse(perm_a1(k)))
}

/// The permutations that a 64-byte key selects are bijections of `0..16`.
pub proof fn lemma_selected_perms(k: Seq<u8>, lo: int)
    requires
        k.len() == 64,
        0 <= lo <= 56,
    ensures
        selected_perm(k, lo).len() == 16,
        is_perm(selected_perm(k, lo)),
        indexes_block(selected_perm(k, lo)),
{
    lemma_fact_values();
    let s = k.subrange(lo, lo + 8);
    assert(le_u64(s) >= 0);
    lemma_rank_decodes_to_perm((le_u64(s) % (FAC_16 as int)) as nat, 16);
}

/// Construction A's permutations are bijections of `0..16`.
pub proof fn lemma_perms_a(k: Seq<u8>)
    requires
        k.len() == 64,
    ensures
        is_perm(perm_a1(k)) && perm_a1(k).len() == 16,
        is_perm(perm_a2(k)) && perm_a2(k).len() == 16,
        is_perm(perm_a3(k)) && perm_a3(k).len() == 16,
        is_perm(inverse(perm_a1(k))) && inverse(perm_a1(k)).len() == 16,
        is_perm(inverse(perm_a2(k))) && inverse(perm_a2(k)).len() == 16,
        is_perm(inverse(perm_a3(k))) && inverse(perm_a3(k)).len() == 16,
{
    lemma_selected_perms(k, 48);
    lemma_selected_perms(k, 56);
    lemma_compose_is_perm(perm_a1(k), perm_a2(k));
    lemma_inverse(perm_a1(k));
    lemma_inverse(perm_a2(k));
    lemma_inverse(perm_a3(k));
}

/// Decrypting what construction A encrypted under the same key gives the
/// block back, for every block and every key.
pub proof fn lemma_three_perm_round_trip(b: Seq<u8>, k: Seq<u8>)
    requires
        b.len() == 16,
        k.len() == 64,
    ensures
        decrypt_a(encrypt_a(b, k), k) == b,
{
    lemma_perms_a(k);
    let x1 = forward_round(b, key_segment(k, 0), perm_a1(k));
    let x2 = forward_round(x1, key_segment(k, 16), perm_a2(k));
    lemma_round_trip(x2, key_segment(k, 32), perm_a3(k));
    lemma_round_trip(x1, key_segment(k, 16), perm_a2(k));
    lemma_round_trip(b, key_segment(k, 0), perm_a1(k));
}

/// Reads the eight key bytes at `off` as a little-endian integer.
pub fn read_u64_le(key: &[u8; 64], off: usize) -> (r: u64)
    requires
        off + 8 <= 64,
    ensures
        r == le_u64(key@.subrange(off as int, off + 8)),
{
    (key[off] as u64) + (key[off + 1] as u64) * 0x100 + (key[off + 2] as u64) * 0x1_0000 + (key[off
        + 3] as u64) * 0x100_0000 + (key[off + 4] as u64) * 0x1_0000_0000 + (key[off + 5] as u64)
        * 0x100_0000_0000 + (key[off + 6] as u64) * 0x1_0000_0000_0000 + (key[off + 7] as u64)
        * 0x100_0000_0000_0000
}

/// Copies the sixteen key bytes at `off`.
pub fn segment(key: &[u8; 64], off: usize) -> (r: [u8; 16])
    requires
        off + 16 <= 64,
    ensures
        r@ == key_segment(key@, off as int),
{
    let mut out: [u8; 16] = [0; 16];
    let mut i: usize = 0;
    while i < 16
        invariant
            i <= 16,
            off + 16 <= 64,
            forall|j: int| 0 <= j < i ==> out[j] == key[off + j],
        decreases 16 - i,
    {
        out[i] = key[off + i];
        i = i + 1;
    }
    assert(out@ =~= key_segment(key@, off as int));
    out
}

/// Decodes the permutation that the eight key bytes at `off` select.
pub fn select_perm(key: &[u8; 64], off: usize) -> (r: [usize; 16])
    requires
        off + 8 <= 64,
    ensures
        r@ == selected_perm(key@, off as int),
        is_perm(r@),
        indexes_block(r@),
{
    proof {
        lemma_fact_values();
        lemma_selected_perms(key@, off as int);
    }
    let rank = read_u64_le(key, off) % FAC_16;
    ithPermutation::<16>(rank)
}

/// Encrypts one block with construction A: three rounds of adding a key
/// segment and permuting.
pub fn three_perm_enc(target: &[u8; 16], key: &[u8; 64]) -> (r: [u8; 16])
    ensures
        r@ == encrypt_a(target@, key@),
{
    let a1 = segment(key, 0);
    let a2 = segment(key, 16);
    let a3 = segment(key, 32);
    let perm1 = select_perm(key, 48);
    let perm2 = select_perm(key, 56);
    let perm3 = compose_perm(&perm1, &perm2);
    proof {
        lemma_perms_a(key@);
    }
    let tmp = round_subroutine(target, &a1, &perm1);
    let tmp = round_subroutine(&tmp, &a2, &perm2);
    round_subroutine(&tmp, &a3, &perm3)
}

/// Decrypts one block with construction A: the inverse rounds in reverse
/// order.
pub fn three_perm_dec(target: &[u8; 16], key: &[u8; 64]) -> (r: [u8; 16])
    ensures
        r@ == decrypt_a(target@, key@),
{
    let a1 = segment(key, 0);
    let a2 = segment(key, 16);
    let a3 = segment(key, 32);
    let perm1 = select_perm(key, 48);
    let perm2 = select_perm(key, 56);
    let perm3 = compose_perm(&perm1, &perm2);
    proof {
        lemma_perms_a(key@);
    }
    let inv_perm1 = invert_perm(&perm1);
    let inv_perm2 = invert_perm(&perm2);
    let inv_perm3 = invert_perm(&perm3);
    let tmp = inv_round_subroutine(target, &a3, &inv_perm3);
    let tmp = inv_round_subroutine(&tmp, &a2, &inv_perm2);
    inv_round_subroutine(&tmp, &a1, &inv_perm1)
}

/// Construction A's encryption of each block of `bs`.
pub open spec fn encrypt_all_a(bs: Seq<Seq<u8>>, k: Seq<u8>) -> Seq<Seq<u8>> {
    bs.map_values(|b: Seq<u8>| encrypt_a(b, k))
}

/// Construction A's decryption of each block of `bs`.
pub open spec fn decrypt_all_a(bs: Seq<Seq<u8>>, k: Seq<u8>) -> Seq<Seq<u8>> {
    bs.map_values(|b: Seq<u8>| decrypt_a(b, k))
}

/// Encrypts each block with construction A, in order.
pub fn enc_blocks(input: &Vec<[u8; 16]>, key: &[u8; 64]) -> (r: Vec<[u8; 16]>)
    ensures
        blocks_view(r@) == encrypt_all_a(blocks_view(input@), key@),
{
    let mut out: Vec<[u8; 16]> = Vec::with_capacity(input.len());
    let mut i: usize = 0;
    while i < input.len()
        invariant
            i <= input.len(),
            out.len() == i,
            forall|j: int| 0 <= j < i ==> (#[trigger] out[j])@ == encrypt_a(input[j]@, key@),
        decreases input.len() - i,
    {
        out.push(three_perm_enc(&input[i], key));
        i = i + 1;
    }
    assert(blocks_view(out@) =~= encrypt_all_a(blocks_view(input@), key@));
    out
}

/// Decrypts each block with construction A, in order.
pub fn dec_blocks(input: &Vec<[u8; 16]>, key: &[u8; 64]) -> (r: Vec<[u8; 16]>)
    ensures
        blocks_view(r@) == decrypt_all_a(blocks_view(input@), key@),
{
    let mut out: Vec<[u8; 16]> = Vec::with_capacity(input.len());
    let mut i: usize = 0;
    while i < input.len()
        invariant
            i <= input.len(),
            out.len() == i,
            forall|j: int| 0 <= j < i ==> (#[trigger] out[j])@ == decrypt_a(input[j]@, key@),
        decreases input.len() - i,
    {
        out.push(three_perm_dec(&input[i], key));
        i = i + 1;
    }
    assert(blocks_view(out@) =~= decrypt_all_a(blocks_view(input@), key@));
    out
}

/// Encrypts each block with construction A, the blocks spread over rayon's
/// threads.
///
/// Relies on rayon's `par_iter().map(..).collect()` into a `Vec`: one result
/// per item, in the items' order.
#[verifier::external_body]
pub fn p_enc_blocks(input: &Vec<[u8; 16]>, key: &[u8; 64]) -> (r: Vec<[u8; 16]>)
    ensures
        blocks_view(r@) == encrypt_all_a(blocks_view(input@), key@),
{
    input.par_iter().map(|x| three_perm_enc(x, key)).collect()
}

/// Decrypts each block with construction A, the blocks spread over rayon's
/// threads.
///
/// Relies on rayon's `par_iter().map(..).collect()` into a `Vec`: one result
/// per item, in the items' order.
#[verifier::external_body]
pub fn p_dec_blocks(input: &Vec<[u8; 16]>, key: &[u8; 64]) -> (r: Vec<[u8; 16]>)
    ensures
        blocks_view(r@) == decrypt_all_a(blocks_view(input@), key@),
{
    input.par_iter().map(|x| three_perm_dec(x, key)).collect()
}

/// Encrypts a text with construction A: its bytes padded with `=` to whole
/// blocks, each block encrypted, the results read back as text.
pub fn enc_text(input: &str, key: &[u8; 64]) -> (r: String)
    ensures
        r@ == joined_text(encrypt_all_a(text_blocks(input.spec_bytes()), key@)),
{
    let blocks = string_to_blocks(input);
    let enc = enc_blocks(&blocks, key);
    blocks_to_string(&enc)
}

/// Decrypts a text with construction A: its bytes padded with `=` to whole
/// blocks, each block decrypted, the results read back as text.
pub fn dec_text(input: &str, key: &[u8; 64]) -> (r: String)
    ensures
        r@ == joined_text(decrypt_all_a(text_blocks(input.spec_bytes()), key@)),
{
    let blocks = string_to_blocks(input);
    let dec = dec_blocks(&blocks, key);
    blocks_to_string(&dec)
}

} // verus!
