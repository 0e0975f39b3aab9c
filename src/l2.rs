//! Construction B: four rounds bound to a key, whose permutations are chosen
//! by running products over interleaved key bytes.
use vstd::prelude::*;
use crate::perm::{
    inverse, invert_perm, is_perm, ithPermutation, lemma_fact_values, lemma_inverse,
    lemma_rank_decodes_to_perm, perm_of_rank, FAC_16,
};
use crate::round::{
    backward_round, forward_round, indexes_block, inv_round_subroutine, lemma_round_trip,
    round_subroutine,
};
use crate::l1::{key_segment, segment};

verus! {

/// `2^64`, the modulus of the running products.
pub open spec fn u64_modulus() -> nat {
    0x1_0000_0000_0000_0000
}

/// The product, modulo `2^64`, of the key bytes `k[j], k[j + 4], ...`, the
/// first `t` of them.
pub open spec fn running_product(k: Seq<u8>, j: int, t: nat) -> nat
    decreases t,
{
    if t == 0 {
        1
    } else {
        (running_product(k, j, (t - 1) as nat) * (k[4 * (t - 1) + j] as nat)) % u64_modulus()
    }
}

/// The selector of round `j + 1`: the product of every fourth key byte from
/// offset `j`.
pub open spec fn selector_b(k: Seq<u8>, j: int) -> nat {
    running_product(k, j, 16)
}

/// The permutation of round `j + 1` of construction B.
pub open spec fn perm_b(k: Seq<u8>, j: int) -> Seq<usize> {
    perm_of_rank(selector_b(k, j) % (FAC_16 as nat), 16)
}

/// Construction B's encryption of block `b` under key `k`.
pub open spec fn encrypt_b(b: Seq<u8>, k: Seq<u8>) -> Seq<u8> {
    let x1 = forward_round(b, key_segment(k, 0), perm_b(k, 0));
    let x2 = forward_round(x1, key_segment(k, 16), perm_b(k, 1));
    let x3 = forward_round(x2, key_segment(k, 32), perm_b(k, 2));
    forward_round(x3, key_segment(k, 48), perm_b(k, 3))
}

/// Construction B's decryption of block `y` under key `k`.
pub open spec fn decrypt_b(y: Seq<u8>, k: Seq<u8>) -> Seq<u8> {
    let x3 = backward_round(y, key_segment(k, 48), inverse(perm_b(k, 3)));
    let x2 = backward_round(x3, key_segment(k, 32), inverse(perm_b(k, 2)));
    let x1 = backward_round(x2, key_segment(k, 16), inverse(perm_b(k, 1)));
    backward_round(x1, key_segment(k, 0), inverse(perm_b(k, 0)))
}

/// Construction B's permutations and their inverses are bijections of `0..16`.
pub proof fn lemma_perms_b(k: Seq<u8>, j: int)
    ensures
        is_perm(perm_b(k, j)),
        perm_b(k, j).len() == 16,
        is_perm(inverse(perm_b(k, j))),
        inverse(perm_b(k, j)).len() == 16,
{
    lemma_fact_values();
    lemma_rank_decodes_to_perm(selector_b(k, j) % (FAC_16 as nat), 16);
    lemma_inverse(perm_b(k, j));
}

/// Decrypting what construction B encrypted under the same key gives the
/// block back, for every block and every key.
pub proof fn lemma_l2_round_trip(b: Seq<u8>, k: Seq<u8>)
    requires
        b.len() == 16,
        k.len() == 64,
    ensures
        decrypt_b(encrypt_b(b, k), k) == b,
{
    lemma_perms_b(k, 0);
    lemma_perms_b(k, 1);
    lemma_perms_b(k, 2);
    lemma_perms_b(k, 3);
    let x1 = forward_round(b, key_segment(k, 0), perm_b(k, 0));
    let x2 = forward_round(x1, key_segment(k, 16), perm_b(k, 1));
    let x3 = forward_round(x2, key_segment(k, 32), perm_b(k, 2));
    lemma_round_trip(x3, key_segment(k, 48), perm_b(k, 3));
    lemma_round_trip(x2, key_segment(k, 32), perm_b(k, 2));
    lemma_round_trip(x1, key_segment(k, 16), perm_b(k, 1));
    lemma_round_trip(b, key_segment(k, 0), perm_b(k, 0));
}

/// The four selectors of construction B, in round order.
pub fn selectors_b(key: &[u8; 64]) -> (r: [u64; 4])
    ensures
        forall|j: int| 0 <= j < 4 ==> #[trigger] r[j] == selector_b(key@, j),
{
    let mut p: [u64; 4] = [1; 4];
    let mut t: usize = 0;
    while t < 16
        invariant
            t <= 16,
            forall|j: int| 0 <= j < 4 ==> #[trigger] p[j] == running_product(key@, j, t as nat),
        decreases 16 - t,
    {
        let mut j: usize = 0;
        while j < 4
            invariant
                t < 16,
                j <= 4,
                forall|l: int| 0 <= l < j ==> #[trigger] p[l] == running_product(key@, l, (t + 1) as nat),
                forall|l: int| j <= l < 4 ==> #[trigger] p[l] == running_product(key@, l, t as nat),
            decreases 4 - j,
        {
            p[j] = p[j].wrapping_mul(key[4 * t + j] as u64);
            j = j + 1;
        }
        t = t + 1;
    }
    p
}

/// A block cipher bound to one key. The round keys and permutations are
/// derived once, when the cipher is made.
pub struct L2Cypher {
    key: [u8; 64],
    adds: [[u8; 16]; 4],
    perms: [[usize; 16]; 4],
    inv_perms: [[usize; 16]; 4],
}

impl L2Cypher {
    /// The key the cipher is bound to.
    pub closed spec fn key_view(&self) -> Seq<u8> {
        self.key@
    }

    /// The derived schedule belongs to the key.
    pub closed spec fn wf(&self) -> bool {
        &&& forall|j: int| 0 <= j < 4 ==> (#[trigger] self.adds[j])@ == key_segment(self.key@, 16 * j)
        &&& forall|j: int|
            0 <= j < 4 ==> (#[trigger] self.perms[j])@ == perm_b(self.key@, j) && indexes_block(
                self.perms[j]@,
            )
        &&& forall|j: int|
            0 <= j < 4 ==> (#[trigger] self.inv_perms[j])@ == inverse(perm_b(self.key@, j))
                && indexes_block(self.inv_perms[j]@)
    }

    /// Binds a cipher to `key`.
    pub fn new(key: [u8; 64]) -> (r: Self)
        ensures
            r.key_view() == key@,
            r.wf(),
    {
        let sel = selectors_b(&key);
        let mut adds: [[u8; 16]; 4] = [[0; 16]; 4];
        let mut perms: [[usize; 16]; 4] = [[0; 16]; 4];
        let mut inv_perms: [[usize; 16]; 4] = [[0; 16]; 4];
        let mut j: usize = 0;
        while j < 4
            invariant
                j <= 4,
                forall|l: int| 0 <= l < 4 ==> #[trigger] sel[l] == selector_b(key@, l),
                forall|l: int| 0 <= l < j ==> (#[trigger] adds[l])@ == key_segment(key@, 16 * l),
                forall|l: int|
                    0 <= l < j ==> (#[trigger] perms[l])@ == perm_b(key@, l) && indexes_block(
                        perms[l]@,
                    ),
                forall|l: int|
                    0 <= l < j ==> (#[trigger] inv_perms[l])@ == inverse(perm_b(key@, l))
                        && indexes_block(inv_perms[l]@),
            decreases 4 - j,
        {
            proof {
                lemma_fact_values();
                lemma_perms_b(key@, j as int);
            }
            let perm = ithPermutation::<16>(sel[j] % FAC_16);
            adds[j] = segment(&key, 16 * j);
            inv_perms[j] = invert_perm(&perm);
            perms[j] = perm;
            j = j + 1;
        }
        L2Cypher { key, adds, perms, inv_perms }
    }

    /// Encrypts one block: four rounds of adding a key segment and permuting.
    pub fn encrypt_single_block(&self, input: &[u8; 16]) -> (r: [u8; 16])
        requires
            self.wf(),
        ensures
            r@ == encrypt_b(input@, self.key_view()),
    {
        proof {
            assert(self.adds[0]@ == key_segment(self.key@, 0));
            assert(self.adds[1]@ == key_segment(self.key@, 16));
            assert(self.adds[2]@ == key_segment(self.key@, 32));
            assert(self.adds[3]@ == key_segment(self.key@, 48));
        }
        let tmp = round_subroutine(input, &self.adds[0], &self.perms[0]);
        let tmp = round_subroutine(&tmp, &self.adds[1], &self.perms[1]);
        let tmp = round_subroutine(&tmp, &self.adds[2], &self.perms[2]);
        round_subroutine(&tmp, &self.adds[3], &self.perms[3])
    }

    /// Decrypts one block: the inverse rounds in reverse order.
    pub fn decrypt_single_block(&self, input: &[u8; 16]) -> (r: [u8; 16])
        requires
            self.wf(),
        ensures
            r@ == decrypt_b(input@, self.key_view()),
    {
        proof {
            assert(self.adds[0]@ == key_segment(self.key@, 0));
            assert(self.adds[1]@ == key_segment(self.key@, 16));
            assert(self.adds[2]@ == key_segment(self.key@, 32));
            assert(self.adds[3]@ == key_segment(self.key@, 48));
        }
        let tmp = inv_round_subroutine(input, &self.adds[3], &self.inv_perms[3]);
        let tmp = inv_round_subroutine(&tmp, &self.adds[2], &self.inv_perms[2]);
        let tmp = inv_round_subroutine(&tmp, &self.adds[1], &self.inv_perms[1]);
        inv_round_subroutine(&tmp, &self.adds[0], &self.inv_perms[0])
    }
}

} // verus!
