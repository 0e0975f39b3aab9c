use cypher::l1::{
    dec_blocks, dec_text, enc_blocks, enc_text, p_dec_blocks, p_enc_blocks, read_u64_le,
    three_perm_dec, three_perm_enc,
};
use cypher::l2::{selectors_b, L2Cypher};
use cypher::perm::{compose_perm, fac, invert_perm, ithPermutation, FAC_16};
use cypher::round::{
    array_bitxor, inv_round_subroutine, round_add, round_perm, round_sub, round_subroutine,
};
use cypher::util::{
    blocks_to_string, gen_rand_block, gen_rand_key, gen_rand_text_blocks, gen_rand_text_med,
    gen_rand_text_slower, low_byte, string_to_blocks,
};

fn is_permutation(p: &[usize; 16]) -> bool {
    let mut seen = [false; 16];
    for &v in p.iter() {
        if v >= 16 || seen[v] {
            return false;
        }
        seen[v] = true;
    }
    true
}

fn sample_key(seed: u64) -> [u8; 64] {
    let mut key = [0u8; 64];
    let mut s = seed.wrapping_mul(6364136223846793005).wrapping_add(1442695040888963407);
    for b in key.iter_mut() {
        s = s.wrapping_mul(6364136223846793005).wrapping_add(1442695040888963407);
        *b = (s >> 33) as u8;
    }
    key
}

fn sample_block(seed: u64) -> [u8; 16] {
    let key = sample_key(seed ^ 0xdead_beef);
    let mut b = [0u8; 16];
    b.copy_from_slice(&key[..16]);
    b
}

#[test]
fn factorials() {
    assert_eq!(fac(0), 1);
    assert_eq!(fac(5), 120);
    assert_eq!(fac(16), FAC_16);
    assert_eq!(fac(20), 2432902008176640000);
}

#[test]
fn decode_table_three() {
    let expected = [[0, 1, 2], [0, 2, 1], [1, 0, 2], [1, 2, 0], [2, 0, 1], [2, 1, 0]];
    for (i, e) in expected.iter().enumerate() {
        assert_eq!(ithPermutation::<3>(i as u64), *e);
    }
}

#[test]
fn decode_table_four() {
    let expected = [
        [0, 1, 2, 3], [0, 1, 3, 2], [0, 2, 1, 3], [0, 2, 3, 1], [0, 3, 1, 2], [0, 3, 2, 1],
        [1, 0, 2, 3], [1, 0, 3, 2], [1, 2, 0, 3], [1, 2, 3, 0], [1, 3, 0, 2], [1, 3, 2, 0],
        [2, 0, 1, 3], [2, 0, 3, 1], [2, 1, 0, 3], [2, 1, 3, 0], [2, 3, 0, 1], [2, 3, 1, 0],
        [3, 0, 1, 2], [3, 0, 2, 1], [3, 1, 0, 2], [3, 1, 2, 0], [3, 2, 0, 1], [3, 2, 1, 0],
    ];
    for (i, e) in expected.iter().enumerate() {
        assert_eq!(ithPermutation::<4>(i as u64), *e);
    }
}

#[test]
fn decode_sixteen_pinned() {
    let id: [usize; 16] = [0, 1, 2, 3, 4, 5, 6, 7, 8, 9, 10, 11, 12, 13, 14, 15];
    assert_eq!(ithPermutation::<16>(0), id);
    let rev: [usize; 16] = [15, 14, 13, 12, 11, 10, 9, 8, 7, 6, 5, 4, 3, 2, 1, 0];
    assert_eq!(ithPermutation::<16>(FAC_16 - 1), rev);
    assert_eq!(
        ithPermutation::<16>(123456789),
        [0, 1, 2, 3, 7, 5, 4, 8, 15, 10, 13, 11, 14, 9, 12, 6]
    );
}

#[test]
fn decode_sixteen_gives_permutations() {
    for s in 0..200u64 {
        let rank = s.wrapping_mul(104729_u64 * 1_000_003) % FAC_16;
        assert!(is_permutation(&ithPermutation::<16>(rank)));
    }
}

#[test]
fn invert_twice_and_unpermute() {
    for s in 0..50u64 {
        let p = ithPermutation::<16>(s.wrapping_mul(987654321987) % FAC_16);
        let q = invert_perm(&p);
        assert!(is_permutation(&q));
        assert_eq!(invert_perm(&q), p);
        for k in 0..16 {
            assert_eq!(q[p[k]], k);
        }
        let x = sample_block(s);
        assert_eq!(round_perm(&round_perm(&x, &p), &q), x);
        assert_eq!(compose_perm(&p, &q), ithPermutation::<16>(0));
    }
}

#[test]
fn compose_applies_second_then_first() {
    for s in 0..50u64 {
        let p = ithPermutation::<16>(s.wrapping_mul(31337_u64 * 7919) % FAC_16);
        let q = ithPermutation::<16>((s + 1).wrapping_mul(2718281828459) % FAC_16);
        let h = compose_perm(&p, &q);
        for k in 0..16 {
            assert_eq!(h[k], p[q[k]]);
        }
        let x = sample_block(s);
        assert_eq!(round_perm(&x, &h), round_perm(&round_perm(&x, &p), &q));
    }
}

#[test]
fn add_and_sub_wrap() {
    let x: [u8; 16] = [0, 1, 2, 255, 128, 7, 0, 0, 0, 0, 0, 0, 0, 0, 0, 200];
    let k: [u8; 16] = [1, 255, 3, 1, 128, 0, 0, 0, 0, 0, 0, 0, 0, 0, 0, 100];
    let a = round_add(&x, &k);
    assert_eq!(a, [1, 0, 5, 0, 0, 7, 0, 0, 0, 0, 0, 0, 0, 0, 0, 44]);
    let d = round_sub(&x, &k);
    assert_eq!(d, [255, 2, 255, 254, 0, 7, 0, 0, 0, 0, 0, 0, 0, 0, 0, 100]);
    assert_eq!(round_sub(&a, &k), x);
}

#[test]
fn one_round_and_back() {
    let x = sample_block(3);
    let k = sample_block(4);
    let p = ithPermutation::<16>(777_777_777);
    let y = round_subroutine(&x, &k, &p);
    assert_eq!(y, round_perm(&round_add(&x, &k), &p));
    assert_eq!(inv_round_subroutine(&y, &k, &invert_perm(&p)), x);
}

#[test]
fn bitxor_bytes() {
    let a: [u8; 4] = [0xff, 0x0f, 0x00, 0xaa];
    let b: [u8; 4] = [0x0f, 0x0f, 0x01, 0x55];
    assert_eq!(array_bitxor(&a, &b), [0xf0, 0x00, 0x01, 0xff]);
}

#[test]
fn construction_a_fixture() {
    let key = [1u8; 64];
    let block = [0u8; 16];
    let c = three_perm_enc(&block, &key);
    assert_eq!(c, [3u8; 16]);
    assert_eq!(three_perm_dec(&c, &key), block);
}

#[test]
fn construction_a_pinned() {
    let mut key = [0u8; 64];
    for (i, b) in key.iter_mut().enumerate() {
        *b = i as u8;
    }
    let mut block = [0u8; 16];
    for (i, b) in block.iter_mut().enumerate() {
        *b = 100 + i as u8;
    }
    let c = three_perm_enc(&block, &key);
    assert_eq!(c, [171, 183, 168, 193, 189, 196, 187, 170, 177, 190, 187, 161, 172, 160, 162, 182]);
    assert_eq!(three_perm_dec(&c, &key), block);
}

#[test]
fn construction_b_pinned() {
    let mut key = [0u8; 64];
    for (i, b) in key.iter_mut().enumerate() {
        *b = i as u8;
    }
    let mut block = [0u8; 16];
    for (i, b) in block.iter_mut().enumerate() {
        *b = 100 + i as u8;
    }
    let cy = L2Cypher::new(key);
    let c = cy.encrypt_single_block(&block);
    assert_eq!(c, [228, 230, 243, 226, 212, 223, 234, 242, 230, 209, 3, 215, 249, 236, 253, 247]);
    assert_eq!(cy.decrypt_single_block(&c), block);
    let ones = L2Cypher::new([1u8; 64]);
    assert_eq!(ones.encrypt_single_block(&[0u8; 16]), [4u8; 16]);
}

#[test]
fn round_trips_on_edge_cases() {
    let blocks = [[0u8; 16], [0xffu8; 16], sample_block(9)];
    let keys = [[0u8; 64], [0xffu8; 64], [1u8; 64], sample_key(10)];
    for key in keys.iter() {
        let cy = L2Cypher::new(*key);
        for b in blocks.iter() {
            assert_eq!(three_perm_dec(&three_perm_enc(b, key), key), *b);
            assert_eq!(cy.decrypt_single_block(&cy.encrypt_single_block(b)), *b);
        }
    }
}

#[test]
fn round_trips_on_sampled_inputs() {
    for s in 0..100u64 {
        let key = sample_key(s);
        let b = sample_block(s + 1000);
        assert_eq!(three_perm_dec(&three_perm_enc(&b, &key), &key), b);
        let cy = L2Cypher::new(key);
        assert_eq!(cy.decrypt_single_block(&cy.encrypt_single_block(&b)), b);
    }
}

#[test]
fn selectors_of_policy_b() {
    let mut key = [0u8; 64];
    for (i, b) in key.iter_mut().enumerate() {
        *b = (i * 7 % 256) as u8;
    }
    assert_eq!(
        selectors_b(&key),
        [0, 10635788278892201889, 16161075161911590912, 188171230360252833]
    );
    assert_eq!(selectors_b(&[1u8; 64]), [1, 1, 1, 1]);
}

#[test]
fn single_bit_key_changes_move_selectors() {
    let mut changed_a = 0;
    let mut changed_b = 0;
    let mut total = 0;
    for s in 0..40u64 {
        let key = sample_key(s);
        for bit in 0..8 {
            let byte = 48 + (s as usize % 16);
            let mut flipped = key;
            flipped[byte] ^= 1 << bit;
            total += 1;
            let off = if byte < 56 { 48 } else { 56 };
            if read_u64_le(&key, off) % FAC_16 != read_u64_le(&flipped, off) % FAC_16 {
                changed_a += 1;
            }
            let lane = byte % 4;
            if selectors_b(&key)[lane] % FAC_16 != selectors_b(&flipped)[lane] % FAC_16 {
                changed_b += 1;
            }
        }
    }
    assert!(changed_a * 2 > total);
    assert!(changed_b * 2 > total);
}

#[test]
fn little_endian_selector_bytes() {
    let mut key = [0u8; 64];
    key[48] = 0x01;
    key[49] = 0x02;
    key[55] = 0x80;
    assert_eq!(read_u64_le(&key, 48), 0x8000_0000_0000_0201);
}

#[test]
fn text_is_padded_with_equals() {
    let blocks = string_to_blocks("hello");
    assert_eq!(blocks.len(), 1);
    assert_eq!(&blocks[0], b"hello===========");
    assert_eq!(blocks_to_string(&blocks), "hello===========");
    let twenty = string_to_blocks("abcdefghijklmnopqrst");
    assert_eq!(twenty.len(), 2);
    assert_eq!(&twenty[1], b"qrst============");
    assert_eq!(blocks_to_string(&twenty), "abcdefghijklmnopqrst============");
}

#[test]
fn text_of_whole_blocks_is_not_padded() {
    let blocks = string_to_blocks("0123456789abcdef");
    assert_eq!(blocks.len(), 1);
    assert_eq!(&blocks[0], b"0123456789abcdef");
    assert_eq!(string_to_blocks("").len(), 0);
    assert_eq!(blocks_to_string(&Vec::new()), "");
}

#[test]
fn invalid_utf8_is_replaced() {
    let mut b = [b'a'; 16];
    b[3] = 0xff;
    let s = blocks_to_string(&vec![b]);
    assert_eq!(s, "aaa\u{fffd}aaaaaaaaaaaa");
}

#[test]
fn block_batches_round_trip() {
    let key = sample_key(77);
    let blocks: Vec<[u8; 16]> = (0..20u64).map(sample_block).collect();
    let enc = enc_blocks(&blocks, &key);
    assert_eq!(enc.len(), blocks.len());
    for (c, b) in enc.iter().zip(blocks.iter()) {
        assert_eq!(*c, three_perm_enc(b, &key));
    }
    assert_eq!(dec_blocks(&enc, &key), blocks);
    assert_eq!(p_enc_blocks(&blocks, &key), enc);
    assert_eq!(p_dec_blocks(&enc, &key), blocks);
}

#[test]
fn text_encryption_per_block() {
    let key = [1u8; 64];
    let enc = enc_text("0000000000000000", &key);
    let expected: String = "0000000000000000".chars().map(|c| (c as u8 + 3) as char).collect();
    assert_eq!(enc, expected);
    assert_eq!(dec_text(&enc, &key), "0000000000000000");
    assert_eq!(enc_text("", &key), "");
}

#[test]
fn random_generators_sizes() {
    assert_eq!(gen_rand_text_slower(37).len(), 37);
    assert_eq!(gen_rand_text_med(5).len(), 5);
    assert_eq!(gen_rand_text_blocks(3).len(), 3);
    let mut rng = rand::thread_rng();
    let _b: [u8; 16] = gen_rand_block(&mut rng);
    let _k: [u8; 64] = gen_rand_key(&mut rng);
    assert_eq!(low_byte(0x1234), 0x34);
}
