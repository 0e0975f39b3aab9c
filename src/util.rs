//! Chunking text into padded blocks and back, little-endian words, and
//! drawing random bytes, blocks and keys.
use vstd::prelude::*;
use rand::rngs::ThreadRng;
use rand::RngCore;
use vstd::string::StringSliceAdditionalSpecFns;

verus! {

/// The byte that fills out the last block of a text: ASCII `=`.
pub const PAD_BYTE: u8 = 0x3D;

/// The integer that eight bytes denote, least significant first.
pub open spec fn le_u64(b: Seq<u8>) -> int {
    b[0] + b[1] * 0x100 + b[2] * 0x1_0000 + b[3] * 0x100_0000 + b[4] * 0x1_0000_0000 + b[5]
        * 0x100_0000_0000 + b[6] * 0x1_0000_0000_0000 + b[7] * 0x100_0000_0000_0000
}

/// How many padding bytes bring `n` up to a multiple of 16.
pub open spec fn pad_len(n: nat) -> nat {
    if n % 16 == 0 {
        0
    } else {
        (16 - n % 16) as nat
    }
}

/// `b` followed by `=` bytes up to the next multiple of 16.
pub open spec fn padded(b: Seq<u8>) -> Seq<u8> {
    b + Seq::new(pad_len(b.len()), |i: int| PAD_BYTE)
}

/// `b` cut into consecutive sixteen-byte pieces; a shorter tail is dropped.
pub open spec fn chunks16(b: Seq<u8>) -> Seq<Seq<u8>> {
    Seq::new(b.len() / 16, |i: int| b.subrange(16 * i, 16 * i + 16))
}

/// The blocks that a text of bytes `b` is cut into.
pub open spec fn text_blocks(b: Seq<u8>) -> Seq<Seq<u8>> {
    chunks16(padded(b))
}

/// The contents of each block of `v`.
pub open spec fn blocks_view(v: Seq<[u8; 16]>) -> Seq<Seq<u8>> {
    v.map_values(|b: [u8; 16]| b@)
}

/// What `String::from_utf8_lossy` makes of the bytes `b`.
pub uninterp spec fn lossy_utf8(b: Seq<u8>) -> Seq<char>;

/// The texts of the blocks of `bs`, one after another.
pub open spec fn joined_text(bs: Seq<Seq<u8>>) -> Seq<char>
    decreases bs.len(),
{
    if bs.len() == 0 {
        Seq::empty()
    } else {
        joined_text(bs.drop_last()) + lossy_utf8(bs.last())
    }
}

/// The blocks of `bs`, one after another.
pub open spec fn flatten_blocks(bs: Seq<Seq<u8>>) -> Seq<u8>
    decreases bs.len(),
{
    if bs.len() == 0 {
        Seq::empty()
    } else {
        flatten_blocks(bs.drop_last()) + bs.last()
    }
}

/// The characters that ASCII bytes stand for.
pub open spec fn ascii_chars(b: Seq<u8>) -> Seq<char> {
    Seq::new(b.len(), |i: int| b[i] as char)
}

/// Every byte of `b` is ASCII.
pub open spec fn all_ascii(b: Seq<u8>) -> bool {
    forall|i: int| 0 <= i < b.len() ==> #[trigger] b[i] < 128
}

/// Every prefix of a run of ASCII blocks is ASCII.
proof fn lemma_ascii_prefixes(bs: Seq<Seq<u8>>)
    ensures
        all_ascii(flatten_blocks(bs)) ==> forall|j: int|
            0 <= j <= bs.len() ==> #[trigger] all_ascii(flatten_blocks(bs.subrange(0, j))),
    decreases bs.len(),
{
    if bs.len() > 0 && all_ascii(flatten_blocks(bs)) {
        let init = bs.drop_last();
        let f = flatten_blocks(bs);
        assert(all_ascii(flatten_blocks(init))) by {
            assert forall|k: int| 0 <= k < flatten_blocks(init).len() implies #[trigger] flatten_blocks(init)[k] < 128 by {
                assert(f[k] == flatten_blocks(init)[k]);
            }
        }
        lemma_ascii_prefixes(init);
        assert forall|j: int| 0 <= j <= bs.len() implies #[trigger] all_ascii(
            flatten_blocks(bs.subrange(0, j)),
        ) by {
            if j == bs.len() {
                assert(bs.subrange(0, j) =~= bs);
            } else {
                assert(bs.subrange(0, j) =~= init.subrange(0, j));
            }
        }
    }
}

/// Cutting padded bytes into blocks and joining the blocks again gives the
/// padded bytes: a text is filled out with `=` up to the next multiple of 16,
/// and nothing of that padding is dropped on the way back.
pub proof fn lemma_padding_kept(b: Seq<u8>)
    ensures
        flatten_blocks(text_blocks(b)) == padded(b),
        padded(b).len() % 16 == 0,
        b.len() <= padded(b).len() < b.len() + 16,
        padded(b).subrange(0, b.len() as int) == b,
        forall|i: int| b.len() <= i < padded(b).len() ==> #[trigger] padded(b)[i] == PAD_BYTE,
{
    let p = padded(b);
    assert(p.len() % 16 == 0);
    lemma_flatten_chunks(p);
    assert(p.subrange(0, b.len() as int) =~= b);
}

/// Joining the sixteen-byte pieces of `p` gives `p` back when its length is a
/// multiple of 16.
proof fn lemma_flatten_chunks(p: Seq<u8>)
    requires
        p.len() % 16 == 0,
    ensures
        flatten_blocks(chunks16(p)) == p,
    decreases p.len(),
{
    if p.len() > 0 {
        let q = p.subrange(0, p.len() - 16);
        lemma_flatten_chunks(q);
        let c = chunks16(p);
        let m = p.len() / 16;
        assert(p.len() == 16 * m);
        assert(q.len() / 16 == m - 1);
        assert forall|i: int| 0 <= i < m - 1 implies #[trigger] c.drop_last()[i] == chunks16(q)[i] by {
            assert(c.drop_last()[i] =~= chunks16(q)[i]);
        }
        assert(c.drop_last() =~= chunks16(q));
        assert(c.last() =~= p.subrange(p.len() - 16, p.len() as int));
        assert(flatten_blocks(c) =~= p);
    } else {
        assert(chunks16(p) =~= Seq::<Seq<u8>>::empty());
        assert(p =~= Seq::<u8>::empty());
    }
}

/// Relies on `String::from_utf8_lossy`: the text depends on the bytes alone,
/// and bytes that are valid UTF-8, as ASCII bytes are, come back as the
/// characters they encode.
#[verifier::external_body]
fn lossy_text(b: &[u8; 16]) -> (r: String)
    ensures
        r@ == lossy_utf8(b@),
        all_ascii(b@) ==> r@ == ascii_chars(b@),
{
    String::from_utf8_lossy(b).into_owned()
}

/// Relies on `String::push_str`: appends `s` to `out`.
#[verifier::external_body]
fn push_text(out: &mut String, s: &String)
    ensures
        final(out)@ == old(out)@ + s@,
{
    out.push_str(s)
}

/// Relies on `rand::thread_rng`: a handle on the thread's random generator.
#[verifier::external_body]
fn thread_rng() -> (r: ThreadRng) {
    rand::thread_rng()
}

/// Relies on `RngCore::next_u32` of `ThreadRng`: any 32-bit value.
#[verifier::external_body]
fn draw_u32(rng: &mut ThreadRng) -> (r: u32) {
    rng.next_u32()
}

#[verifier::external_type_specification]
#[verifier::external_body]
pub struct ExThreadRng(ThreadRng);

/// The low byte of a 32-bit draw.
pub fn low_byte(x: u32) -> (r: u8)
    ensures
        r == x % 256,
{
    (x % 256) as u8
}

/// A random byte: the low byte of a 32-bit draw.
pub fn next_u8(rng: &mut ThreadRng) -> u8 {
    low_byte(draw_u32(rng))
}

/// `size` random bytes, drawn one at a time.
pub fn gen_rand_text_slower(size: usize) -> (r: Vec<u8>)
    ensures
        r.len() == size,
{
    let mut out: Vec<u8> = Vec::with_capacity(size);
    let mut rng = thread_rng();
    let mut i: usize = 0;
    while i < size
        invariant
            i <= size,
            out.len() == i,
        decreases size - i,
    {
        out.push(next_u8(&mut rng));
        i = i + 1;
    }
    out
}

/// `size` random bytes.
pub fn gen_rand_text_med(size: usize) -> (r: Vec<u8>)
    ensures
        r.len() == size,
{
    let mut rng = thread_rng();
    let mut out: Vec<u8> = Vec::new();
    let mut i: usize = 0;
    while i < size
        invariant
            i <= size,
            out.len() == i,
        decreases size - i,
    {
        out.push(next_u8(&mut rng));
        i = i + 1;
    }
    out
}

/// A block of random bytes.
pub fn gen_rand_block(rng: &mut ThreadRng) -> [u8; 16] {
    let mut out: [u8; 16] = [1; 16];
    let mut i: usize = 0;
    while i < 16
        invariant
            i <= 16,
        decreases 16 - i,
    {
        out[i] = next_u8(rng);
        i = i + 1;
    }
    out
}

/// A key of random bytes.
pub fn gen_rand_key(rng: &mut ThreadRng) -> [u8; 64] {
    let mut out: [u8; 64] = [1; 64];
    let mut i: usize = 0;
    while i < 64
        invariant
            i <= 64,
        decreases 64 - i,
    {
        out[i] = next_u8(rng);
        i = i + 1;
    }
    out
}

/// `num_blocks` blocks of random bytes.
pub fn gen_rand_text_blocks(num_blocks: usize) -> (r: Vec<[u8; 16]>)
    ensures
        r.len() == num_blocks,
{
    let mut rng = thread_rng();
    let mut out: Vec<[u8; 16]> = Vec::with_capacity(num_blocks);
    let mut i: usize = 0;
    while i < num_blocks
        invariant
            i <= num_blocks,
            out.len() == i,
        decreases num_blocks - i,
    {
        out.push(gen_rand_block(&mut rng));
        i = i + 1;
    }
    out
}

/// Cuts the bytes of `input` into blocks, filling out the last one with `=`.
pub fn string_to_blocks(input: &str) -> (r: Vec<[u8; 16]>)
    ensures
        blocks_view(r@) == text_blocks(input.spec_bytes()),
{
    let bytes = input.as_bytes();
    let n = bytes.len();
    let ghost p = padded(bytes@);
    let nblocks: usize = if n % 16 == 0 {
        n / 16
    } else {
        n / 16 + 1
    };
    assert(p.len() == 16 * nblocks);
    let mut out: Vec<[u8; 16]> = Vec::new();
    let mut b: usize = 0;
    while b < nblocks
        invariant
            n == bytes@.len(),
            p == padded(bytes@),
            p.len() == 16 * nblocks,
            b <= nblocks,
            out.len() == b,
            forall|i: int| 0 <= i < b ==> (#[trigger] out[i])@ == p.subrange(16 * i, 16 * i + 16),
        decreases nblocks - b,
    {
        let mut block: [u8; 16] = [PAD_BYTE; 16];
        let start: usize = 16 * b;
        let mut j: usize = 0;
        while j < 16
            invariant
                n == bytes@.len(),
                p == padded(bytes@),
                p.len() == 16 * nblocks,
                b < nblocks,
                start == 16 * b,
                j <= 16,
                forall|l: int| 0 <= l < j ==> block[l] == p[start + l],
            decreases 16 - j,
        {
            if j < n - start {
                block[j] = bytes[start + j];
            } else {
                block[j] = PAD_BYTE;
            }
            j = j + 1;
        }
        assert(block@ =~= p.subrange(16 * b, 16 * b + 16));
        out.push(block);
        b = b + 1;
    }
    assert(blocks_view(out@) =~= text_blocks(bytes@));
    out
}

/// Joins the blocks into one text, each block read as UTF-8 with invalid
/// bytes replaced; padding is kept. Blocks of ASCII bytes come back as
/// exactly those characters.
pub fn blocks_to_string(input: &Vec<[u8; 16]>) -> (r: String)
    ensures
        r@ == joined_text(blocks_view(input@)),
        all_ascii(flatten_blocks(blocks_view(input@))) ==> r@ == ascii_chars(
            flatten_blocks(blocks_view(input@)),
        ),
{
    let mut out = String::new();
    let mut i: usize = 0;
    proof {
        lemma_ascii_prefixes(blocks_view(input@));
    }
    while i < input.len()
        invariant
            i <= input.len(),
            out@ == joined_text(blocks_view(input@.subrange(0, i as int))),
            all_ascii(flatten_blocks(blocks_view(input@))) ==> forall|j: int|
                0 <= j <= input.len() ==> #[trigger] all_ascii(
                    flatten_blocks(blocks_view(input@).subrange(0, j)),
                ),
            all_ascii(flatten_blocks(blocks_view(input@))) ==> out@ == ascii_chars(
                flatten_blocks(blocks_view(input@.subrange(0, i as int))),
            ),
        decreases input.len() - i,
    {
        let s = lossy_text(&input[i]);
        let ghost prev = out@;
        push_text(&mut out, &s);
        proof {
            let bs = blocks_view(input@.subrange(0, i + 1));
            assert(bs.drop_last() =~= blocks_view(input@.subrange(0, i as int)));
            assert(bs =~= blocks_view(input@).subrange(0, i + 1));
            if all_ascii(flatten_blocks(blocks_view(input@))) {
                let f = flatten_blocks(bs);
                assert(all_ascii(f));
                assert(f == flatten_blocks(bs.drop_last()) + input[i as int]@);
                assert(all_ascii(input[i as int]@)) by {
                    let pre = flatten_blocks(bs.drop_last()).len();
                    assert forall|k: int| 0 <= k < input[i as int]@.len() implies #[trigger] input[i as int]@[k] < 128 by {
                        assert(f[pre + k] == input[i as int]@[k]);
                    }
                }
                assert(out@ =~= ascii_chars(f));
            }
        }
        i = i + 1;
    }
    assert(input@.subrange(0, input.len() as int) =~= input@);
    out
}

} // verus!
