//! Split-block bloom filter, as specified by the Parquet format.
//!
//! See <https://github.com/apache/parquet-format/blob/master/BloomFilter.md>.
//!
//! The bitset is a flat sequence of 32-byte blocks. A hash selects one block
//! and sets eight bits within it, one per 4-byte word. Because a filter is
//! just a bitset, two filters of equal length built with the same block layout
//! can be merged with a bitwise OR (see [`union_into`]).
//!
//! The `hash` values passed in are used directly: the high 32 bits pick the
//! block and the low 32 bits derive the bit mask. Any well-distributed 64-bit
//! hash is therefore a valid input.
//!
//! Contracts speak of a bitset as the set of its one-bits: bit `n` is bit
//! `n % 8` of byte `n / 8`, so the bits of a little-endian word are numbered
//! in order.

use vstd::prelude::*;

verus! {

/// Size of a single block, in bytes.
pub const BLOCK_BYTES: usize = 32;

/// Multipliers of the eight words of a block, fixed by the Parquet format.
pub const SALT: [u32; 8] = [
    1203114875, 1150766481, 2284105051, 2729912477, 1884591559, 770785867, 2667333959, 1550580529,
];

/// Whether bit `n` of `bytes` is one.
pub open spec fn bit(bytes: Seq<u8>, n: int) -> bool {
    0 <= n < 8 * bytes.len() && (bytes[n / 8] >> ((n % 8) as u8)) & 1 == 1
}

/// Whether bit `b` of the word `word` is one.
pub open spec fn word_bit(word: u32, b: int) -> bool {
    0 <= b < 32 && (word >> (b as u32)) & 1 == 1
}

/// The block that `hash` selects in a bitset of `len` bytes: the high half of
/// the hash, read as a fraction of `2^32`, scaled to the number of blocks.
pub open spec fn block_of(hash: u64, len: nat) -> nat {
    ((hash as nat / 0x1_0000_0000) * (len / 32)) / 0x1_0000_0000
}

/// The bit that the low half `key` of a hash sets in word `w` of its block:
/// the top five bits of the product with the word's multiplier.
pub open spec fn bit_in_word(key: u32, w: int) -> nat {
    ((key as nat * SALT@[w] as nat) % 0x1_0000_0000) / 0x800_0000
}

/// The position in the bitset of the bit that `hash` sets in word `w`.
pub open spec fn bit_position(hash: u64, len: nat, w: int) -> int {
    256 * block_of(hash, len) + 32 * w + bit_in_word((hash % 0x1_0000_0000) as u32, w)
}

/// Whether `n` is one of the eight bits that `hash` sets.
pub open spec fn selects(hash: u64, len: nat, n: int) -> bool {
    exists|w: int| 0 <= w < 8 && n == #[trigger] bit_position(hash, len, w)
}

/// Whether the bitset accepts `hash`: each of its eight bits is one.
pub open spec fn accepts(bytes: Seq<u8>, hash: u64) -> bool {
    forall|w: int| 0 <= w < 8 ==> bit(bytes, #[trigger] bit_position(hash, bytes.len(), w))
}

/// The bitset lengths that a hash can be looked up in: at least one block, and
/// few enough that scaling the hash to the number of blocks stays in 64 bits.
pub open spec fn valid_len(len: nat) -> bool {
    32 <= len && len / 32 <= 0x1_0000_0001
}

proof fn lemma_block_in_range(hash: u64, len: nat)
    requires
        valid_len(len),
    ensures
        block_of(hash, len) < len / 32,
        block_of(hash, len) <= 0xffff_ffff,
        (hash as nat / 0x1_0000_0000) * (len / 32) <= u64::MAX,
{
    let h: int = hash as int / 0x1_0000_0000;
    let n: int = len as int / 32;
    assert(0 <= h <= 0xffff_ffff);
    assert(0 <= h * n <= 0xffff_ffff * n) by (nonlinear_arith)
        requires
            0 <= h <= 0xffff_ffff,
            0 < n,
    ;
    assert((h * n) / 0x1_0000_0000 < n) by {
        assert(h * n < 0x1_0000_0000 * n);
    }
}

/// The block follows the high half of the hash: it depends on nothing else and
/// on the number of blocks, grows with the hash, and reaches from the first
/// block to the last.
pub proof fn law_block_follows_the_hash(a: u64, b: u64, len: nat)
    requires
        32 <= len,
        len / 32 <= 0x1_0000_0000,
    ensures
        block_of(a, len) < len / 32,
        a <= b ==> block_of(a, len) <= block_of(b, len),
        a / 0x1_0000_0000 == b / 0x1_0000_0000 ==> block_of(a, len) == block_of(b, len),
        block_of(a, len) == block_of(a, (len / 32) * 32),
        block_of(0, len) == 0,
        block_of(u64::MAX, len) == len / 32 - 1,
{
    lemma_block_in_range(a, len);
    let n: int = len as int / 32;
    let x: int = a as int / 0x1_0000_0000;
    let y: int = b as int / 0x1_0000_0000;
    if a <= b {
        assert(x * n <= y * n) by (nonlinear_arith)
            requires
                0 <= x <= y,
                0 < n,
        ;
    }
    assert((n * 32) / 32 == n);
    assert(0int * n == 0) by (nonlinear_arith);
    assert(0xffff_ffff * n == (n - 1) * 0x1_0000_0000 + (0x1_0000_0000 - n)) by (nonlinear_arith);
    vstd::arithmetic::div_mod::lemma_fundamental_div_mod_converse(
        0xffff_ffff * n,
        0x1_0000_0000,
        n - 1,
        0x1_0000_0000 - n,
    );
}

/// The block that `hash` selects in a bitset of `len` bytes.
pub fn hash_to_block_index(hash: u64, len: usize) -> (index: usize)
    requires
        valid_len(len as nat),
    ensures
        index == block_of(hash, len as nat),
        32 * index + 32 <= len,
{
    let number_of_blocks: u64 = len as u64 / 32;
    let low_hash: u64 = hash >> 32;
    proof {
        lemma_block_in_range(hash, len as nat);
        assert(hash >> 32 == hash / 0x1_0000_0000) by (bit_vector);
    }
    let scaled: u64 = low_hash * number_of_blocks;
    proof {
        assert(scaled >> 32 == scaled / 0x1_0000_0000) by (bit_vector);
    }
    let block_index: u32 = (scaled >> 32) as u32;
    block_index as usize
}

proof fn lemma_bit_in_word(key: u32, w: int)
    ensures
        bit_in_word(key, w) < 32,
{
}

fn new_mask(x: u32) -> (mask: [u32; 8])
    ensures
        forall|w: int| 0 <= w < 8 ==> #[trigger] mask@[w] == 1u32 << (bit_in_word(x, w) as u32),
{
    let mut a: [u32; 8] = [0u32; 8];
    let mut i: usize = 0;
    while i < 8
        invariant
            i <= 8,
            forall|w: int| 0 <= w < i ==> #[trigger] a@[w] == 1u32 << (bit_in_word(x, w) as u32),
        decreases 8 - i,
    {
        let product: u32 = x.wrapping_mul(SALT[i]);
        let position: u32 = product >> 27;
        proof {
            assert(product >> 27 == product / 0x800_0000 && product >> 27 < 32) by (bit_vector);
            assert(product == (x as nat * SALT@[i as int] as nat) % 0x1_0000_0000);
        }
        a[i] = 1u32 << position;
        i = i + 1;
    }
    a
}

/// The little-endian word made of four bytes.
spec fn le_word(b0: u8, b1: u8, b2: u8, b3: u8) -> u32 {
    b0 as u32 | ((b1 as u32) << 8u32) | ((b2 as u32) << 16u32) | ((b3 as u32) << 24u32)
}

proof fn lemma_le_word_bits(b0: u8, b1: u8, b2: u8, b3: u8, b: u32)
    requires
        b < 32,
    ensures
        (le_word(b0, b1, b2, b3) >> b) & 1 == ((if b < 8 {
            b0
        } else if b < 16 {
            b1
        } else if b < 24 {
            b2
        } else {
            b3
        }) >> ((b % 8) as u8)) & 1,
{
    assert((((b0 as u32 | ((b1 as u32) << 8u32) | ((b2 as u32) << 16u32) | ((b3 as u32) << 24u32))
        >> b) & 1) == (((if b < 8 {
        b0
    } else if b < 16 {
        b1
    } else if b < 24 {
        b2
    } else {
        b3
    }) >> ((b % 8) as u8)) & 1)) by (bit_vector)
        requires
            b < 32,
    ;
}

/// Loads a block from the bitset to the stack.
fn load_block(bitset: &[u8]) -> (block: [u32; 8])
    requires
        bitset@.len() >= 32,
    ensures
        forall|w: int, b: int|
            0 <= w < 8 && 0 <= b < 32 ==> #[trigger] word_bit(block@[w], b) == bit(
                bitset@,
                32 * w + b,
            ),
{
    let mut block: [u32; 8] = [0u32; 8];
    let mut i: usize = 0;
    while i < 8
        invariant
            i <= 8,
            bitset@.len() >= 32,
            forall|w: int, b: int|
                0 <= w < i && 0 <= b < 32 ==> #[trigger] word_bit(block@[w], b) == bit(
                    bitset@,
                    32 * w + b,
                ),
        decreases 8 - i,
    {
        let b0: u8 = bitset[4 * i];
        let b1: u8 = bitset[4 * i + 1];
        let b2: u8 = bitset[4 * i + 2];
        let b3: u8 = bitset[4 * i + 3];
        let word: u32 = b0 as u32 | ((b1 as u32) << 8u32) | ((b2 as u32) << 16u32) | ((b3 as u32)
            << 24u32);
        let ghost before = block@;
        block[i] = word;
        proof {
            assert forall|w: int, b: int| 0 <= w < i + 1 && 0 <= b < 32 implies #[trigger] word_bit(
                block@[w],
                b,
            ) == bit(bitset@, 32 * w + b) by {
                if w == i {
                    lemma_le_word_bits(b0, b1, b2, b3, b as u32);
                    assert((32 * w + b) / 8 == 4 * i + b / 8);
                    assert((32 * w + b) % 8 == b % 8);
                } else {
                    assert(word_bit(before[w], b) == bit(bitset@, 32 * w + b));
                }
            }
        }
        i = i + 1;
    }
    block
}

proof fn lemma_word_byte_bit(word: u32, shift: u32, c: u8, b: u32)
    requires
        shift <= 24,
        c < 8,
        b == shift + c,
    ensures
        (((word >> shift) as u8) >> c) & 1 == 1 <==> (word >> b) & 1 == 1,
{
    assert((((word >> shift) as u8) >> c) & 1 == 1 <==> (word >> b) & 1 == 1) by (bit_vector)
        requires
            shift <= 24,
            c < 8,
            b == shift + c,
    ;
}

/// Stores a block from the stack into the bitset.
fn store_block(block: [u32; 8], bitset: &mut [u8])
    requires
        old(bitset)@.len() == 32,
    ensures
        final(bitset)@.len() == 32,
        forall|w: int, b: int|
            0 <= w < 8 && 0 <= b < 32 ==> #[trigger] word_bit(block@[w], b) == bit(
                final(bitset)@,
                32 * w + b,
            ),
{
    let mut k: usize = 0;
    while k < 32
        invariant
            k <= 32,
            bitset@.len() == 32,
            forall|j: int|
                0 <= j < k ==> #[trigger] bitset@[j] == ((block@[j / 4] >> ((8 * (j % 4)) as u32))
                    as u8),
        decreases 32 - k,
    {
        let shift: u32 = 8 * ((k % 4) as u32);
        bitset[k] = (block[k / 4] >> shift) as u8;
        k = k + 1;
    }
    proof {
        assert forall|w: int, b: int| 0 <= w < 8 && 0 <= b < 32 implies #[trigger] word_bit(
            block@[w],
            b,
        ) == bit(bitset@, 32 * w + b) by {
            let n = 32 * w + b;
            assert(n / 8 == 4 * w + b / 8);
            assert(n % 8 == b % 8);
            assert((4 * w + b / 8) / 4 == w);
            assert((4 * w + b / 8) % 4 == b / 8);
            lemma_word_byte_bit(block@[w], (8 * (b / 8)) as u32, (b % 8) as u8, b as u32);
        }
    }
}

proof fn lemma_mask_bits(b: u32)
    requires
        b < 32,
    ensures
        forall|word: u32| #[trigger] ((1u32 << b) & word) == 0 <==> !((word >> b) & 1 == 1),
        forall|word: u32, c: u32|
            c < 32 ==> (#[trigger] ((word | (1u32 << b)) >> c) & 1 == 1 <==> (word >> c) & 1 == 1 || c
                == b),
{
    assert forall|word: u32| #[trigger] ((1u32 << b) & word) == 0 <==> !((word >> b) & 1 == 1) by {
        assert(((1u32 << b) & word) == 0 <==> !((word >> b) & 1 == 1)) by (bit_vector)
            requires
                b < 32,
        ;
    }
    assert forall|word: u32, c: u32| c < 32 implies (#[trigger] ((word | (1u32 << b)) >> c) & 1 == 1
        <==> (word >> c) & 1 == 1 || c == b) by {
        assert(((word | (1u32 << b)) >> c) & 1 == 1 <==> (word >> c) & 1 == 1 || c == b)
            by (bit_vector)
            requires
                b < 32,
                c < 32,
        ;
    }
}

/// The bits of a block are the bits of the bitset at the block's place.
proof fn lemma_block_bit(bytes: Seq<u8>, block: int, m: int)
    requires
        0 <= block,
        32 * block + 32 <= bytes.len(),
        0 <= m < 256,
    ensures
        bit(bytes.subrange(32 * block, 32 * block + 32), m) == bit(bytes, 256 * block + m),
{
    assert((256 * block + m) / 8 == 32 * block + m / 8);
    assert((256 * block + m) % 8 == m % 8);
}

/// Returns whether the `hash` is in the set.
pub fn is_in_set(bitset: &[u8], hash: u64) -> (found: bool)
    requires
        valid_len(bitset@.len()),
    ensures
        found == accepts(bitset@, hash),
{
    let block_index: usize = hash_to_block_index(hash, bitset.len());
    let key: u32 = (hash & 0xffff_ffff) as u32;
    assert(hash & 0xffff_ffff == hash % 0x1_0000_0000) by (bit_vector);

    let mask: [u32; 8] = new_mask(key);
    let slice: &[u8] = &bitset[block_index * 32..(block_index + 1) * 32];
    let block_mask: [u32; 8] = load_block(slice);

    let mut i: usize = 0;
    while i < 8
        invariant
            i <= 8,
            32 * block_index + 32 <= bitset@.len(),
            block_index == block_of(hash, bitset@.len()),
            key == (hash % 0x1_0000_0000) as u32,
            slice@ == bitset@.subrange(32 * block_index, 32 * block_index + 32),
            forall|w: int| 0 <= w < 8 ==> #[trigger] mask@[w] == 1u32 << (bit_in_word(key, w) as u32),
            forall|w: int, b: int|
                0 <= w < 8 && 0 <= b < 32 ==> #[trigger] word_bit(block_mask@[w], b) == bit(
                    slice@,
                    32 * w + b,
                ),
            forall|w: int|
                0 <= w < i ==> bit(bitset@, #[trigger] bit_position(hash, bitset@.len(), w)),
        decreases 8 - i,
    {
        proof {
            let b = bit_in_word(key, i as int);
            lemma_bit_in_word(key, i as int);
            lemma_mask_bits(b as u32);
            lemma_block_bit(bitset@, block_index as int, 32 * i + b);
            assert(word_bit(block_mask@[i as int], b as int) == bit(slice@, 32 * i + b));
            assert(bit_position(hash, bitset@.len(), i as int) == 256 * block_index + (32 * i + b));
        }
        if mask[i] & block_mask[i] == 0 {
            return false;
        }
        i = i + 1;
    }
    true
}

/// `after` is `before` with the bits of `hash` set and nothing else changed.
pub open spec fn is_insertion(before: Seq<u8>, hash: u64, after: Seq<u8>) -> bool {
    &&& after.len() == before.len()
    &&& forall|n: int| #[trigger]
        bit(after, n) == (bit(before, n) || selects(hash, before.len(), n))
}

/// Inserts a new hash to the set.
pub fn insert(bitset: &mut [u8], hash: u64)
    requires
        valid_len(old(bitset)@.len()),
    ensures
        is_insertion(old(bitset)@, hash, final(bitset)@),
{
    let ghost before = bitset@;
    let len: usize = bitset.len();
    let block_index: usize = hash_to_block_index(hash, len);
    let key: u32 = (hash & 0xffff_ffff) as u32;
    assert(hash & 0xffff_ffff == hash % 0x1_0000_0000) by (bit_vector);

    let mask: [u32; 8] = new_mask(key);
    let (head, rest) = bitset.split_at_mut(block_index * 32);
    let (slice, tail) = rest.split_at_mut(32);
    let ghost loaded = slice@;
    let mut block_mask: [u32; 8] = load_block(slice);
    let ghost words = block_mask@;

    let mut i: usize = 0;
    while i < 8
        invariant
            i <= 8,
            words.len() == 8,
            forall|w: int| 0 <= w < i ==> #[trigger] block_mask@[w] == words[w] | mask@[w],
            forall|w: int| i <= w < 8 ==> #[trigger] block_mask@[w] == words[w],
        decreases 8 - i,
    {
        block_mask[i] = block_mask[i] | mask[i];
        i = i + 1;
    }
    store_block(block_mask, slice);
    let ghost stored = slice@;
    let ghost after = head@ + stored + tail@;
    proof {
        assert(bitset@ =~= after);
        assert(after.len() == before.len());
        assert(before.subrange(32 * block_index, 32 * block_index + 32) =~= loaded);
        assert(after.subrange(32 * block_index, 32 * block_index + 32) =~= stored);
        assert forall|n: int| #[trigger]
            bit(after, n) == (bit(before, n) || selects(hash, before.len(), n)) by {
            let m = n - 256 * block_index;
            if 0 <= m < 256 {
                let w = m / 32;
                let b = m % 32;
                lemma_block_bit(before, block_index as int, m);
                lemma_block_bit(after, block_index as int, m);
                assert(word_bit(words[w], b) == bit(loaded, 32 * w + b));
                assert(word_bit(block_mask@[w], b) == bit(stored, 32 * w + b));
                lemma_bit_in_word(key, w);
                lemma_mask_bits(bit_in_word(key, w) as u32);
                assert(bit_position(hash, before.len(), w) == 256 * block_index + 32 * w
                    + bit_in_word(key, w));
                assert(word_bit(block_mask@[w], b) == (word_bit(words[w], b) || b == bit_in_word(
                    key,
                    w,
                )));
                if selects(hash, before.len(), n) {
                    let v = choose|v: int|
                        0 <= v < 8 && n == #[trigger] bit_position(hash, before.len(), v);
                    lemma_bit_in_word(key, v);
                    assert(v == w);
                }
            } else {
                if selects(hash, before.len(), n) {
                    let v = choose|v: int|
                        0 <= v < 8 && n == #[trigger] bit_position(hash, before.len(), v);
                    lemma_bit_in_word(key, v);
                }
                if 0 <= n < 8 * before.len() {
                    assert(after[n / 8] == before[n / 8]);
                }
            }
        }
    }
}

/// `merged` has the bits of `a` and those of `b`, and no others.
pub open spec fn is_union(a: Seq<u8>, b: Seq<u8>, merged: Seq<u8>) -> bool {
    &&& merged.len() == a.len()
    &&& forall|n: int| #[trigger] bit(merged, n) == (bit(a, n) || bit(b, n))
}

/// Merges `src` into `dst` by bitwise OR.
///
/// Both must have been created with [`num_bytes_for`] (or otherwise be a whole
/// number of equally-sized blocks). A merged filter accepts everything either
/// input accepted.
pub fn union_into(dst: &mut [u8], src: &[u8])
    requires
        old(dst)@.len() == src@.len(),
    ensures
        is_union(old(dst)@, src@, final(dst)@),
{
    let ghost before = dst@;
    let mut i: usize = 0;
    while i < src.len()
        invariant
            i <= src@.len(),
            dst@.len() == src@.len(),
            before.len() == src@.len(),
            forall|k: int| 0 <= k < i ==> #[trigger] dst@[k] == before[k] | src@[k],
            forall|k: int| i <= k < src@.len() ==> #[trigger] dst@[k] == before[k],
        decreases src@.len() - i,
    {
        dst[i] = dst[i] | src[i];
        i = i + 1;
    }
    proof {
        assert forall|n: int| #[trigger] bit(dst@, n) == (bit(before, n) || bit(src@, n)) by {
            if 0 <= n < 8 * before.len() {
                let a: u8 = before[n / 8];
                let b: u8 = src@[n / 8];
                let c: u8 = (n % 8) as u8;
                assert(((a | b) >> c) & 1 == 1 <==> (a >> c) & 1 == 1 || (b >> c) & 1 == 1)
                    by (bit_vector);
            }
        }
    }
}

/// The number of blocks that fit in `max_bytes`, one at least.
pub open spec fn max_blocks(max_bytes: nat) -> nat {
    if max_bytes / 32 == 0 {
        1
    } else {
        max_bytes / 32
    }
}

/// The bitset size in bytes needed to hold `ndv` distinct values.
///
/// `needed_blocks` is what the sizing formula of the Parquet format asks for,
/// in blocks, rounded up and saturated; `None` where the formula yields no
/// finite positive size.
///
/// The result is always a non-zero multiple of [`BLOCK_BYTES`], clamped to
/// `max_bytes` (which is itself rounded down to a multiple of [`BLOCK_BYTES`]).
/// Exceeding the clamp does not make the filter incorrect, only less selective.
pub fn num_bytes_for(ndv: usize, needed_blocks: Option<u64>, max_bytes: usize) -> (bytes: usize)
    ensures
        ndv == 0 ==> bytes == 32,
        ndv != 0 ==> bytes == 32 * match needed_blocks {
            Some(n) => if n == 0 {
                1
            } else if n < max_blocks(max_bytes as nat) {
                n as nat
            } else {
                max_blocks(max_bytes as nat)
            },
            None => max_blocks(max_bytes as nat),
        },
        bytes > 0,
        bytes % BLOCK_BYTES == 0,
        bytes <= max_bytes || bytes == BLOCK_BYTES,
{
    let mut limit: usize = max_bytes / BLOCK_BYTES;
    if limit == 0 {
        limit = 1;
    }
    if ndv == 0 {
        return BLOCK_BYTES;
    }
    let mut blocks: usize = limit;
    if let Some(n) = needed_blocks {
        if n < limit as u64 {
            blocks = n as usize;
        }
    }
    if blocks == 0 {
        blocks = 1;
    }
    blocks * BLOCK_BYTES
}

/// `bytes` has the bits of every hash in `hashes`, and no others.
pub open spec fn holds(bytes: Seq<u8>, hashes: Seq<u64>) -> bool {
    forall|n: int| #[trigger]
        bit(bytes, n) <==> (exists|i: int|
            0 <= i < hashes.len() && #[trigger] selects(hashes[i], bytes.len(), n))
}

/// A zeroed bitset holds nothing.
pub proof fn law_zeroed_holds_nothing(bytes: Seq<u8>)
    requires
        forall|k: int| 0 <= k < bytes.len() ==> bytes[k] == 0,
    ensures
        holds(bytes, Seq::empty()),
{
    assert forall|n: int| !#[trigger] bit(bytes, n) by {
        if 0 <= n < 8 * bytes.len() {
            let c: u8 = (n % 8) as u8;
            assert((0u8 >> c) & 1 == 0) by (bit_vector);
        }
    }
}

/// Inserting a hash adds it to what the filter holds.
pub proof fn law_insertion_extends(
    before: Seq<u8>,
    hashes: Seq<u64>,
    hash: u64,
    after: Seq<u8>,
)
    requires
        holds(before, hashes),
        is_insertion(before, hash, after),
    ensures
        holds(after, hashes.push(hash)),
{
    let more = hashes.push(hash);
    assert forall|n: int| #[trigger]
        bit(after, n) <==> (exists|i: int|
            0 <= i < more.len() && #[trigger] selects(more[i], after.len(), n)) by {
        assert(bit(after, n) == (bit(before, n) || selects(hash, before.len(), n)));
        if bit(before, n) {
            let i = choose|i: int|
                0 <= i < hashes.len() && #[trigger] selects(hashes[i], before.len(), n);
            assert(selects(more[i], after.len(), n));
        }
        if selects(hash, before.len(), n) {
            assert(selects(more[hashes.len() as int], after.len(), n));
        }
        if exists|i: int| 0 <= i < more.len() && #[trigger] selects(more[i], after.len(), n) {
            let i = choose|i: int|
                0 <= i < more.len() && #[trigger] selects(more[i], after.len(), n);
            if i < hashes.len() {
                assert(selects(hashes[i], before.len(), n));
            }
        }
    }
}

/// No false negatives: a filter accepts every hash that it holds.
pub proof fn law_no_false_negatives(bytes: Seq<u8>, hashes: Seq<u64>, hash: u64)
    requires
        holds(bytes, hashes),
        hashes.contains(hash),
    ensures
        accepts(bytes, hash),
{
    let i = hashes.index_of(hash);
    assert forall|w: int| 0 <= w < 8 implies bit(
        bytes,
        #[trigger] bit_position(hash, bytes.len(), w),
    ) by {
        assert(selects(hashes[i], bytes.len(), bit_position(hash, bytes.len(), w)));
    }
}

/// An inserted hash is accepted, and a hash that was accepted before an
/// insertion is accepted after it, whatever the filter was built from.
pub proof fn law_insertion_accepts(before: Seq<u8>, hash: u64, after: Seq<u8>)
    requires
        is_insertion(before, hash, after),
    ensures
        accepts(after, hash),
        forall|other: u64| accepts(before, other) ==> #[trigger] accepts(after, other),
{
    assert forall|w: int| 0 <= w < 8 implies bit(
        after,
        #[trigger] bit_position(hash, after.len(), w),
    ) by {
        assert(selects(hash, before.len(), bit_position(hash, after.len(), w)));
    }
    assert forall|other: u64| accepts(before, other) implies #[trigger] accepts(after, other) by {
        assert forall|w: int| 0 <= w < 8 implies bit(
            after,
            #[trigger] bit_position(other, after.len(), w),
        ) by {
            assert(bit(before, bit_position(other, before.len(), w)));
        }
    }
}

/// Merging two filters of equal length gives the filter of both their hashes.
pub proof fn law_union_merges(
    a: Seq<u8>,
    a_hashes: Seq<u64>,
    b: Seq<u8>,
    b_hashes: Seq<u64>,
    merged: Seq<u8>,
)
    requires
        a.len() == b.len(),
        holds(a, a_hashes),
        holds(b, b_hashes),
        is_union(a, b, merged),
    ensures
        holds(merged, a_hashes + b_hashes),
{
    let both = a_hashes + b_hashes;
    assert forall|n: int| #[trigger]
        bit(merged, n) <==> (exists|i: int|
            0 <= i < both.len() && #[trigger] selects(both[i], merged.len(), n)) by {
        assert(bit(merged, n) == (bit(a, n) || bit(b, n)));
        if bit(a, n) {
            let i = choose|i: int|
                0 <= i < a_hashes.len() && #[trigger] selects(a_hashes[i], a.len(), n);
            assert(selects(both[i], merged.len(), n));
        }
        if bit(b, n) {
            let i = choose|i: int|
                0 <= i < b_hashes.len() && #[trigger] selects(b_hashes[i], b.len(), n);
            assert(both[a_hashes.len() + i] == b_hashes[i]);
            assert(selects(both[a_hashes.len() + i], merged.len(), n));
        }
        if exists|i: int| 0 <= i < both.len() && #[trigger] selects(both[i], merged.len(), n) {
            let i = choose|i: int|
                0 <= i < both.len() && #[trigger] selects(both[i], merged.len(), n);
            if i < a_hashes.len() {
                assert(selects(a_hashes[i], a.len(), n));
            } else {
                assert(selects(b_hashes[i - a_hashes.len()], b.len(), n));
            }
        }
    }
}

/// A merged filter accepts everything either input accepted.
pub proof fn law_union_accepts_both(a: Seq<u8>, b: Seq<u8>, merged: Seq<u8>, hash: u64)
    requires
        a.len() == b.len(),
        is_union(a, b, merged),
        accepts(a, hash) || accepts(b, hash),
    ensures
        accepts(merged, hash),
{
    assert forall|w: int| 0 <= w < 8 implies bit(
        merged,
        #[trigger] bit_position(hash, merged.len(), w),
    ) by {
        let n = bit_position(hash, merged.len(), w);
        assert(bit(a, bit_position(hash, a.len(), w)) || bit(b, bit_position(hash, b.len(), w)));
    }
}

proof fn lemma_byte_from_bits(x: u8, y: u8)
    requires
        forall|c: u8| c < 8 ==> (#[trigger] (x >> c) & 1 == 1 <==> (y >> c) & 1 == 1),
    ensures
        x == y,
{
    assert((x >> 0u8) & 1 == 1 <==> (y >> 0u8) & 1 == 1);
    assert((x >> 1u8) & 1 == 1 <==> (y >> 1u8) & 1 == 1);
    assert((x >> 2u8) & 1 == 1 <==> (y >> 2u8) & 1 == 1);
    assert((x >> 3u8) & 1 == 1 <==> (y >> 3u8) & 1 == 1);
    assert((x >> 4u8) & 1 == 1 <==> (y >> 4u8) & 1 == 1);
    assert((x >> 5u8) & 1 == 1 <==> (y >> 5u8) & 1 == 1);
    assert((x >> 6u8) & 1 == 1 <==> (y >> 6u8) & 1 == 1);
    assert((x >> 7u8) & 1 == 1 <==> (y >> 7u8) & 1 == 1);
    assert(x == y) by (bit_vector)
        requires
            (x >> 0u8) & 1 == 1 <==> (y >> 0u8) & 1 == 1,
            (x >> 1u8) & 1 == 1 <==> (y >> 1u8) & 1 == 1,
            (x >> 2u8) & 1 == 1 <==> (y >> 2u8) & 1 == 1,
            (x >> 3u8) & 1 == 1 <==> (y >> 3u8) & 1 == 1,
            (x >> 4u8) & 1 == 1 <==> (y >> 4u8) & 1 == 1,
            (x >> 5u8) & 1 == 1 <==> (y >> 5u8) & 1 == 1,
            (x >> 6u8) & 1 == 1 <==> (y >> 6u8) & 1 == 1,
            (x >> 7u8) & 1 == 1 <==> (y >> 7u8) & 1 == 1,
    ;
}

/// A bitset is determined by its length and its bits, so the contracts of
/// [`insert`] and [`union_into`] leave only one result.
pub proof fn law_bits_determine_bytes(a: Seq<u8>, b: Seq<u8>)
    requires
        a.len() == b.len(),
        forall|n: int| #[trigger] bit(a, n) == bit(b, n),
    ensures
        a == b,
{
    assert forall|k: int| 0 <= k < a.len() implies a[k] == b[k] by {
        assert forall|c: u8| c < 8 implies (#[trigger] (a[k] >> c) & 1 == 1 <==> (b[k] >> c) & 1
            == 1) by {
            let n = 8 * k + c;
            assert(n / 8 == k && n % 8 == c);
            assert(bit(a, n) == bit(b, n));
        }
        lemma_byte_from_bits(a[k], b[k]);
    }
    assert(a =~= b);
}

} // verus!
