//! What the Parquet format says of a filter, bit by bit.
//!
//! A filter that one program writes is probed by another, so which bits stand
//! for a hash is not left to either.

use crate::bloom_filter::{hash_to_block_index, insert, is_in_set, num_bytes_for, union_into};
use vstd::prelude::*;

#[allow(unused_imports)]
use crate::bloom_filter::{bit, bit_in_word, bit_position, block_of, is_insertion, is_union, law_bits_determine_bytes, selects, SALT};

verus! {

proof fn lemma_bits(hash: u64, len: nat, block: nat, salt: Seq<u32>, bits: Seq<nat>, w: int)
    requires
        salt == seq![
            0x47b6137bu32,
            0x44974d91u32,
            0x8824ad5bu32,
            0xa2b7289du32,
            0x705495c7u32,
            0x2df1424bu32,
            0x9efc4947u32,
            0x5c6bfb31u32,
        ],
        block * 0x1_0000_0000 <= (hash / 0x1_0000_0000) * (len / 32) < (block + 1)
            * 0x1_0000_0000,
        bits.len() == 8,
        forall|w: int|
            0 <= w < 8 ==> #[trigger] bits[w] * 0x800_0000 <= ((hash % 0x1_0000_0000) * salt[w])
                % 0x1_0000_0000 < (bits[w] + 1) * 0x800_0000,
        0 <= w < 8,
    ensures
        block_of(hash, len) == block,
        bits[w] < 32,
        bit_in_word((hash % 0x1_0000_0000) as u32, w) == bits[w],
        bit_position(hash, len, w) == 256 * block + 32 * w + bits[w],
{
    assert(SALT@ =~= salt);
    let scaled: int = (hash as int / 0x1_0000_0000) * (len / 32);
    vstd::arithmetic::div_mod::lemma_fundamental_div_mod_converse(
        scaled,
        0x1_0000_0000,
        block as int,
        scaled - block * 0x1_0000_0000,
    );
    let product: int = ((hash % 0x1_0000_0000) * salt[w]) % 0x1_0000_0000;
    assert(bits[w] * 0x800_0000 <= product < (bits[w] + 1) * 0x800_0000);
    vstd::arithmetic::div_mod::lemma_fundamental_div_mod_converse(
        product,
        0x800_0000,
        bits[w] as int,
        product - bits[w] * 0x800_0000,
    );
}

/// Whether bit `b` of the little-endian word `w` of a block is one.
spec fn is_one(bytes: Seq<u8>, block: nat, w: int, b: nat) -> bool {
    (bytes[32 * block + 4 * w + b / 8] >> ((b % 8) as u8)) & 1 == 1
}

proof fn lemma_is_one(bytes: Seq<u8>, block: nat, w: int, b: nat)
    requires
        0 <= w < 8,
        b < 32,
        32 * block + 32 <= bytes.len(),
    ensures
        bit(bytes, 256 * block + 32 * w + b) == is_one(bytes, block, w, b),
{
    let n = 256 * block + 32 * w + b;
    assert(n / 8 == 32 * block + 4 * w + b / 8);
    assert(n % 8 == b % 8);
}

/// The block of a hash is the one that its high half falls on, and lies in the
/// bitset.
pub proof fn law_block_is_the_share_of_the_hash(hash: u64, len: usize, index: usize)
    requires
        call_ensures(hash_to_block_index, (hash, len), index),
    ensures
        index * 0x1_0000_0000 <= (hash / 0x1_0000_0000) * (len / 32) < (index + 1) * 0x1_0000_0000,
        32 * index + 32 <= len,
{
    let scaled: int = (hash as int / 0x1_0000_0000) * (len as int / 32);
    vstd::arithmetic::div_mod::lemma_fundamental_div_mod(scaled, 0x1_0000_0000);
}

/// A probe looks at the eight bits that the hash stands for, in the block that
/// it falls on, and at no others: it finds the hash where all of them are one.
pub proof fn law_probe_reads_the_bits_of_the_hash(
    bitset: &[u8],
    hash: u64,
    found: bool,
    block: nat,
    salt: Seq<u32>,
    bits: Seq<nat>,
)
    requires
        call_ensures(is_in_set, (bitset, hash), found),
        salt == seq![
            0x47b6137bu32,
            0x44974d91u32,
            0x8824ad5bu32,
            0xa2b7289du32,
            0x705495c7u32,
            0x2df1424bu32,
            0x9efc4947u32,
            0x5c6bfb31u32,
        ],
        block * 0x1_0000_0000 <= (hash / 0x1_0000_0000) * (bitset@.len() / 32) < (block + 1)
            * 0x1_0000_0000,
        bits.len() == 8,
        forall|w: int|
            0 <= w < 8 ==> #[trigger] bits[w] * 0x800_0000 <= ((hash % 0x1_0000_0000) * salt[w])
                % 0x1_0000_0000 < (bits[w] + 1) * 0x800_0000,
        32 * block + 32 <= bitset@.len(),
    ensures
        found <==> forall|w: int|
            0 <= w < 8 ==> (bitset@[32 * block + 4 * w + #[trigger] bits[w] / 8] >> ((bits[w]
                % 8) as u8)) & 1 == 1,
{
    let len = bitset@.len();
    assert forall|w: int| 0 <= w < 8 implies bit(bitset@, #[trigger] bit_position(hash, len, w))
        == #[trigger] is_one(bitset@, block, w, bits[w]) by {
        lemma_bits(hash, len, block, salt, bits, w);
        lemma_is_one(bitset@, block, w, bits[w]);
    }
    if found {
        assert forall|w: int| 0 <= w < 8 implies (bitset@[32 * block + 4 * w + #[trigger] bits[w]
            / 8] >> ((bits[w] % 8) as u8)) & 1 == 1 by {
            assert(bit(bitset@, bit_position(hash, len, w)));
            assert(is_one(bitset@, block, w, bits[w]));
        }
    } else {
        let w = choose|w: int|
            0 <= w < 8 && !bit(bitset@, #[trigger] bit_position(hash, len, w));
        assert(!is_one(bitset@, block, w, bits[w]));
        assert(!((bitset@[32 * block + 4 * w + bits[w] / 8] >> ((bits[w] % 8) as u8)) & 1 == 1));
    }
}

/// An insertion sets the eight bits that the hash stands for, in the block that
/// it falls on, and leaves every other bit of the filter as it was.
pub proof fn law_insertion_sets_the_bits_of_the_hash(
    bitset: &mut [u8],
    hash: u64,
    block: nat,
    salt: Seq<u32>,
    bits: Seq<nat>,
    k: nat,
    w: int,
    b: nat,
)
    requires
        call_ensures(insert, (bitset, hash), ()),
        salt == seq![
            0x47b6137bu32,
            0x44974d91u32,
            0x8824ad5bu32,
            0xa2b7289du32,
            0x705495c7u32,
            0x2df1424bu32,
            0x9efc4947u32,
            0x5c6bfb31u32,
        ],
        block * 0x1_0000_0000 <= (hash / 0x1_0000_0000) * (old(bitset)@.len() / 32) < (block + 1)
            * 0x1_0000_0000,
        bits.len() == 8,
        forall|w: int|
            0 <= w < 8 ==> #[trigger] bits[w] * 0x800_0000 <= ((hash % 0x1_0000_0000) * salt[w])
                % 0x1_0000_0000 < (bits[w] + 1) * 0x800_0000,
        0 <= w < 8,
        b < 32,
        32 * k + 32 <= old(bitset)@.len(),
    ensures
        final(bitset)@.len() == old(bitset)@.len(),
        (final(bitset)@[32 * k + 4 * w + b / 8] >> ((b % 8) as u8)) & 1 == 1 <==> (old(
            bitset,
        )@[32 * k + 4 * w + b / 8] >> ((b % 8) as u8)) & 1 == 1 || (k == block && b == bits[w]),
{
    let before = old(bitset)@;
    let after = final(bitset)@;
    assert(is_insertion(before, hash, after));
    let n = 256 * k + 32 * w + b;
    lemma_is_one(before, k, w, b);
    lemma_is_one(after, k, w, b);
    assert(bit(after, n) == (bit(before, n) || selects(hash, before.len(), n)));
    if k == block && b == bits[w] {
        lemma_bits(hash, before.len(), block, salt, bits, w);
        assert(n == bit_position(hash, before.len(), w));
        assert(selects(hash, before.len(), n));
    }
    if selects(hash, before.len(), n) {
        let v = choose|v: int| 0 <= v < 8 && n == #[trigger] bit_position(hash, before.len(), v);
        lemma_bits(hash, before.len(), block, salt, bits, v);
        assert(256 * k + 32 * w + b == 256 * block + 32 * v + bits[v]);
        assert(k == block && w == v);
    }
}

/// A union is the bitwise OR of the two filters, byte by byte.
pub proof fn law_union_is_a_bitwise_or(dst: &mut [u8], src: &[u8], i: int)
    requires
        call_ensures(union_into, (dst, src), ()),
        old(dst)@.len() == src@.len(),
        0 <= i < src@.len(),
    ensures
        final(dst)@.len() == src@.len(),
        final(dst)@[i] == old(dst)@[i] | src@[i],
{
    let a = old(dst)@;
    let b = src@;
    let merged = final(dst)@;
    assert(is_union(a, b, merged));
    let ors = Seq::new(a.len(), |k: int| a[k] | b[k]);
    assert forall|n: int| #[trigger] bit(merged, n) == bit(ors, n) by {
        assert(bit(merged, n) == (bit(a, n) || bit(b, n)));
        if 0 <= n < 8 * a.len() {
            let x: u8 = a[n / 8];
            let y: u8 = b[n / 8];
            let c: u8 = (n % 8) as u8;
            assert(((x | y) >> c) & 1 == 1 <==> (x >> c) & 1 == 1 || (y >> c) & 1 == 1)
                by (bit_vector);
        }
    }
    law_bits_determine_bytes(merged, ors);
}

/// A filter gets the blocks that it needs, one at least, unless more than
/// `max_bytes` would be taken: then it gets as many whole blocks as fit there,
/// one at least. Where the need has no finite answer it gets as many as fit.
pub proof fn law_filter_size_is_what_is_needed_or_fits(
    ndv: usize,
    needed_blocks: Option<u64>,
    max_bytes: usize,
    bytes: usize,
)
    requires
        call_ensures(num_bytes_for, (ndv, needed_blocks, max_bytes), bytes),
    ensures
        bytes >= 32,
        bytes % 32 == 0,
        bytes <= 32 || bytes <= max_bytes,
        ndv == 0 ==> bytes == 32,
        ndv > 0 ==> match needed_blocks {
            Some(n) => {
                &&& bytes <= 32 || bytes <= 32 * n
                &&& bytes >= 32 * n || bytes + 32 > max_bytes
            },
            None => bytes + 32 > max_bytes,
        },
{
}

} // verus!
