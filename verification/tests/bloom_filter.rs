use polars_engine::bloom_filter::{hash_to_block_index, insert, is_in_set, num_bytes_for, union_into, BLOCK_BYTES};

/// The sizing formula of the Parquet format, in blocks.
fn sized(ndv: usize, fpp: f64, max_bytes: usize) -> usize {
    assert!(fpp > 0.0 && fpp < 1.0, "fpp must be in (0, 1), got {fpp}");
    let bits = -8.0 * ndv as f64 / (1.0 - fpp.powf(1.0 / 8.0)).ln();
    let bytes = (bits / 8.0).ceil();
    let needed_blocks = if bytes.is_finite() && bytes > 0.0 {
        Some((bytes / BLOCK_BYTES as f64).ceil() as u64)
    } else {
        None
    };
    num_bytes_for(ndv, needed_blocks, max_bytes)
}

fn hash(i: u64) -> u64 {
    i.wrapping_mul(0x9e37_79b9_7f4a_7c15).rotate_left(31)
}

#[test]
fn no_false_negatives() {
    let n = 10_000u64;
    let n_bytes = sized(n as usize, 0.01, 1 << 20);
    let mut bitset = vec![0u8; n_bytes];

    for i in 0..n {
        insert(&mut bitset, hash(i));
    }
    for i in 0..n {
        assert!(is_in_set(&bitset, hash(i)), "false negative for {i}");
    }
}

#[test]
fn false_positive_rate_within_spec() {
    let n = 10_000u64;
    let fpp = 0.01;
    let n_bytes = sized(n as usize, fpp, 1 << 20);
    let mut bitset = vec![0u8; n_bytes];

    for i in 0..n {
        insert(&mut bitset, hash(i));
    }

    let probes = 100_000u64;
    let false_positives = (n..n + probes)
        .filter(|&i| is_in_set(&bitset, hash(i)))
        .count();
    let observed = false_positives as f64 / probes as f64;

    // Generous headroom: this asserts the sizing is not wildly off, not
    // that the filter hits its nominal rate exactly.
    assert!(
        observed < fpp * 3.0,
        "observed fpp {observed} for target {fpp}"
    );
}

#[test]
fn union_accepts_both_inputs() {
    let n_bytes = sized(1000, 0.01, 1 << 20);
    let mut a = vec![0u8; n_bytes];
    let mut b = vec![0u8; n_bytes];

    for i in 0..500u64 {
        insert(&mut a, hash(i));
    }
    for i in 500..1000u64 {
        insert(&mut b, hash(i));
    }

    union_into(&mut a, &b);

    for i in 0..1000u64 {
        assert!(is_in_set(&a, hash(i)), "false negative for {i} after union");
    }
}

#[test]
fn sizing_is_block_aligned_and_clamped() {
    assert_eq!(sized(0, 0.01, 1 << 20), BLOCK_BYTES);
    assert_eq!(sized(1_000_000_000, 0.001, 1024), 1024);
    for ndv in [1, 10, 1000, 100_000] {
        let n = sized(ndv, 0.01, 1 << 24);
        assert_eq!(n % BLOCK_BYTES, 0);
        assert!(n > 0);
    }
}

#[test]
fn sizing_without_a_finite_answer_takes_the_clamp() {
    assert_eq!(num_bytes_for(5, None, 100), 96);
    assert_eq!(num_bytes_for(5, None, 0), BLOCK_BYTES);
    assert_eq!(num_bytes_for(5, Some(0), 1024), BLOCK_BYTES);
    assert_eq!(num_bytes_for(5, Some(3), 1024), 96);
    assert_eq!(num_bytes_for(5, Some(u64::MAX), 1024), 1024);
    assert_eq!(num_bytes_for(0, Some(7), 1024), BLOCK_BYTES);
}

#[test]
fn a_zeroed_bitset_holds_nothing() {
    let bitset = vec![0u8; 4 * BLOCK_BYTES];
    for i in 0..1000 {
        assert!(!is_in_set(&bitset, hash(i)));
    }
}

#[test]
fn an_insertion_sets_one_bit_in_each_word_of_one_block() {
    // The upper half selects the second of two blocks, and the lower half is
    // one, so that each word's bit is the top of its multiplier.
    let mut bitset = vec![0u8; 2 * BLOCK_BYTES];
    insert(&mut bitset, (0x8000_0000u64 << 32) | 1);

    assert!(bitset[..BLOCK_BYTES].iter().all(|b| *b == 0));
    let salt: [u32; 8] = [
        1203114875, 1150766481, 2284105051, 2729912477, 1884591559, 770785867, 2667333959,
        1550580529,
    ];
    for (w, s) in salt.iter().enumerate() {
        let at = BLOCK_BYTES + 4 * w;
        let word = u32::from_le_bytes([bitset[at], bitset[at + 1], bitset[at + 2], bitset[at + 3]]);
        assert_eq!(word, 1 << (s >> 27));
    }
}

#[test]
fn the_blocks_follow_the_hash() {
    let block_of = |hash: u64| {
        let mut bitset = vec![0u8; 5 * BLOCK_BYTES];
        insert(&mut bitset, hash);
        bitset.iter().position(|b| *b != 0).unwrap() / BLOCK_BYTES
    };
    assert_eq!(block_of(0), 0);
    assert_eq!(block_of(u64::MAX), 4);
    assert_eq!(block_of(0x3333_3333 << 32), 0);
    assert_eq!(block_of(0x3333_3334 << 32), 1);
}

#[test]
fn the_block_scales_the_upper_half_of_the_hash() {
    assert_eq!(hash_to_block_index(0, 5 * BLOCK_BYTES), 0);
    assert_eq!(hash_to_block_index(u64::MAX, 5 * BLOCK_BYTES), 4);
    assert_eq!(hash_to_block_index(0x8000_0000 << 32, 5 * BLOCK_BYTES), 2);
    assert_eq!(hash_to_block_index(0xffff_ffff, 5 * BLOCK_BYTES), 0);
    assert_eq!(hash_to_block_index(u64::MAX, BLOCK_BYTES), 0);
    // A larger hash never selects an earlier block.
    let blocks: Vec<usize> = (0..64)
        .map(|i| hash_to_block_index(i << 58, 7 * BLOCK_BYTES))
        .collect();
    assert!(blocks.windows(2).all(|w| w[0] <= w[1]));
    assert_eq!(blocks[63], 6);
}

#[test]
fn inserting_twice_changes_nothing() {
    let mut bitset = vec![0u8; 8 * BLOCK_BYTES];
    insert(&mut bitset, hash(3));
    let once = bitset.clone();
    insert(&mut bitset, hash(3));
    assert_eq!(bitset, once);
}

#[test]
fn a_union_is_a_bitwise_or() {
    let mut a = vec![0b1010u8; BLOCK_BYTES];
    let b = vec![0b0110u8; BLOCK_BYTES];
    union_into(&mut a, &b);
    assert_eq!(a, vec![0b1110u8; BLOCK_BYTES]);
}
