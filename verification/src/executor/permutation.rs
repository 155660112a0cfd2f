//! Pseudo-random visiting orders.

use rand::rngs::SmallRng;
use rand::RngExt;
use vstd::arithmetic::div_mod::{lemma_add_mod_noop, lemma_fundamental_div_mod, lemma_fundamental_div_mod_converse, lemma_mod_mod, lemma_mod_multiples_basic, lemma_mul_mod_noop, lemma_small_mod, lemma_sub_mod_noop};
use vstd::arithmetic::power2::{lemma2_to64, lemma_pow2_adds, lemma_pow2_pos, lemma_pow2_strictly_increases, lemma_pow2_unfold, pow2};
use vstd::bits::{lemma_u32_low_bits_mask_is_mod, low_bits_mask};
use vstd::prelude::*;

verus! {

/// The four random words that a visiting order is made from.
#[derive(Clone, Copy, Debug, PartialEq, Eq, Structural)]
pub struct Draws {
    pub displace_zero: u32,
    pub odd1: u32,
    pub odd2: u32,
    pub uniform_first: u32,
}

/// The number of bits of the smallest power of two that is at least `len`.
pub open spec fn width(len: nat) -> nat
    decreases len,
{
    if len <= 1 {
        0
    } else {
        1 + width((len + 1) / 2)
    }
}

/// The value of `x` in a 32-bit register.
pub open spec fn wrap(x: int) -> u32 {
    (x % 0x1_0000_0000) as u32
}

/// By how many bits the mixing of `width` bits shifts: half of them, but not
/// zero where there is a bit to shift, which would cancel it.
pub open spec fn mixing_shift(width: nat) -> u32 {
    if width == 1 {
        1
    } else {
        (width / 2) as u32
    }
}

/// The image of `i` under the scrambling of `width` bits: displaced,
/// multiplied, its halves mixed, multiplied again and cut to `width` bits.
pub open spec fn scramble(i: u32, draws: Draws, width: nat) -> u32 {
    let mask: u32 = (pow2(width) - 1) as u32;
    let a: u32 = wrap(wrap(i + draws.displace_zero) * (draws.odd1 | 1));
    let b: u32 = a ^ ((a & mask) >> mixing_shift(width));
    wrap(b * (draws.odd2 | 1)) & mask
}

/// Where the order starts: the fourth draw as a fraction of `2^32`, scaled to `len`.
pub open spec fn first_offset(draws: Draws, len: u32) -> nat {
    (draws.uniform_first as nat * len as nat) / 0x1_0000_0000
}

/// `i` moved forward by the starting offset, around the end.
pub open spec fn rotate(i: u32, draws: Draws, len: u32) -> u32 {
    ((i + first_offset(draws, len)) % (len as int)) as u32
}

/// The visiting order's share of the first `n` scrambled indices: those below
/// `len`, rotated.
pub open spec fn visited(len: u32, draws: Draws, n: nat) -> Seq<u32>
    decreases n,
{
    if n == 0 {
        Seq::empty()
    } else {
        let rest = visited(len, draws, (n - 1) as nat);
        let i = scramble((n - 1) as u32, draws, width(len as nat));
        if i < len {
            rest.push(rotate(i, draws, len))
        } else {
            rest
        }
    }
}

/// The order in which `0..len` is visited.
pub open spec fn visit_order(len: u32, draws: Draws) -> Seq<u32> {
    visited(len, draws, pow2(width(len as nat)))
}

/// `order` visits each of `0..len` exactly once.
pub open spec fn is_permutation(order: Seq<u32>, len: u32) -> bool {
    &&& order.len() == len
    &&& order.no_duplicates()
    &&& forall|i: u32| #[trigger] order.contains(i) <==> i < len
}

proof fn lemma_width_bounds(len: nat)
    ensures
        len <= pow2(width(len)),
        len >= 2 ==> pow2((width(len) - 1) as nat) < len,
        len < 2 ==> width(len) == 0,
        pow2(0) == 1,
    decreases len,
{
    lemma2_to64();
    if len > 1 {
        let half = (len + 1) / 2;
        lemma_width_bounds(half);
        lemma_pow2_unfold(width(len));
        if half >= 2 {
            lemma_pow2_unfold(width(half));
        }
    }
}

proof fn lemma_width_unique(len: nat, k: nat)
    requires
        len <= pow2(k),
        k > 0 ==> pow2((k - 1) as nat) < len,
    ensures
        width(len) == k,
{
    lemma_width_bounds(len);
    lemma2_to64();
    let w = width(len);
    if w < k {
        if w < k - 1 {
            lemma_pow2_strictly_increases(w, (k - 1) as nat);
        }
    } else if k < w {
        if k < w - 1 {
            lemma_pow2_strictly_increases(k, (w - 1) as nat);
        }
    }
}

proof fn lemma_width_small(len: u32)
    requires
        len <= 0x8000_0000,
    ensures
        width(len as nat) <= 31,
        pow2(width(len as nat)) <= 0x8000_0000,
{
    lemma_width_bounds(len as nat);
    lemma2_to64();
    let w = width(len as nat);
    if w > 31 {
        if w - 1 > 31 {
            lemma_pow2_strictly_increases(31, (w - 1) as nat);
        }
    } else if w < 31 {
        lemma_pow2_strictly_increases(w, 31);
    }
}

/// The smallest power of two that is at least `len`, with its exponent.
fn next_power_of_two(len: u32) -> (result: (u32, u32))
    requires
        len <= 0x8000_0000,
    ensures
        result.0 == pow2(width(len as nat)),
        result.1 == width(len as nat),
        result.1 <= 31,
{
    proof {
        lemma2_to64();
        lemma_width_small(len);
    }
    let mut modulus: u32 = 1;
    let mut bits: u32 = 0;
    while modulus < len
        invariant
            len <= 0x8000_0000,
            bits <= 31,
            modulus == pow2(bits as nat),
            bits > 0 ==> pow2((bits - 1) as nat) < len,
        decreases 32 - bits,
    {
        proof {
            lemma2_to64();
            if bits == 31 {
                assert(false);
            }
            lemma_pow2_strictly_increases(bits as nat, 31);
            lemma_pow2_unfold((bits + 1) as nat);
        }
        modulus = modulus * 2;
        bits = bits + 1;
    }
    proof {
        lemma_width_unique(len as nat, bits as nat);
    }
    (modulus, bits)
}

/// An odd factor can be cancelled modulo a power of two.
proof fn lemma_odd_cancels(d: int, odd: int, k: nat)
    requires
        odd % 2 == 1,
        (d * odd) % (pow2(k) as int) == 0,
    ensures
        d % (pow2(k) as int) == 0,
    decreases k,
{
    lemma_pow2_pos(k);
    if k == 0 {
        lemma2_to64();
    } else {
        lemma_pow2_unfold(k);
        lemma_pow2_pos((k - 1) as nat);
        let p: int = pow2((k - 1) as nat) as int;
        let q: int = (d * odd) / (2 * p);
        lemma_fundamental_div_mod(d * odd, 2 * p);
        let o: int = odd / 2;
        assert(odd == 2 * o + 1);
        let e: int = d / 2;
        assert(d == 2 * (p * q - d * o)) by (nonlinear_arith)
            requires
                d * odd == (2 * p) * q,
                odd == 2 * o + 1,
        ;
        assert(d == 2 * e);
        assert(e * odd == q * p) by (nonlinear_arith)
            requires
                d * odd == (2 * p) * q,
                d == 2 * e,
        ;
        lemma_mod_multiples_basic(q, p);
        lemma_odd_cancels(e, odd, (k - 1) as nat);
        lemma_fundamental_div_mod(e, p);
        let f: int = e / p;
        assert(d == f * (2 * p)) by (nonlinear_arith)
            requires
                d == 2 * e,
                e == p * f,
        ;
        lemma_mod_multiples_basic(f, 2 * p);
    }
}

/// Equal remainders of two products by the same odd factor come from equal remainders.
proof fn lemma_odd_product_injective(x: int, y: int, odd: int, k: nat)
    requires
        odd % 2 == 1,
        (x * odd) % (pow2(k) as int) == (y * odd) % (pow2(k) as int),
    ensures
        x % (pow2(k) as int) == y % (pow2(k) as int),
{
    let m: int = pow2(k) as int;
    lemma_pow2_pos(k);
    lemma_sub_mod_noop(x * odd, y * odd, m);
    assert((x * odd - y * odd) % m == 0) by {
        lemma_small_mod(0, m as nat);
    }
    assert((x - y) * odd == x * odd - y * odd) by (nonlinear_arith);
    lemma_odd_cancels(x - y, odd, k);
    lemma_sub_mod_noop(x, y, m);
    lemma_fundamental_div_mod(x - y, m);
    let f: int = (x - y) / m;
    assert(x == y + m * f);
    lemma_mul_mod_noop(m, f, m);
    lemma_add_mod_noop(y, m * f, m);
    assert((m * f) % m == 0) by {
        lemma_mod_multiples_basic(f, m);
        assert(m * f == f * m) by (nonlinear_arith);
    }
    assert((y % m + 0) % m == y % m) by {
        lemma_small_mod((y % m) as nat, m as nat);
    }
}

/// Reducing first to 32 bits does not change the remainder by a smaller power of two.
proof fn lemma_wrap_mod(x: int, k: nat)
    requires
        k <= 31,
    ensures
        wrap(x) as int % (pow2(k) as int) == x % (pow2(k) as int),
{
    lemma2_to64();
    lemma_pow2_pos(k);
    lemma_pow2_adds(k, (32 - k) as nat);
    lemma_pow2_pos((32 - k) as nat);
    let m: int = pow2(k) as int;
    let n: int = pow2((32 - k) as nat) as int;
    assert(m * n == 0x1_0000_0000);
    lemma_mod_mod(x, m, n);
}

/// Cutting to `k` bits is taking the remainder by `2^k`.
proof fn lemma_mask_mod(x: u32, k: nat)
    requires
        k <= 31,
    ensures
        x & ((pow2(k) - 1) as u32) == x as int % (pow2(k) as int),
{
    lemma2_to64();
    lemma_pow2_pos(k);
    if k < 31 {
        lemma_pow2_strictly_increases(k, 31);
    }
    lemma_u32_low_bits_mask_is_mod(x, k);
    reveal(low_bits_mask);
}

/// Mixing the upper half of the low bits into the lower half loses nothing.
proof fn lemma_mix_injective(x: u32, y: u32, mask: u32, shift: u32)
    requires
        1 <= shift < 32,
        (x ^ ((x & mask) >> shift)) & mask == (y ^ ((y & mask) >> shift)) & mask,
        forall|z: u32| z <= mask ==> #[trigger] (z & mask) == z,
    ensures
        x & mask == y & mask,
{
    let u: u32 = x & mask;
    let v: u32 = y & mask;
    let p: u32 = u >> shift;
    let q: u32 = v >> shift;
    assert(x & mask <= mask && y & mask <= mask) by (bit_vector);
    assert(u >> shift <= u && v >> shift <= v) by (bit_vector);
    assert(p & mask == p && q & mask == q);
    assert((x ^ p) & mask == (x & mask) ^ (p & mask)) by (bit_vector);
    assert((y ^ q) & mask == (y & mask) ^ (q & mask)) by (bit_vector);
    assert(u == v) by (bit_vector)
        requires
            1 <= shift < 32,
            u ^ (u >> shift) == v ^ (v >> shift),
    ;
}

/// The scrambling is injective.
proof fn lemma_scramble_injective(i: u32, j: u32, draws: Draws, k: nat)
    requires
        1 <= k <= 31,
        i < pow2(k),
        j < pow2(k),
        scramble(i, draws, k) == scramble(j, draws, k),
    ensures
        i == j,
{
    lemma2_to64();
    lemma_pow2_pos(k);
    let m: int = pow2(k) as int;
    let mask: u32 = (pow2(k) - 1) as u32;
    let shift: u32 = mixing_shift(k);
    let odd1: u32 = draws.odd1 | 1;
    let odd2: u32 = draws.odd2 | 1;
    assert((draws.odd1 | 1) % 2 == 1 && (draws.odd2 | 1) % 2 == 1) by {
        let p: u32 = draws.odd1;
        let q: u32 = draws.odd2;
        assert((p | 1) % 2 == 1) by (bit_vector);
        assert((q | 1) % 2 == 1) by (bit_vector);
    }
    let si: u32 = wrap(i + draws.displace_zero);
    let sj: u32 = wrap(j + draws.displace_zero);
    let ai: u32 = wrap(si * odd1);
    let aj: u32 = wrap(sj * odd1);
    let bi: u32 = ai ^ ((ai & mask) >> shift);
    let bj: u32 = aj ^ ((aj & mask) >> shift);

    lemma_mask_mod(wrap(bi * odd2), k);
    lemma_mask_mod(wrap(bj * odd2), k);
    lemma_wrap_mod(bi * odd2, k);
    lemma_wrap_mod(bj * odd2, k);
    lemma_odd_product_injective(bi as int, bj as int, odd2 as int, k);
    lemma_mask_mod(bi, k);
    lemma_mask_mod(bj, k);
    assert forall|z: u32| z <= mask implies #[trigger] (z & mask) == z by {
        lemma_mask_mod(z, k);
        lemma_small_mod(z as nat, m as nat);
    }
    lemma_mix_injective(ai, aj, mask, shift);
    lemma_mask_mod(ai, k);
    lemma_mask_mod(aj, k);
    lemma_wrap_mod(si * odd1, k);
    lemma_wrap_mod(sj * odd1, k);
    lemma_odd_product_injective(si as int, sj as int, odd1 as int, k);
    lemma_wrap_mod(i + draws.displace_zero, k);
    lemma_wrap_mod(j + draws.displace_zero, k);
    let dz: int = draws.displace_zero as int;
    lemma_sub_mod_noop(i + dz, dz, m);
    lemma_sub_mod_noop(j + dz, dz, m);
    lemma_small_mod(i as nat, m as nat);
    lemma_small_mod(j as nat, m as nat);
}

proof fn lemma_rotate_bounds(i: u32, draws: Draws, len: u32)
    requires
        i < len <= 0x8000_0000,
    ensures
        first_offset(draws, len) < len,
        rotate(i, draws, len) < len,
        rotate(i, draws, len) == if i + first_offset(draws, len) >= len {
            i + first_offset(draws, len) - len
        } else {
            i + first_offset(draws, len)
        },
{
    let r: int = draws.uniform_first as int;
    let n: int = len as int;
    assert(r * n < 0x1_0000_0000 * n) by (nonlinear_arith)
        requires
            r < 0x1_0000_0000,
            0 < n,
    ;
    assert(0 <= r * n) by (nonlinear_arith)
        requires
            0 <= r,
            0 < n,
    ;
    let t: int = i + first_offset(draws, len);
    if t >= n {
        assert(t % n == t - n) by {
            lemma_fundamental_div_mod_converse(t, n, 1, t - n);
        }
    } else {
        lemma_small_mod(t as nat, n as nat);
    }
}

/// The order in which to visit `0..len`, made from four random words.
///
/// See [`law_visits_each_once`].
pub fn permutation_from_draws(len: u32, draws: Draws) -> (order: Vec<u32>)
    requires
        len <= 0x8000_0000,
    ensures
        order@ == visit_order(len, draws),
        is_permutation(order@, len),
{
    proof {
        law_visits_each_once(len, draws);
    }
    let (modulus, bits) = next_power_of_two(len);
    let halfwidth: u32 = if bits == 1 {
        1
    } else {
        bits / 2
    };
    proof {
        lemma_pow2_pos(width(len as nat));
        assert(draws.uniform_first * len <= 0xffff_ffff * 0x8000_0000) by (nonlinear_arith)
            requires
                draws.uniform_first <= 0xffff_ffff,
                len <= 0x8000_0000,
        ;
    }
    let mask: u32 = modulus - 1;
    let odd1: u32 = draws.odd1 | 1;
    let odd2: u32 = draws.odd2 | 1;
    let product: u64 = draws.uniform_first as u64 * len as u64;
    proof {
        assert(product >> 32 == product / 0x1_0000_0000) by (bit_vector);
        if len > 0 {
            lemma_rotate_bounds(0, draws, len);
        }
    }
    let uniform_first: u32 = (product >> 32) as u32;
    let mut order: Vec<u32> = Vec::new();
    let mut index: u32 = 0;
    while index < modulus
        invariant
            len <= 0x8000_0000,
            index <= modulus,
            modulus == pow2(width(len as nat)),
            bits == width(len as nat),
            bits <= 31,
            halfwidth == mixing_shift(bits as nat),
            mask == modulus - 1,
            odd1 == draws.odd1 | 1,
            odd2 == draws.odd2 | 1,
            len > 0 ==> uniform_first == first_offset(draws, len),
            order@ == visited(len, draws, index as nat),
        decreases modulus - index,
    {
        let mut i: u32 = index.wrapping_add(draws.displace_zero);
        assert(i == wrap(index + draws.displace_zero));
        let ghost displaced = i;
        i = i.wrapping_mul(odd1);
        assert(i == wrap(displaced * odd1));
        i = i ^ ((i & mask) >> halfwidth);
        let ghost mixed = i;
        i = i.wrapping_mul(odd2);
        assert(i == wrap(mixed * odd2));
        i = i & mask;
        assert(i == scramble(index, draws, width(len as nat)));
        if i < len {
            proof {
                lemma_rotate_bounds(i, draws, len);
            }
            let mut visit: u32 = i + uniform_first;
            if visit >= len {
                visit = visit - len;
            }
            order.push(visit);
        }
        index = index + 1;
    }
    order
}

proof fn lemma_visited_from(len: u32, draws: Draws, n: nat, v: u32)
    requires
        visited(len, draws, n).contains(v),
        n <= 0x8000_0000,
    ensures
        exists|i: u32|
            i < n && #[trigger] scramble(i, draws, width(len as nat)) < len && v == rotate(
                scramble(i, draws, width(len as nat)),
                draws,
                len,
            ),
    decreases n,
{
    let rest = visited(len, draws, (n - 1) as nat);
    let last = (n - 1) as u32;
    if rest.contains(v) {
        lemma_visited_from(len, draws, (n - 1) as nat, v);
    } else {
        assert(scramble(last, draws, width(len as nat)) < len);
    }
}

proof fn lemma_visited_contains(len: u32, draws: Draws, n: nat, i: u32)
    requires
        i < n <= 0x8000_0000,
        scramble(i, draws, width(len as nat)) < len,
    ensures
        visited(len, draws, n).contains(
            rotate(scramble(i, draws, width(len as nat)), draws, len),
        ),
    decreases n,
{
    let rest = visited(len, draws, (n - 1) as nat);
    let v = rotate(scramble(i, draws, width(len as nat)), draws, len);
    if i == n - 1 {
        assert(visited(len, draws, n).last() == v);
    } else {
        lemma_visited_contains(len, draws, (n - 1) as nat, i);
        let at = rest.index_of(v);
        assert(visited(len, draws, n)[at] == v);
    }
}

proof fn lemma_visited_distinct(len: u32, draws: Draws, n: nat)
    requires
        len <= 0x8000_0000,
        n <= pow2(width(len as nat)),
    ensures
        visited(len, draws, n).no_duplicates(),
    decreases n,
{
    lemma_width_small(len);
    if n > 0 {
        lemma_visited_distinct(len, draws, (n - 1) as nat);
        let rest = visited(len, draws, (n - 1) as nat);
        let k = width(len as nat);
        let x = scramble((n - 1) as u32, draws, k);
        if x < len {
            let v = rotate(x, draws, len);
            if rest.contains(v) {
                lemma_visited_from(len, draws, (n - 1) as nat, v);
                let j = choose|j: u32|
                    j < n - 1 && #[trigger] scramble(j, draws, k) < len && v == rotate(
                        scramble(j, draws, k),
                        draws,
                        len,
                    );
                lemma_rotate_bounds(x, draws, len);
                lemma_rotate_bounds(scramble(j, draws, k), draws, len);
                lemma2_to64();
                lemma_scramble_injective(j, (n - 1) as u32, draws, k);
            }
        }
    }
}

/// Every value below `2^k` is the image of some index.
proof fn lemma_scramble_onto(draws: Draws, k: nat, x: u32)
    requires
        k <= 31,
        x < pow2(k),
    ensures
        exists|i: u32| i < pow2(k) && #[trigger] scramble(i, draws, k) == x,
{
    lemma2_to64();
    lemma_pow2_pos(k);
    if k < 31 {
        lemma_pow2_strictly_increases(k, 31);
    }
    let m: nat = pow2(k);
    let images: Seq<int> = Seq::new(m, |i: int| scramble(i as u32, draws, k) as int);
    assert(images.no_duplicates()) by {
        assert forall|a: int, b: int| 0 <= a < m && 0 <= b < m && a != b implies images[a]
            != images[b] by {
            if images[a] == images[b] {
                if k > 0 {
                    lemma_scramble_injective(a as u32, b as u32, draws, k);
                }
            }
        }
    }
    images.unique_seq_to_set();
    let all = vstd::set_lib::set_int_range(0, m as int);
    vstd::set_lib::lemma_int_range(0, m as int);
    assert(images.to_set().subset_of(all)) by {
        assert forall|y: int| images.to_set().contains(y) implies all.contains(y) by {
            let a = images.index_of(y);
            let w = wrap(
                ({
                    let mask: u32 = (pow2(k) - 1) as u32;
                    let p: u32 = wrap(wrap((a as u32) + draws.displace_zero) * (draws.odd1 | 1));
                    p ^ ((p & mask) >> mixing_shift(k))
                }) * (draws.odd2 | 1),
            );
            lemma_mask_mod(w, k);
        }
    }
    vstd::set_lib::lemma_subset_equality(images.to_set(), all);
    assert(images.to_set().contains(x as int));
    let i = images.index_of(x as int);
    assert(scramble(i as u32, draws, k) == x);
}

/// A visiting order of any length visits each index exactly once.
pub proof fn law_visits_each_once(len: u32, draws: Draws)
    requires
        len <= 0x8000_0000,
    ensures
        is_permutation(visit_order(len, draws), len),
{
    let k = width(len as nat);
    lemma_width_small(len);
    lemma_width_bounds(len as nat);
    lemma2_to64();
    let order = visit_order(len, draws);
    lemma_visited_distinct(len, draws, pow2(k));
    assert forall|v: u32| #[trigger] order.contains(v) <==> v < len by {
        if order.contains(v) {
            lemma_visited_from(len, draws, pow2(k), v);
            let i = choose|i: u32|
                i < pow2(k) && #[trigger] scramble(i, draws, k) < len && v == rotate(
                    scramble(i, draws, k),
                    draws,
                    len,
                );
            lemma_rotate_bounds(scramble(i, draws, k), draws, len);
        }
        if v < len {
            lemma_rotate_bounds(0, draws, len);
            let offset = first_offset(draws, len);
            let x: u32 = if v >= offset {
                (v - offset) as u32
            } else {
                (v + len - offset) as u32
            };
            lemma_rotate_bounds(x, draws, len);
            lemma_scramble_onto(draws, k, x);
            let i = choose|i: u32| i < pow2(k) && #[trigger] scramble(i, draws, k) == x;
            lemma_visited_contains(len, draws, pow2(k), i);
        }
    }
    let values: Seq<int> = order.map_values(|v: u32| v as int);
    assert(values.no_duplicates());
    values.unique_seq_to_set();
    let all = vstd::set_lib::set_int_range(0, len as int);
    vstd::set_lib::lemma_int_range(0, len as int);
    assert(values.to_set() =~= all) by {
        assert forall|y: int| values.to_set().contains(y) <==> all.contains(y) by {
            if values.to_set().contains(y) {
                let a = values.index_of(y);
                assert(order.contains(order[a]));
            }
            if all.contains(y) {
                assert(order.contains(y as u32));
                let a = order.index_of(y as u32);
                assert(values[a] == y);
            }
        }
    }
}

/// A visiting order of any length stays below it.
pub proof fn law_visits_in_range(len: u32, draws: Draws)
    requires
        len <= 0x8000_0000,
    ensures
        forall|i: int|
            0 <= i < visit_order(len, draws).len() ==> #[trigger] visit_order(len, draws)[i] < len,
{
    law_visits_each_once(len, draws);
    let order = visit_order(len, draws);
    assert(forall|i: int| 0 <= i < order.len() ==> order.contains(#[trigger] order[i]));
}

/// The generator that each worker draws its visiting orders from.
#[verifier::external_type_specification]
#[verifier::external_body]
pub struct ExSmallRng(SmallRng);

/// Calls `rand::RngExt::random` for a `u32` on a `SmallRng`. Nothing is claimed
/// of the word: it is random.
#[verifier::external_body]
fn small_rng_word(rng: &mut SmallRng) -> u32 {
    rng.random::<u32>()
}

/// Calls `rand::RngExt::random` for a `u32` on the generator of the calling
/// thread, `rand::rng`. Nothing is claimed of the word: it is random.
#[verifier::external_body]
fn thread_rng_word() -> u32 {
    rand::rng().random::<u32>()
}

/// A random order in which to visit `0..len`, drawn from `rng`.
pub fn random_permutation(len: u32, rng: &mut SmallRng) -> (order: Vec<u32>)
    requires
        len <= 0x8000_0000,
    ensures
        exists|draws: Draws| order@ == #[trigger] visit_order(len, draws),
        is_permutation(order@, len),
{
    let displace_zero: u32 = small_rng_word(rng);
    let odd1: u32 = small_rng_word(rng);
    let odd2: u32 = small_rng_word(rng);
    let uniform_first: u32 = small_rng_word(rng);
    let draws = Draws { displace_zero, odd1, odd2, uniform_first };
    permutation_from_draws(len, draws)
}

/// A random order in which to visit `0..len`, drawn from the calling thread's
/// generator.
pub fn thread_random_permutation(len: u32) -> (order: Vec<u32>)
    requires
        len <= 0x8000_0000,
    ensures
        exists|draws: Draws| order@ == #[trigger] visit_order(len, draws),
        is_permutation(order@, len),
{
    let displace_zero: u32 = thread_rng_word();
    let odd1: u32 = thread_rng_word();
    let odd2: u32 = thread_rng_word();
    let uniform_first: u32 = thread_rng_word();
    let draws = Draws { displace_zero, odd1, odd2, uniform_first };
    permutation_from_draws(len, draws)
}

/// An order visits every index below its length, each at one place.
pub proof fn law_order_has_a_place_for_each(
    len: u32,
    draws: Draws,
    order: Vec<u32>,
    rng: &mut SmallRng,
    drawn: Vec<u32>,
    i: u32,
)
    requires
        len <= 0x8000_0000,
        call_ensures(permutation_from_draws, (len, draws), order),
        call_ensures(random_permutation, (len, rng), drawn),
        i < len,
    ensures
        order@.len() == len,
        drawn@.len() == len,
        exists|k: int| 0 <= k < len && #[trigger] order@[k] == i,
        exists|k: int| 0 <= k < len && #[trigger] drawn@[k] == i,
        forall|a: int, b: int|
            0 <= a < b < len ==> #[trigger] order@[a] != #[trigger] order@[b],
        forall|a: int, b: int|
            0 <= a < b < len ==> #[trigger] drawn@[a] != #[trigger] drawn@[b],
        forall|a: int| 0 <= a < len ==> #[trigger] order@[a] < len,
        forall|a: int| 0 <= a < len ==> #[trigger] drawn@[a] < len,
{
    law_visits_each_once(len, draws);
    law_visits_in_range(len, draws);
    assert(order@.contains(i));
    assert(order@[order@.index_of(i)] == i);
    let others = choose|others: Draws| drawn@ == #[trigger] visit_order(len, others);
    law_visits_each_once(len, others);
    law_visits_in_range(len, others);
    assert(drawn@.contains(i));
    assert(drawn@[drawn@.index_of(i)] == i);
}

/// How far the two orders of one scrambling are rotated against each other.
proof fn lemma_rotated(len: u32, a: Draws, b: Draws, n: nat, k: int)
    requires
        len <= 0x8000_0000,
        n <= 0x8000_0000,
        b == (Draws { uniform_first: b.uniform_first, ..a }),
        0 <= k < visited(len, a, n).len(),
    ensures
        visited(len, b, n).len() == visited(len, a, n).len(),
        (visited(len, b, n)[k] - first_offset(b, len) - visited(len, a, n)[k] + first_offset(
            a,
            len,
        )) % (len as int) == 0,
    decreases n,
{
    let w = width(len as nat);
    let i = scramble((n - 1) as u32, a, w);
    assert(i == scramble((n - 1) as u32, b, w));
    let rest = visited(len, a, (n - 1) as nat);
    if k < rest.len() {
        lemma_rotated(len, a, b, (n - 1) as nat, k);
    } else {
        if rest.len() > 0 {
            lemma_rotated(len, a, b, (n - 1) as nat, 0);
        } else {
            lemma_visited_same_len(len, a, b, (n - 1) as nat);
        }
        lemma_rotate_bounds(i, a, len);
        lemma_rotate_bounds(i, b, len);
        let x = rotate(i, b, len) - first_offset(b, len) - rotate(i, a, len) + first_offset(a, len);
        assert(x == 0 || x == len || x == -len);
        lemma_mod_multiples_basic(1, len as int);
        lemma_mod_multiples_basic(-1, len as int);
        lemma_mod_multiples_basic(0, len as int);
    }
}

proof fn lemma_visited_same_len(len: u32, a: Draws, b: Draws, n: nat)
    requires
        b == (Draws { uniform_first: b.uniform_first, ..a }),
    ensures
        visited(len, b, n).len() == visited(len, a, n).len(),
    decreases n,
{
    if n > 0 {
        lemma_visited_same_len(len, a, b, (n - 1) as nat);
        let w = width(len as nat);
        assert(scramble((n - 1) as u32, a, w) == scramble((n - 1) as u32, b, w));
    }
}

/// The fourth draw only decides where an order starts: two orders that differ in
/// it alone are the same but for going around by the difference of their starts,
/// which are the shares of the length that the draws fall on.
pub proof fn law_last_draw_rotates_the_order(
    len: u32,
    a: Draws,
    b: Draws,
    first: Vec<u32>,
    second: Vec<u32>,
    a_start: nat,
    b_start: nat,
    k: int,
)
    requires
        len <= 0x8000_0000,
        call_ensures(permutation_from_draws, (len, a), first),
        call_ensures(permutation_from_draws, (len, b), second),
        b == (Draws { uniform_first: b.uniform_first, ..a }),
        a_start * 0x1_0000_0000 <= a.uniform_first * len < (a_start + 1) * 0x1_0000_0000,
        b_start * 0x1_0000_0000 <= b.uniform_first * len < (b_start + 1) * 0x1_0000_0000,
        0 <= k < len,
    ensures
        first@.len() == len && second@.len() == len,
        (second@[k] - b_start - first@[k] + a_start) % (len as int) == 0,
{
    law_visits_each_once(len, a);
    law_visits_each_once(len, b);
    lemma_width_small(len);
    lemma_fundamental_div_mod_converse(
        a.uniform_first * len,
        0x1_0000_0000,
        a_start as int,
        a.uniform_first * len - a_start * 0x1_0000_0000,
    );
    lemma_fundamental_div_mod_converse(
        b.uniform_first * len,
        0x1_0000_0000,
        b_start as int,
        b.uniform_first * len - b_start * 0x1_0000_0000,
    );
    lemma_rotated(len, a, b, pow2(width(len as nat)), k);
}

/// Every index can come first, whatever the other three draws are.
pub proof fn law_every_index_can_come_first(len: u32, draws: Draws, i: u32)
    requires
        i < len <= 0x8000_0000,
    ensures
        exists|uniform_first: u32|
            (#[trigger] visit_order(len, Draws { uniform_first, ..draws }))[0] == i,
{
    let n = len as int;
    let a = Draws { uniform_first: 0, ..draws };
    law_visits_each_once(len, a);
    law_visits_in_range(len, a);
    let base = visit_order(len, a)[0] as int;
    assert(0int * n == 0) by (nonlinear_arith);
    assert(first_offset(a, len) == 0);
    let off: int = if i >= base {
        i - base
    } else {
        i - base + n
    };
    let u: int = (off * 0x1_0000_0000 + n - 1) / n;
    lemma_fundamental_div_mod(off * 0x1_0000_0000 + n - 1, n);
    let r: int = (off * 0x1_0000_0000 + n - 1) % n;
    assert(u * n == off * 0x1_0000_0000 + n - 1 - r) by (nonlinear_arith)
        requires
            off * 0x1_0000_0000 + n - 1 == n * u + r,
    ;
    assert(0 <= r < n);
    assert(u * n < 0x1_0000_0000 * n);
    assert(0 <= u < 0x1_0000_0000) by (nonlinear_arith)
        requires
            u * n < 0x1_0000_0000 * n,
            u * n >= 0,
            n > 0,
    ;
    let b = Draws { uniform_first: u as u32, ..draws };
    lemma_fundamental_div_mod_converse(
        u * n,
        0x1_0000_0000,
        off,
        u * n - off * 0x1_0000_0000,
    );
    assert(first_offset(b, len) == off);
    law_visits_each_once(len, b);
    law_visits_in_range(len, b);
    lemma_width_small(len);
    lemma_rotated(len, a, b, pow2(width(len as nat)), 0);
    let got = visit_order(len, b)[0] as int;
    let x = got - off - base;
    assert(x % n == 0);
    lemma_fundamental_div_mod(x, n);
    let q = x / n;
    assert(got == i) by (nonlinear_arith)
        requires
            x == n * q,
            x == got - off - base,
            0 <= got < n,
            0 <= i < n,
            off + base == i || off + base == i + n,
            n > 0,
    ;
    assert(visit_order(len, Draws { uniform_first: u as u32, ..draws })[0] == i);
}

/// The scrambling of `k` bits, as arithmetic modulo `2^k`.
proof fn lemma_scramble_mod(i: u32, draws: Draws, k: nat)
    requires
        1 <= k <= 31,
    ensures
        ({
            let m: int = pow2(k) as int;
            let x: u32 = (((i + draws.displace_zero) * (draws.odd1 | 1)) % m) as u32;
            scramble(i, draws, k) == ((x ^ (x >> mixing_shift(k))) * (draws.odd2 | 1)) % m
        }),
{
    lemma2_to64();
    lemma_pow2_pos(k);
    if k < 31 {
        lemma_pow2_strictly_increases(k, 31);
    }
    let m: int = pow2(k) as int;
    let mask: u32 = (pow2(k) - 1) as u32;
    let odd1: u32 = draws.odd1 | 1;
    let odd2: u32 = draws.odd2 | 1;
    let sum: int = i + draws.displace_zero;
    let a: u32 = wrap(wrap(sum) * odd1);
    lemma_wrap_mod(wrap(sum) * odd1, k);
    lemma_wrap_mod(sum, k);
    lemma_mul_mod_noop(wrap(sum) as int, odd1 as int, m);
    lemma_mul_mod_noop(sum, odd1 as int, m);
    let x: u32 = ((sum * odd1) % m) as u32;
    lemma_mask_mod(a, k);
    assert(a & mask == x);
    let shift: u32 = mixing_shift(k);
    let p: u32 = x >> shift;
    assert(x >> shift <= x) by (bit_vector)
        requires
            shift < 32,
    ;
    lemma_mask_mod(p, k);
    lemma_small_mod(p as nat, m as nat);
    assert(p & mask == p);
    let b: u32 = a ^ p;
    assert((a ^ p) & mask == (a & mask) ^ (p & mask)) by (bit_vector);
    lemma_mask_mod(b, k);
    assert(b as int % m == (x ^ p) as int);
    let w: u32 = wrap(b * odd2);
    lemma_mask_mod(w, k);
    lemma_wrap_mod(b * odd2, k);
    lemma_mul_mod_noop(b as int, odd2 as int, m);
    lemma_mul_mod_noop((x ^ p) as int, odd2 as int, m);
    lemma_mask_mod(x ^ p, k);
    assert((x ^ p) & mask == (x & mask) ^ (p & mask)) by (bit_vector);
    lemma_mask_mod(x, k);
    lemma_small_mod(x as nat, m as nat);
}

proof fn lemma_all_visited(len: u32, draws: Draws, k: nat, n: nat)
    requires
        1 <= k <= 31,
        len == pow2(k),
        n <= pow2(k),
    ensures
        visited(len, draws, n).len() == n,
        forall|j: int|
            0 <= j < n ==> #[trigger] visited(len, draws, n)[j] == rotate(
                scramble(j as u32, draws, k),
                draws,
                len,
            ),
    decreases n,
{
    lemma2_to64();
    if k < 31 {
        lemma_pow2_strictly_increases(k, 31);
    }
    lemma_pow2_pos(k);
    lemma_pow2_unfold(k);
    lemma_pow2_pos((k - 1) as nat);
    lemma_width_unique(len as nat, k);
    if n > 0 {
        lemma_all_visited(len, draws, k, (n - 1) as nat);
        lemma_scramble_mod((n - 1) as u32, draws, k);
    }
}

/// The orders of powers of two: each index is displaced and multiplied, the
/// upper half of its bits mixed into the lower, and multiplied again, all modulo
/// the length. No bit is left unmixed, also where there is only one.
pub proof fn law_order_of_a_power_of_two(len: u32, k: nat, draws: Draws, order: Vec<u32>, j: int)
    requires
        1 <= k <= 31,
        len == pow2(k),
        draws.uniform_first == 0,
        call_ensures(permutation_from_draws, (len, draws), order),
        0 <= j < len,
    ensures
        order@.len() == len,
        ({
            let x: u32 = (((j + draws.displace_zero) * (draws.odd1 | 1)) % (len as int)) as u32;
            let mixed: u32 = if k == 1 {
                x ^ (x >> 1)
            } else {
                x ^ (x >> ((k / 2) as u32))
            };
            order@[j] == (mixed * (draws.odd2 | 1)) % (len as int)
        }),
{
    lemma2_to64();
    if k < 31 {
        lemma_pow2_strictly_increases(k, 31);
    }
    lemma_pow2_pos(k);
    lemma_pow2_unfold(k);
    lemma_pow2_pos((k - 1) as nat);
    lemma_width_unique(len as nat, k);
    lemma_all_visited(len, draws, k, pow2(k));
    lemma_scramble_mod(j as u32, draws, k);
    assert(0 * (len as int) == 0) by (nonlinear_arith);
    assert(first_offset(draws, len) == 0);
    lemma_small_mod(scramble(j as u32, draws, k) as nat, len as nat);
    assert(rotate(scramble(j as u32, draws, k), draws, len) == scramble(j as u32, draws, k));
}

proof fn lemma_visited_filters(len: u32, whole: u32, k: nat, draws: Draws, n: nat)
    requires
        1 <= k <= 31,
        whole == pow2(k),
        pow2((k - 1) as nat) < len <= whole,
        draws.uniform_first == 0,
        n <= pow2(k),
    ensures
        visited(len, draws, n) == visited(whole, draws, n).filter(|i: u32| i < len),
    decreases n,
{
    reveal(Seq::filter);
    let below = |i: u32| i < len;
    lemma2_to64();
    if k < 31 {
        lemma_pow2_strictly_increases(k, 31);
    }
    lemma_pow2_pos(k);
    lemma_pow2_unfold(k);
    lemma_pow2_pos((k - 1) as nat);
    lemma_width_unique(len as nat, k);
    lemma_width_unique(whole as nat, k);
    if n > 0 {
        lemma_visited_filters(len, whole, k, draws, (n - 1) as nat);
        let i = scramble((n - 1) as u32, draws, k);
        lemma_scramble_mod((n - 1) as u32, draws, k);
        assert(0 * (len as int) == 0 && 0 * (whole as int) == 0) by (nonlinear_arith);
        assert(first_offset(draws, len) == 0 && first_offset(draws, whole) == 0);
        lemma_small_mod(i as nat, whole as nat);
        assert(rotate(i, draws, whole) == i);
        let rest = visited(whole, draws, (n - 1) as nat);
        assert(visited(whole, draws, n) == rest.push(i));
        assert(rest.push(i).drop_last() =~= rest);
        if i < len {
            lemma_small_mod(i as nat, len as nat);
            assert(rotate(i, draws, len) == i);
        }
    }
}

/// The order of any other length is that of the next power of two, with what is
/// not below the length left out.
pub proof fn law_order_leaves_out_what_is_too_large(
    len: u32,
    whole: u32,
    k: nat,
    draws: Draws,
    order: Vec<u32>,
    all: Vec<u32>,
)
    requires
        1 <= k <= 31,
        whole == pow2(k),
        pow2((k - 1) as nat) < len <= whole,
        draws.uniform_first == 0,
        call_ensures(permutation_from_draws, (len, draws), order),
        call_ensures(permutation_from_draws, (whole, draws), all),
    ensures
        order@ == all@.filter(|i: u32| i < len),
{
    lemma2_to64();
    lemma_pow2_pos(k);
    lemma_pow2_unfold(k);
    lemma_pow2_pos((k - 1) as nat);
    lemma_width_unique(len as nat, k);
    lemma_width_unique(whole as nat, k);
    lemma_visited_filters(len, whole, k, draws, pow2(k));
}

} // verus!
