//! Numbers as patterns of bits, least significant bit first.

use vstd::arithmetic::div_mod::*;
use vstd::arithmetic::power2::*;
use vstd::bits::*;
use vstd::prelude::*;

verus! {

/// Bit `i` of `v`, counted from the least significant one.
pub open spec fn bit_at(v: nat, i: nat) -> bool {
    (v / pow2(i)) % 2 == 1
}

/// The `n` low bits of `v`, least significant first.
pub open spec fn bits_le(v: nat, n: nat) -> Seq<bool> {
    Seq::new(n, |i: int| bit_at(v, i as nat))
}

/// The number that a little-endian bit pattern denotes.
pub open spec fn bits_value(bits: Seq<bool>) -> nat
    decreases bits.len(),
{
    if bits.len() == 0 {
        0
    } else {
        (if bits[0] { 1nat } else { 0nat }) + 2 * bits_value(bits.drop_first())
    }
}

/// Dropping the lowest bit of a pattern halves the number.
proof fn lemma_bits_le_drop_first(v: nat, n: nat)
    requires
        n > 0,
    ensures
        bits_le(v, n).drop_first() == bits_le(v / 2, (n - 1) as nat),
        bits_le(v, n)[0] == (v % 2 == 1),
{
    lemma2_to64();
    assert forall|i: nat| #[trigger] bit_at(v / 2, i) == bit_at(v, i + 1) by {
        lemma_pow2_unfold(i + 1);
        lemma_pow2_pos(i);
        lemma_div_denominator(v as int, 2, pow2(i) as int);
    }
}

/// Reading `n` bits of a number and putting them together again gives the
/// number modulo `2^n`.
pub proof fn lemma_bits_value_of_bits_le(v: nat, n: nat)
    ensures
        bits_value(bits_le(v, n)) == v % pow2(n),
    decreases n,
{
    lemma2_to64();
    if n > 0 {
        lemma_bits_le_drop_first(v, n);
        lemma_bits_value_of_bits_le(v / 2, (n - 1) as nat);
        lemma_pow2_unfold(n);
        lemma_pow2_pos((n - 1) as nat);
        lemma_mod_breakdown(v as int, 2, pow2((n - 1) as nat) as int);
    }
}

/// A pattern of `n` bits denotes a number below `2^n`, whose `n` low bits
/// are the pattern.
pub proof fn lemma_bits_le_of_bits_value(bits: Seq<bool>)
    ensures
        bits_value(bits) < pow2(bits.len()),
        bits_le(bits_value(bits), bits.len()) == bits,
    decreases bits.len(),
{
    lemma2_to64();
    let n = bits.len();
    if n > 0 {
        let rest = bits.drop_first();
        let v = bits_value(bits);
        lemma_bits_le_of_bits_value(rest);
        lemma_pow2_unfold(n);
        lemma_bits_le_drop_first(v, n);
        assert(bits_le(v, n) =~= bits) by {
            assert forall|i: int| 0 <= i < n implies bits_le(v, n)[i] == bits[i] by {
                if i > 0 {
                    assert(bits[i] == rest[i - 1]);
                }
            }
        }
    }
}

/// Bit `a + b` of a number is bit `b` of the number shifted down by `a`.
pub proof fn lemma_bit_at_shift(v: nat, a: nat, b: nat)
    ensures
        bit_at(v, a + b) == bit_at(v / pow2(a), b),
{
    lemma_pow2_pos(a);
    lemma_pow2_pos(b);
    lemma_pow2_adds(a, b);
    lemma_div_denominator(v as int, pow2(a) as int, pow2(b) as int);
}

/// A number below `2^n` has no bit set from bit `n` on.
pub proof fn lemma_bit_at_above(v: nat, n: nat, i: nat)
    requires
        v < pow2(n),
        n <= i,
    ensures
        !bit_at(v, i),
{
    if n < i {
        lemma_pow2_strictly_increases(n, i);
    }
    lemma_basic_div(v as int, pow2(i) as int);
}

/// A number below `2^m` with no bit set from bit `n` up to bit `m` is below
/// `2^n`.
pub proof fn lemma_below_when_high_bits_clear(v: nat, n: nat, m: nat)
    requires
        n <= m,
        v < pow2(m),
        forall|i: nat| n <= i < m ==> !bit_at(v, i),
    ensures
        v < pow2(n),
    decreases m - n,
{
    if n < m {
        let top = (m - 1) as nat;
        lemma_pow2_unfold(m);
        assert(!bit_at(v, top));
        let q = v / pow2(top);
        lemma_fundamental_div_mod(v as int, pow2(top) as int);
        assert(q < 2) by (nonlinear_arith)
            requires
                v == pow2(top) * q + v % pow2(top),
                0 <= v % pow2(top),
                v < 2 * pow2(top),
                0 < pow2(top),
        ;
        assert(pow2(top) * q == 0) by (nonlinear_arith)
            requires
                q == 0,
        ;
        lemma_below_when_high_bits_clear(v, n, top);
    }
}

/// Two numbers below `2^n` with the same `n` low bits are the same number.
pub proof fn lemma_bits_le_injective(a: nat, b: nat, n: nat)
    requires
        a < pow2(n),
        b < pow2(n),
        bits_le(a, n) == bits_le(b, n),
    ensures
        a == b,
{
    lemma_bits_value_of_bits_le(a, n);
    lemma_bits_value_of_bits_le(b, n);
    lemma_small_mod(a, pow2(n));
    lemma_small_mod(b, pow2(n));
}

/// The `NUM_BITS` low bits of `value`, least significant first. Bits past
/// the sixty-fourth are zero.
pub fn i2lebsp<const NUM_BITS: usize>(value: u64) -> (bits: [bool; NUM_BITS])
    ensures
        bits@ == bits_le(value as nat, NUM_BITS as nat),
{
    let mut bits: [bool; NUM_BITS] = [false; NUM_BITS];
    let mut i: usize = 0;
    while i < NUM_BITS
        invariant
            i <= NUM_BITS,
            bits@.len() == NUM_BITS,
            forall|j: int| 0 <= j < i ==> bits@[j] == bit_at(value as nat, j as nat),
        decreases NUM_BITS - i,
    {
        let bit = if i < 64 {
            let shifted: u64 = value >> (i as u64);
            proof {
                lemma_u64_shr_is_div(value, i as u64);
                assert((shifted & 1 == 1) == (shifted % 2 == 1)) by (bit_vector);
            }
            shifted & 1 == 1
        } else {
            proof {
                lemma2_to64_rest();
                if i > 64 {
                    lemma_pow2_strictly_increases(64, i as nat);
                }
                lemma_basic_div(value as int, pow2(i as nat) as int);
            }
            false
        };
        bits[i] = bit;
        i = i + 1;
    }
    bits
}

/// Whether `n` is `2^k`, the number of patterns of `k` bits.
pub fn is_power_of_two(n: usize, k: usize) -> (same: bool)
    ensures
        same == (n as nat == pow2(k as nat)),
{
    let mut power: usize = 1;
    let mut i: usize = 0;
    proof {
        lemma2_to64();
    }
    while i < k
        invariant
            i <= k,
            power as nat == pow2(i as nat),
        decreases k - i,
    {
        if power > usize::MAX / 2 {
            proof {
                lemma_pow2_unfold(i as nat + 1);
                if i + 1 < k {
                    lemma_pow2_strictly_increases(i as nat + 1, k as nat);
                }
            }
            return false;
        }
        proof {
            lemma_pow2_unfold(i as nat + 1);
        }
        power = 2 * power;
        i = i + 1;
    }
    power == n
}

} // verus!
