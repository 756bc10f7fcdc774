//! The endoscalar of a word.
//!
//! The bits of a word are read in pairs, least significant pair first. The
//! accumulator starts at `2 (zeta + 1)`; each pair `(b0, b1)` doubles it and
//! adds `(2 b0 - 1) zeta^b1`, all in the field.

use crate::field::{modulus, zeta, Scalar};
use vstd::arithmetic::div_mod::*;
use vstd::prelude::*;

verus! {

/// Bit `i` of a word, with zeros past its end.
pub open spec fn word_bit(bits: Seq<bool>, i: int) -> bool {
    0 <= i < bits.len() && bits[i]
}

/// What one pair of bits adds to an endoscalar: `1` or `-1` as the first
/// bit says, times `zeta` if the second bit is set.
pub open spec fn pair_scalar(b0: bool, b1: bool) -> nat {
    let sign: nat = if b0 { 1 } else { (modulus() - 1) as nat };
    if b1 {
        (sign * zeta()) % modulus()
    } else {
        sign
    }
}

/// The accumulator before any pair of bits has been read: `2 (zeta + 1)`.
pub open spec fn initial_acc() -> nat {
    (2 * (zeta() + 1)) % modulus()
}

/// The accumulator after the first `pairs` pairs of bits of a word: each
/// pair doubles it and adds its own share.
pub open spec fn endoscale_pairs(bits: Seq<bool>, pairs: nat) -> nat
    decreases pairs,
{
    if pairs == 0 {
        initial_acc()
    } else {
        (2 * endoscale_pairs(bits, (pairs - 1) as nat) + pair_scalar(
            word_bit(bits, 2 * pairs - 2),
            word_bit(bits, 2 * pairs - 1),
        )) % modulus()
    }
}

/// The endoscalar of a word: its bits are read in pairs, least significant
/// pair first, and a word of odd length is read with a zero after its end.
pub open spec fn endoscale_spec(bits: Seq<bool>) -> nat {
    endoscale_pairs(bits, (bits.len() + 1) / 2)
}

/// An endoscalar is a field element.
pub proof fn lemma_endoscale_below_modulus(bits: Seq<bool>)
    ensures
        endoscale_spec(bits) < modulus(),
{
}

/// The share of one pair of bits.
pub fn endoscale_pair_scalar(b0: bool, b1: bool) -> (r: Scalar)
    ensures
        r.value() == pair_scalar(b0, b1),
{
    let one = Scalar::from_u64(1);
    let sign = if b0 { one } else { one.neg() };
    if b1 {
        let z = Scalar::zeta();
        sign.mul(&z)
    } else {
        sign
    }
}

/// The endoscalar of a word.
pub fn endoscale_scalar<const K: usize>(bits: [bool; K]) -> (r: Scalar)
    ensures
        r.value() == endoscale_spec(bits@),
{
    let one = Scalar::from_u64(1);
    let zeta_plus_one = Scalar::zeta().add(&one);
    let mut acc = zeta_plus_one.add(&zeta_plus_one);
    let n = K;
    let pairs = n / 2 + n % 2;
    let mut j: usize = 0;
    while j < pairs
        invariant
            j <= pairs,
            n == bits@.len(),
            pairs == (n + 1) / 2,
            acc.value() == endoscale_pairs(bits@, j as nat),
        decreases pairs - j,
    {
        let b0 = bits[2 * j];
        let b1 = if 2 * j + 1 < n { bits[2 * j + 1] } else { false };
        let share = endoscale_pair_scalar(b0, b1);
        let doubled = acc.add(&acc);
        proof {
            lemma_add_mod_noop(
                (2 * acc.value()) as int,
                share.value() as int,
                modulus() as int,
            );
        }
        acc = doubled.add(&share);
        j = j + 1;
    }
    acc
}

} // verus!
