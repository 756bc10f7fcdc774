//! What the gadget computes, and the instructions that compute it.

use crate::bits::bits_le;
use crate::curve::{vesta_add, vesta_mul, Point};
use crate::error::GadgetError;
use crate::field::Scalar;
use crate::primitive::endoscale_spec;
use vstd::arithmetic::power2::pow2;
use vstd::prelude::*;

verus! {

/// Whether `e` is the endoscalar of some word of `k` bits, which is to say
/// whether the lookup table for `k` has a row for it.
pub open spec fn is_endoscalar(k: nat, e: nat) -> bool {
    exists|bits: Seq<bool>| bits.len() == k && #[trigger] endoscale_spec(bits) == e
}

/// The accumulator after one more share: the share itself where nothing
/// came before, else the sum of what came before and the share.
pub open spec fn combine(prev: Option<Seq<u8>>, share: Seq<u8>) -> Seq<u8> {
    match prev {
        None => share,
        Some(acc) => vesta_add(acc, share),
    }
}

/// What committing to one word gives: the base scaled by the word's
/// endoscalar and combined with the accumulator, if the table has a row for
/// the endoscalar.
pub open spec fn commit_word_spec(
    k: nat,
    base: Seq<u8>,
    endoscalar: nat,
    prev: Option<Seq<u8>>,
) -> Result<Seq<u8>, GadgetError> {
    if is_endoscalar(k, endoscalar) {
        Ok(combine(prev, vesta_mul(base, endoscalar)))
    } else {
        Err(GadgetError::Unsatisfied)
    }
}

/// How many limbs of `k` bits an element of `num_bits` bits has.
pub open spec fn limb_count(num_bits: nat, k: nat) -> nat {
    if k == 0 {
        0
    } else if num_bits % k == 0 {
        num_bits / k
    } else {
        num_bits / k + 1
    }
}

/// Limb `i` of `x`, counted from the least significant one.
pub open spec fn limb(x: nat, i: nat, k: nat) -> nat {
    (x / pow2(i * k)) % pow2(k)
}

/// The accumulator after the first `count` limbs of `x`, each scaled onto
/// its own base.
pub open spec fn fold_limbs(
    k: nat,
    bases: Seq<Seq<u8>>,
    x: nat,
    count: nat,
    prev: Option<Seq<u8>>,
) -> Option<Seq<u8>>
    decreases count,
{
    if count == 0 {
        prev
    } else {
        let i = (count - 1) as nat;
        Some(
            combine(
                fold_limbs(k, bases, x, i, prev),
                vesta_mul(bases[i as int], endoscale_spec(bits_le(limb(x, i, k), k))),
            ),
        )
    }
}

/// What committing to an element of `num_bits` bits gives. The bases must be
/// as many as the limbs; then the element must fit its width. An element of
/// no bits has no limb and leaves the accumulator as it was, and with no
/// accumulator either there is nothing to give.
pub open spec fn commit_field_elem_spec(
    k: nat,
    num_bits: nat,
    bases: Seq<Seq<u8>>,
    x: nat,
    prev: Option<Seq<u8>>,
) -> Result<Seq<u8>, GadgetError> {
    if k == 0 || bases.len() != limb_count(num_bits, k) {
        Err(GadgetError::Configuration)
    } else if x >= pow2(num_bits) {
        Err(GadgetError::Unsatisfied)
    } else {
        match fold_limbs(k, bases, x, limb_count(num_bits, k), prev) {
            Some(point) => Ok(point),
            None => Err(GadgetError::Configuration),
        }
    }
}

/// The encodings of a sequence of points.
pub open spec fn encodings(points: Seq<Point>) -> Seq<Seq<u8>> {
    Seq::new(points.len(), |i: int| points[i]@)
}

/// Instructions to map bitstring public inputs to and from endoscalars.
pub trait PubInputsInstructions<const K: usize, const N: usize> {
    /// A `K`-bit word.
    type Word;

    /// A commitment to a bitstring.
    type Commitment;

    /// The public input column: the number of the endoscalar in each row.
    spec fn instance(&self) -> Seq<nat>;

    /// The number of the endoscalar that stands for a word.
    spec fn word_endoscalar(word: &Self::Word) -> nat;

    /// The encoding of the point that a commitment is.
    spec fn commitment_point(commitment: &Self::Commitment) -> Seq<u8>;

    /// Gets a bitstring from its endoscalar representation.
    ///
    /// These endoscalars are provided as the cells in the public input
    /// column. No lookup is made here: the word only refers to the cell.
    fn get_bitstring(&self, row: usize) -> (r: Result<Self::Word, GadgetError>)
        ensures
            r is Ok <==> row < self.instance().len(),
            r matches Ok(word) ==> Self::word_endoscalar(&word) == self.instance()[row as int],
            r matches Err(e) ==> e == GadgetError::Layout,
    ;

    /// Compute commitment to a `K`-bit word using the endoscaling algorithm.
    fn commit_word(
        &self,
        base: Point,
        word: &Self::Word,
        prev_acc: Option<Self::Commitment>,
    ) -> (r: Result<Self::Commitment, GadgetError>)
        ensures
            (match r {
                Ok(commitment) => Ok::<Seq<u8>, GadgetError>(Self::commitment_point(&commitment)),
                Err(e) => Err(e),
            }) == commit_word_spec(
                K as nat,
                base@,
                Self::word_endoscalar(word),
                match prev_acc {
                    Some(acc) => Some(Self::commitment_point(&acc)),
                    None => None,
                },
            ),
    ;

    /// Compute commitment to a full-width field element using the endoscaling
    /// algorithm.
    fn commit_field_elem<const NUM_BITS: usize>(
        &self,
        bases: Vec<Point>,
        field_elem: Scalar,
        prev_acc: Option<Self::Commitment>,
    ) -> (r: Result<Self::Commitment, GadgetError>)
        ensures
            (match r {
                Ok(commitment) => Ok::<Seq<u8>, GadgetError>(Self::commitment_point(&commitment)),
                Err(e) => Err(e),
            }) == commit_field_elem_spec(
                K as nat,
                NUM_BITS as nat,
                encodings(bases@),
                field_elem.value(),
                match prev_acc {
                    Some(acc) => Some(Self::commitment_point(&acc)),
                    None => None,
                },
            ),
    ;
}

/// A field that offers the lookup table for decoding public inputs: one row
/// for each of the `N = 2^K` patterns of `K` bits, pairing the pattern with
/// its endoscalar.
pub trait PubInputsLookup<const K: usize, const N: usize>: Sized {
    /// The number that an element of the field is.
    spec fn number(&self) -> nat;

    /// The endoscalar that the field derives from a bit pattern.
    spec fn endoscalar(bits: Seq<bool>) -> nat;

    /// A lookup table mapping `K`-bit values to endoscalars: row `i` holds
    /// the `K` low bits of `i` and their endoscalar. It is refused when `N`
    /// is not `2^K`.
    fn table() -> (r: Result<[([bool; K], Self); N], GadgetError>)
        ensures
            r is Ok <==> N as nat == pow2(K as nat),
            r matches Err(e) ==> e == GadgetError::Configuration,
            r matches Ok(t) ==> {
                &&& forall|i: int|
                    0 <= i < N ==> (#[trigger] t@[i]).0@ == bits_le(i as nat, K as nat)
                &&& forall|i: int|
                    0 <= i < N ==> (#[trigger] t@[i]).1.number() == Self::endoscalar(
                        bits_le(i as nat, K as nat),
                    )
            },
    ;
}

} // verus!
