//! The instructions carried out on plain values, outside any circuit.

use crate::bits::{bits_le, lemma_bit_at_above, lemma_bits_le_of_bits_value};
use crate::curve::Point;
use crate::error::GadgetError;
use crate::field::{lemma_value_below_pow2, Scalar};
use crate::gadget::{
    encodings, fold_limbs, is_endoscalar, limb, limb_count, PubInputsInstructions, PubInputsLookup,
};
use crate::lookup::is_table;
use crate::primitive::endoscale_spec;
use vstd::arithmetic::div_mod::*;
use vstd::arithmetic::power2::*;
use vstd::prelude::*;

verus! {

/// A word as the public input column holds it: the row of its cell and the
/// endoscalar that the cell holds. The bits are not in it; the table finds
/// them when the word is committed to.
#[derive(Clone, Copy, Debug)]
pub struct Word {
    pub row: usize,
    pub endoscalar: Scalar,
}

/// The numbers that a sequence of field elements are.
pub open spec fn numbers(elements: Seq<Scalar>) -> Seq<nat> {
    Seq::new(elements.len(), |i: int| elements[i].value())
}

/// The gadget worked out in the open: a public input column, and the table
/// that every lookup goes to.
pub struct NativePubInputs<const K: usize, const N: usize> {
    instance: Vec<Scalar>,
    table: [([bool; K], Scalar); N],
}

impl<const K: usize, const N: usize> NativePubInputs<K, N> {
    #[verifier::type_invariant]
    spec fn loaded(self) -> bool {
        is_table(self.table)
    }

    /// Takes the public input column and builds the table. It is refused
    /// when `N` is not `2^K`.
    pub fn new(instance: Vec<Scalar>) -> (r: Result<Self, GadgetError>)
        ensures
            r is Ok <==> N as nat == pow2(K as nat),
            r matches Ok(gadget) ==> gadget.instance() == numbers(instance@),
            r matches Err(e) ==> e == GadgetError::Configuration,
    {
        match <Scalar as PubInputsLookup<K, N>>::table() {
            Ok(table) => {
                let gadget = NativePubInputs { instance, table };
                Ok(gadget)
            },
            Err(e) => Err(e),
        }
    }

    /// Whether the table has the row that pairs the pattern `pattern`, read
    /// as `K` bits, with `endoscalar`. A pattern of more than `K` bits has no
    /// row.
    pub fn lookup(&self, pattern: u64, endoscalar: &Scalar) -> (found: bool)
        ensures
            found == (pattern < pow2(K as nat) && endoscalar.value() == endoscale_spec(
                bits_le(pattern as nat, K as nat),
            )),
    {
        proof {
            use_type_invariant(self);
        }
        if pattern >= N as u64 {
            return false;
        }
        self.table[pattern as usize].1.equals(endoscalar)
    }

    /// The first row of the table that holds `endoscalar`, if there is one.
    pub fn find(&self, endoscalar: &Scalar) -> (r: Option<usize>)
        ensures
            r is Some <==> is_endoscalar(K as nat, endoscalar.value()),
            r matches Some(i) ==> i < N && endoscale_spec(bits_le(i as nat, K as nat))
                == endoscalar.value(),
            r matches Some(i) ==> forall|j: nat|
                j < i ==> endoscale_spec(#[trigger] bits_le(j, K as nat)) != endoscalar.value(),
    {
        proof {
            use_type_invariant(self);
        }
        let mut index: usize = 0;
        while index < N
            invariant
                index <= N,
                is_table(self.table),
                forall|j: nat|
                    j < index ==> endoscale_spec(#[trigger] bits_le(j, K as nat))
                        != endoscalar.value(),
            decreases N - index,
        {
            if self.table[index].1.equals(endoscalar) {
                return Some(index);
            }
            index = index + 1;
        }
        proof {
            assert forall|bits: Seq<bool>| bits.len() == K implies endoscale_spec(bits)
                != endoscalar.value() by {
                lemma_bits_le_of_bits_value(bits);
            }
        }
        None
    }

    /// Limb `i` of a field element, the limbs being of `K` bits.
    fn limb_of(field_elem: &Scalar, i: usize) -> (l: usize)
        requires
            N as nat == pow2(K as nat),
        ensures
            l as nat == limb(field_elem.value(), i as nat, K as nat),
            l < N,
    {
        let ghost x = field_elem.value();
        let ghost low = i as nat * K as nat;
        let mut acc: usize = 0;
        let mut b: usize = K;
        proof {
            lemma_value_below_pow2(*field_elem);
            lemma2_to64();
        }
        while b > 0
            invariant
                b <= K,
                N as nat == pow2(K as nat),
                x == field_elem.value(),
                x < pow2(256),
                low == i as nat * K as nat,
                acc as nat == (x / pow2(low + b as nat)) % pow2((K - b) as nat),
            decreases b,
        {
            b = b - 1;
            let set = if i < 256 {
                assert(i * K <= 256 * K) by (nonlinear_arith)
                    requires
                        i < 256,
                        0 <= K,
                ;
                assert(256 * K + b < 0x1_0000_0000_0000_0000_0000);
                let position: u128 = i as u128 * K as u128 + b as u128;
                if position < 256 {
                    field_elem.bit(position as usize)
                } else {
                    proof {
                        lemma_bit_at_above(x, 256, position as nat);
                    }
                    false
                }
            } else {
                proof {
                    assert(low + b >= 256) by (nonlinear_arith)
                        requires
                            low == i as nat * K as nat,
                            i >= 256,
                            K >= 1,
                    ;
                    lemma_bit_at_above(x, 256, low + b as nat);
                }
                false
            };
            proof {
                let y = x / pow2(low + b as nat);
                let width = (K - b - 1) as nat;
                lemma_pow2_pos(low + b as nat);
                lemma_pow2_pos(width);
                lemma_pow2_unfold(low + b as nat + 1);
                lemma_pow2_unfold(width + 1);
                lemma_div_denominator(x as int, pow2(low + b as nat) as int, 2);
                lemma_mod_breakdown(y as int, 2, pow2(width) as int);
                if width + 1 < K {
                    lemma_pow2_strictly_increases(width + 1, K as nat);
                }
            }
            acc = 2 * acc + (if set { 1 } else { 0 });
        }
        proof {
            lemma_pow2_pos(K as nat);
        }
        acc
    }
}

impl<const K: usize, const N: usize> PubInputsInstructions<K, N> for NativePubInputs<K, N> {
    type Word = Word;

    type Commitment = Point;

    closed spec fn instance(&self) -> Seq<nat> {
        numbers(self.instance@)
    }

    open spec fn word_endoscalar(word: &Word) -> nat {
        word.endoscalar.value()
    }

    open spec fn commitment_point(commitment: &Point) -> Seq<u8> {
        commitment@
    }

    fn get_bitstring(&self, row: usize) -> (r: Result<Word, GadgetError>)
        ensures
            r matches Ok(word) ==> word.row == row,
    {
        if row < self.instance.len() {
            Ok(Word { row, endoscalar: self.instance[row] })
        } else {
            Err(GadgetError::Layout)
        }
    }

    fn commit_word(&self, base: Point, word: &Word, prev_acc: Option<Point>) -> (r: Result<
        Point,
        GadgetError,
    >) {
        match self.find(&word.endoscalar) {
            None => Err(GadgetError::Unsatisfied),
            Some(_) => {
                let share = base.mul(&word.endoscalar);
                match prev_acc {
                    None => Ok(share),
                    Some(acc) => Ok(acc.add(&share)),
                }
            },
        }
    }

    fn commit_field_elem<const NUM_BITS: usize>(
        &self,
        bases: Vec<Point>,
        field_elem: Scalar,
        prev_acc: Option<Point>,
    ) -> (r: Result<Point, GadgetError>) {
        proof {
            use_type_invariant(self);
        }
        if K == 0 {
            return Err(GadgetError::Configuration);
        }
        proof {
            if NUM_BITS % K != 0 {
                lemma_div_decreases(NUM_BITS as int, K as int);
            }
        }
        let count: usize = if NUM_BITS % K == 0 {
            NUM_BITS / K
        } else {
            NUM_BITS / K + 1
        };
        assert(count as nat == limb_count(NUM_BITS as nat, K as nat));
        if bases.len() != count {
            return Err(GadgetError::Configuration);
        }
        if !field_elem.fits(NUM_BITS) {
            return Err(GadgetError::Unsatisfied);
        }
        let ghost prev: Option<Seq<u8>> = match prev_acc {
            Some(acc) => Some(acc@),
            None => None,
        };
        let mut acc: Option<Point> = prev_acc;
        let mut i: usize = 0;
        while i < count
            invariant
                i <= count,
                count == bases@.len(),
                is_table(self.table),
                (match acc {
                    Some(point) => Some(point@),
                    None => None,
                }) == fold_limbs(
                    K as nat,
                    encodings(bases@),
                    field_elem.value(),
                    i as nat,
                    prev,
                ),
            decreases count - i,
        {
            let l = Self::limb_of(&field_elem, i);
            let endoscalar = self.table[l].1;
            let share = bases[i].mul(&endoscalar);
            acc = Some(
                match acc {
                    None => share,
                    Some(point) => point.add(&share),
                },
            );
            i = i + 1;
        }
        match acc {
            Some(point) => Ok(point),
            None => Err(GadgetError::Configuration),
        }
    }
}

} // verus!
