//! What holds of the table and of the commitments, for every width and
//! every input.

use crate::bits::{
    bits_le, bits_value, lemma_bits_le_injective, lemma_bits_le_of_bits_value,
    lemma_bits_value_of_bits_le,
};
use crate::curve::{vesta_add, vesta_mul};
use crate::error::GadgetError;
use crate::field::{lemma_same_number_same_element, Scalar};
use crate::gadget::{
    combine, commit_field_elem_spec, commit_word_spec, fold_limbs, is_endoscalar, limb, limb_count,
};
use crate::lookup::{is_table, loaded, row_assignments, table_rows, table_spec};
use crate::primitive::endoscale_spec;
use vstd::arithmetic::div_mod::*;
use vstd::arithmetic::power2::*;
use vstd::prelude::*;

verus! {

/// What `table` returns holds the rows of `table_spec`.
pub proof fn lemma_table_rows<const K: usize, const N: usize>(table: [([bool; K], Scalar); N])
    requires
        is_table(table),
    ensures
        table_rows(table@) == table_spec(K as nat),
{
}

/// The table is complete. It has `2^k` rows. No two rows hold the same
/// pattern. Row `v` holds the pattern that denotes `v`, so that every number
/// below `2^k` has its row, and every pattern of `k` bits stands in the row
/// of the number it denotes.
pub proof fn lemma_table_complete(k: nat)
    ensures
        table_spec(k).len() == pow2(k),
        forall|i: int, j: int|
            0 <= i < j < pow2(k) ==> (#[trigger] table_spec(k)[i]).0 != (#[trigger] table_spec(
                k,
            )[j]).0,
        forall|v: int| 0 <= v < pow2(k) ==> bits_value((#[trigger] table_spec(k)[v]).0) == v,
        forall|bits: Seq<bool>|
            bits.len() == k ==> #[trigger] bits_value(bits) < pow2(k) && table_spec(
                k,
            )[bits_value(bits) as int].0 == bits,
{
    assert forall|i: int, j: int| 0 <= i < j < pow2(k) implies (#[trigger] table_spec(k)[i]).0 != (
    #[trigger] table_spec(k)[j]).0 by {
        if bits_le(i as nat, k) == bits_le(j as nat, k) {
            lemma_bits_le_injective(i as nat, j as nat, k);
        }
    }
    assert forall|v: int| 0 <= v < pow2(k) implies bits_value((#[trigger] table_spec(k)[v]).0)
        == v by {
        lemma_bits_value_of_bits_le(v as nat, k);
        lemma_small_mod(v as nat, pow2(k));
    }
    assert forall|bits: Seq<bool>| bits.len() == k implies #[trigger] bits_value(bits) < pow2(k)
        && table_spec(k)[bits_value(bits) as int].0 == bits by {
        lemma_bits_le_of_bits_value(bits);
    }
}

/// The table is determined by `K`. Every row pairs its pattern with the
/// endoscalar of that pattern, and two tables for the same `K` are the same
/// table.
pub proof fn lemma_table_deterministic<const K: usize, const N: usize>(
    first: [([bool; K], Scalar); N],
    second: [([bool; K], Scalar); N],
)
    requires
        is_table(first),
        is_table(second),
    ensures
        forall|i: int|
            0 <= i < N ==> (#[trigger] first@[i]).1.value() == endoscale_spec(first@[i].0@),
        first == second,
{
    assert forall|i: int| 0 <= i < N implies first@[i] == second@[i] by {
        lemma_same_number_same_element(first@[i].1, second@[i].1);
    }
}

/// The pattern of every word of `k` bits has an endoscalar that the table
/// for `k` holds.
pub proof fn lemma_word_is_in_table(k: nat, bits: Seq<bool>)
    requires
        bits.len() == k,
    ensures
        is_endoscalar(k, endoscale_spec(bits)),
{
}

/// A single word, with no accumulator before it, commits to the base scaled
/// by the endoscalar of the word.
pub proof fn lemma_single_word(k: nat, base: Seq<u8>, bits: Seq<bool>)
    requires
        bits.len() == k,
    ensures
        commit_word_spec(k, base, endoscale_spec(bits), None) == Ok::<Seq<u8>, GadgetError>(
            vesta_mul(base, endoscale_spec(bits)),
        ),
{
}

/// Two words committed to one after the other, the second on the
/// accumulator of the first, give the sum of the two bases, each scaled by
/// the endoscalar of its word.
pub proof fn lemma_chaining(
    k: nat,
    first_base: Seq<u8>,
    second_base: Seq<u8>,
    first_word: Seq<bool>,
    second_word: Seq<bool>,
)
    requires
        first_word.len() == k,
        second_word.len() == k,
    ensures
        commit_word_spec(k, first_base, endoscale_spec(first_word), None) is Ok,
        commit_word_spec(
            k,
            second_base,
            endoscale_spec(second_word),
            Some(commit_word_spec(k, first_base, endoscale_spec(first_word), None)->Ok_0),
        ) == Ok::<Seq<u8>, GadgetError>(
            vesta_add(
                vesta_mul(first_base, endoscale_spec(first_word)),
                vesta_mul(second_base, endoscale_spec(second_word)),
            ),
        ),
{
}

/// Every limb of an element is committed to as a word: the accumulator
/// after one more limb is what committing to the word of that limb gives, on
/// the base of the limb and the accumulator of the limbs before it.
pub proof fn lemma_limb_is_word(
    k: nat,
    bases: Seq<Seq<u8>>,
    x: nat,
    count: nat,
    prev: Option<Seq<u8>>,
)
    ensures
        Ok::<Seq<u8>, GadgetError>(fold_limbs(k, bases, x, count + 1, prev).unwrap())
            == commit_word_spec(
            k,
            bases[count as int],
            endoscale_spec(bits_le(limb(x, count, k), k)),
            fold_limbs(k, bases, x, count, prev),
        ),
{
}

/// Committing to an element of `2 k` bits on two bases is committing to its
/// low limb on the first base and then to its high limb on the second, the
/// second on the accumulator of the first.
pub proof fn lemma_two_limbs(
    k: nat,
    low_base: Seq<u8>,
    high_base: Seq<u8>,
    x: nat,
    prev: Option<Seq<u8>>,
)
    requires
        k > 0,
        x < pow2(2 * k),
    ensures
        commit_word_spec(k, low_base, endoscale_spec(bits_le(limb(x, 0, k), k)), prev) is Ok,
        commit_field_elem_spec(k, 2 * k, seq![low_base, high_base], x, prev) == commit_word_spec(
            k,
            high_base,
            endoscale_spec(bits_le(limb(x, 1, k), k)),
            Some(
                commit_word_spec(
                    k,
                    low_base,
                    endoscale_spec(bits_le(limb(x, 0, k), k)),
                    prev,
                )->Ok_0,
            ),
        ),
{
    let bases = seq![low_base, high_base];
    assert(limb_count(2 * k, k) == 2) by {
        lemma_mod_multiples_basic(2, k as int);
        lemma_div_multiples_vanish(2, k as int);
    }
    assert(fold_limbs(k, bases, x, 0, prev) == prev);
    assert(fold_limbs(k, bases, x, 1, prev) == Some(
        combine(prev, vesta_mul(low_base, endoscale_spec(bits_le(limb(x, 0, k), k)))),
    ));
    assert(fold_limbs(k, bases, x, 2, prev) == Some(
        combine(
            fold_limbs(k, bases, x, 1, prev),
            vesta_mul(high_base, endoscale_spec(bits_le(limb(x, 1, k), k))),
        ),
    ));
}

/// A word whose endoscalar the table does not hold is refused, whatever the
/// base and the accumulator.
pub proof fn lemma_lookup_rejects(k: nat, base: Seq<u8>, endoscalar: nat, prev: Option<Seq<u8>>)
    requires
        !is_endoscalar(k, endoscalar),
    ensures
        commit_word_spec(k, base, endoscalar, prev) == Err::<Seq<u8>, GadgetError>(
            GadgetError::Unsatisfied,
        ),
{
}

/// Bases that are not as many as the limbs are refused, before the element
/// is looked at.
pub proof fn lemma_length_mismatch_rejects(
    k: nat,
    num_bits: nat,
    bases: Seq<Seq<u8>>,
    x: nat,
    prev: Option<Seq<u8>>,
)
    requires
        bases.len() != limb_count(num_bits, k),
    ensures
        commit_field_elem_spec(k, num_bits, bases, x, prev) == Err::<Seq<u8>, GadgetError>(
            GadgetError::Configuration,
        ),
{
}

/// Loading assigns `2 * 2^k` cells and none of them twice: at every offset
/// below `2^k` the cell of the pattern column and the cell of the endoscalar
/// column, once each.
pub proof fn lemma_each_cell_once(bits: nat, endoscalar: nat, k: nat)
    requires
        endoscalar == bits + 1,
    ensures
        row_assignments(bits, endoscalar, k, pow2(k)).len() == 2 * pow2(k),
        forall|i: int, j: int|
            0 <= i < j < 2 * pow2(k) ==> (#[trigger] row_assignments(
                bits,
                endoscalar,
                k,
                pow2(k),
            )[i]).0 != (#[trigger] row_assignments(bits, endoscalar, k, pow2(k))[j]).0,
        forall|offset: nat|
            offset < pow2(k) ==> {
                &&& (#[trigger] row_assignments(bits, endoscalar, k, pow2(k))[2 * offset as int]).0 == (
                    bits,
                    offset,
                )
                &&& row_assignments(bits, endoscalar, k, pow2(k))[2 * offset as int + 1].0 == (
                    endoscalar,
                    offset,
                )
            },
{
}

/// A loaded table holds every row: at each offset below `2^k`, the offset
/// itself in the column of the bit patterns and, beside it, the endoscalar
/// of the `k` low bits of the offset.
pub proof fn lemma_loaded_rows(before: Map<(nat, nat), nat>, bits: nat, endoscalar: nat, k: nat)
    requires
        endoscalar == bits + 1,
    ensures
        forall|v: nat|
            v < pow2(k) ==> {
                &&& #[trigger] loaded(before, bits, endoscalar, k).dom().contains((bits, v))
                &&& loaded(before, bits, endoscalar, k).dom().contains((endoscalar, v))
                &&& loaded(before, bits, endoscalar, k)[(bits, v)] == v
                &&& loaded(before, bits, endoscalar, k)[(endoscalar, v)] == endoscale_spec(
                    bits_le(v, k),
                )
            },
{
}

/// Where the column of the bit patterns was empty, loading leaves it with
/// exactly `2^k` cells, at the offsets below `2^k`; each holds its own
/// offset, so that no two hold the same pattern and every number below
/// `2^k` is held.
pub proof fn lemma_loaded_patterns(before: Map<(nat, nat), nat>, bits: nat, endoscalar: nat, k: nat)
    requires
        endoscalar == bits + 1,
        forall|offset: nat| !before.dom().contains((bits, offset)),
    ensures
        forall|offset: nat| #[trigger]
            loaded(before, bits, endoscalar, k).dom().contains((bits, offset)) <==> offset < pow2(
                k,
            ),
        forall|offset: nat|
            offset < pow2(k) ==> #[trigger] loaded(before, bits, endoscalar, k)[(bits, offset)]
                == offset,
        forall|i: nat, j: nat|
            i < j < pow2(k) ==> #[trigger] loaded(before, bits, endoscalar, k)[(bits, i)]
                != #[trigger] loaded(before, bits, endoscalar, k)[(bits, j)],
{
}

/// Where the column of the bit patterns was empty, a loaded table has one
/// row for the word that denotes `v`, at offset `v` and nowhere else, and a
/// single word on the endoscalar of that row commits to the base scaled by
/// the endoscalar of the `k` low bits of `v`.
pub proof fn lemma_loaded_word(
    before: Map<(nat, nat), nat>,
    bits: nat,
    endoscalar: nat,
    k: nat,
    v: nat,
    offset: nat,
    base: Seq<u8>,
)
    requires
        endoscalar == bits + 1,
        forall|other: nat| !before.dom().contains((bits, other)),
        v < pow2(k),
        loaded(before, bits, endoscalar, k).dom().contains((bits, offset)),
        loaded(before, bits, endoscalar, k)[(bits, offset)] == v,
    ensures
        offset == v,
        loaded(before, bits, endoscalar, k)[(endoscalar, offset)] == endoscale_spec(bits_le(v, k)),
        commit_word_spec(k, base, loaded(before, bits, endoscalar, k)[(endoscalar, offset)], None)
            == Ok::<Seq<u8>, GadgetError>(vesta_mul(base, endoscale_spec(bits_le(v, k)))),
{
    lemma_word_is_in_table(k, bits_le(v, k));
}

/// Two words looked up in one loaded table, whether they are the same word
/// or not, find the endoscalars of their own patterns, and chained they
/// commit to the sum of the two bases, each scaled by its endoscalar.
pub proof fn lemma_loaded_chain(
    before: Map<(nat, nat), nat>,
    bits: nat,
    endoscalar: nat,
    k: nat,
    first: nat,
    second: nat,
    first_base: Seq<u8>,
    second_base: Seq<u8>,
)
    requires
        endoscalar == bits + 1,
        first < pow2(k),
        second < pow2(k),
    ensures
        ({
            let table = loaded(before, bits, endoscalar, k);
            let e1 = table[(endoscalar, first)];
            let e2 = table[(endoscalar, second)];
            &&& table[(bits, first)] == first
            &&& table[(bits, second)] == second
            &&& e1 == endoscale_spec(bits_le(first, k))
            &&& e2 == endoscale_spec(bits_le(second, k))
            &&& commit_word_spec(k, first_base, e1, None) is Ok
            &&& commit_word_spec(
                k,
                second_base,
                e2,
                Some(commit_word_spec(k, first_base, e1, None)->Ok_0),
            ) == Ok::<Seq<u8>, GadgetError>(
                vesta_add(vesta_mul(first_base, e1), vesta_mul(second_base, e2)),
            )
        }),
{
    lemma_word_is_in_table(k, bits_le(first, k));
    lemma_word_is_in_table(k, bits_le(second, k));
}

} // verus!
