//! The lookup table: its rows, and the two columns of `halo2_proofs` that
//! hold them in a circuit.

use crate::bits::{bits_le, i2lebsp, is_power_of_two};
use crate::error::GadgetError;
use crate::field::Scalar;
use crate::gadget::PubInputsLookup;
use crate::primitive::{endoscale_scalar, endoscale_spec};
use halo2_proofs::circuit::Table;
use halo2_proofs::plonk::{ConstraintSystem, TableColumn};
use pasta_curves::group::ff::PrimeField;
use pasta_curves::Fp;
use vstd::arithmetic::power2::*;
use vstd::bits::*;
use vstd::prelude::*;

verus! {

/// `TableColumn` of `halo2_proofs`: a fixed column that a lookup table can
/// be loaded into. Nothing is known of a value but its index.
#[verifier::external_type_specification]
#[verifier::external_body]
pub struct ExTableColumn(TableColumn);

/// `Error` of `halo2_proofs::plonk`: the reason a layouter gives when it
/// refuses. It is carried through unread.
#[verifier::external_type_specification]
#[verifier::external_body]
pub struct ExPlonkError(halo2_proofs::plonk::Error);

/// The `ConstraintSystem` of `halo2_proofs` over the field, in which
/// columns are allocated. It is held whole, and its field is open so that a
/// circuit can put its constraint system in and take it out again.
#[verifier::external_body]
pub struct FpConstraintSystem {
    pub inner: ConstraintSystem<Fp>,
}

/// The `Table` of `halo2_proofs` over the field, which a layouter
/// hands out to be filled. It is held whole, and its field is open so that a
/// circuit can put in the table that it was handed.
#[verifier::external_body]
pub struct FpTable<'r> {
    pub inner: Table<'r, Fp>,
}

/// How many fixed columns a constraint system has allocated.
pub uninterp spec fn fixed_column_count(meta: FpConstraintSystem) -> nat;

/// How many advice columns a constraint system has allocated.
pub uninterp spec fn advice_column_count(meta: FpConstraintSystem) -> nat;

/// How many instance columns a constraint system has allocated.
pub uninterp spec fn instance_column_count(meta: FpConstraintSystem) -> nat;

/// How many selectors a constraint system has allocated.
pub uninterp spec fn selector_count(meta: FpConstraintSystem) -> nat;

/// How many gates a constraint system holds.
pub uninterp spec fn gate_count(meta: FpConstraintSystem) -> nat;

/// How many lookup arguments a constraint system holds.
pub uninterp spec fn lookup_count(meta: FpConstraintSystem) -> nat;

/// How many columns of a constraint system take part in equality
/// constraints.
pub uninterp spec fn equality_column_count(meta: FpConstraintSystem) -> nat;

/// How many fixed columns of a constraint system are set aside for
/// constants.
pub uninterp spec fn constant_column_count(meta: FpConstraintSystem) -> nat;

/// Whether two constraint systems hold as much of everything that is
/// counted but fixed columns.
pub open spec fn same_but_fixed_columns(a: FpConstraintSystem, b: FpConstraintSystem) -> bool {
    &&& advice_column_count(a) == advice_column_count(b)
    &&& instance_column_count(a) == instance_column_count(b)
    &&& selector_count(a) == selector_count(b)
    &&& gate_count(a) == gate_count(b)
    &&& lookup_count(a) == lookup_count(b)
    &&& equality_column_count(a) == equality_column_count(b)
    &&& constant_column_count(a) == constant_column_count(b)
}

/// Whether a constraint system holds nothing of what is counted.
pub open spec fn holds_nothing(meta: FpConstraintSystem) -> bool {
    &&& fixed_column_count(meta) == 0
    &&& advice_column_count(meta) == 0
    &&& instance_column_count(meta) == 0
    &&& selector_count(meta) == 0
    &&& gate_count(meta) == 0
    &&& lookup_count(meta) == 0
    &&& equality_column_count(meta) == 0
    &&& constant_column_count(meta) == 0
}

/// The index, among the fixed columns, of the column behind a table column.
pub uninterp spec fn table_column_index(column: TableColumn) -> nat;

/// The cells that a table has been given: for the index of a column and an
/// offset, the number of the field element last assigned there.
pub uninterp spec fn table_cells(table: FpTable<'_>) -> Map<(nat, nat), nat>;

/// The assignments that a table has accepted, in the order in which they
/// were made: each the index of a column and an offset, with the number of
/// the field element assigned there.
pub uninterp spec fn table_accepted(table: FpTable<'_>) -> Seq<((nat, nat), nat)>;

/// `Default::default` of `ConstraintSystem`: a constraint system without
/// columns, selectors, gates or lookup arguments.
#[verifier::external_body]
fn new_constraint_system() -> (meta: FpConstraintSystem)
    ensures
        fixed_column_count(meta) == 0,
        advice_column_count(meta) == 0,
        instance_column_count(meta) == 0,
        selector_count(meta) == 0,
        gate_count(meta) == 0,
        lookup_count(meta) == 0,
        equality_column_count(meta) == 0,
        constant_column_count(meta) == 0,
{
    FpConstraintSystem { inner: ConstraintSystem::default() }
}

/// `ConstraintSystem::lookup_table_column`: allocates the next fixed column
/// and hands it out as a table column. The count of fixed columns is a
/// `usize` that the call raises by one; nothing else of the constraint
/// system is touched.
#[verifier::external_body]
fn lookup_table_column(meta: &mut FpConstraintSystem) -> (column: TableColumn)
    requires
        fixed_column_count(*old(meta)) < usize::MAX,
    ensures
        table_column_index(column) == fixed_column_count(*old(meta)),
        fixed_column_count(*final(meta)) == fixed_column_count(*old(meta)) + 1,
        advice_column_count(*final(meta)) == advice_column_count(*old(meta)),
        instance_column_count(*final(meta)) == instance_column_count(*old(meta)),
        selector_count(*final(meta)) == selector_count(*old(meta)),
        gate_count(*final(meta)) == gate_count(*old(meta)),
        lookup_count(*final(meta)) == lookup_count(*old(meta)),
        equality_column_count(*final(meta)) == equality_column_count(*old(meta)),
        constant_column_count(*final(meta)) == constant_column_count(*old(meta)),
{
    meta.inner.lookup_table_column()
}

/// `Table::assign_cell`: assigns a value to one cell of a table column.
/// Whether the cell is accepted is the layouter's to say. Where it is, the
/// table has the value in that cell, is otherwise as before, and has
/// accepted this one assignment more. Where it is not, the table has
/// accepted what it had before, and is as before or has the value in that
/// one cell: a layouter may refuse before or after it has passed the cell
/// on.
#[verifier::external_body]
fn assign_cell(
    table: &mut FpTable<'_>,
    annotation: &'static str,
    column: TableColumn,
    offset: usize,
    value: &Scalar,
) -> (r: Result<(), halo2_proofs::plonk::Error>)
    requires
        offset < usize::MAX,
    ensures
        r is Ok ==> table_cells(*final(table)) == table_cells(*old(table)).insert(
            (table_column_index(column), offset as nat),
            value.value(),
        ),
        r is Ok ==> table_accepted(*final(table)) == table_accepted(*old(table)).push(
            ((table_column_index(column), offset as nat), value.value()),
        ),
        r is Err ==> table_cells(*final(table)) == table_cells(*old(table)) || table_cells(
            *final(table),
        ) == table_cells(*old(table)).insert(
            (table_column_index(column), offset as nat),
            value.value(),
        ),
        r is Err ==> table_accepted(*final(table)) == table_accepted(*old(table)),
{
    let v = Fp::from_repr(value.to_bytes()).unwrap();
    table.inner.assign_cell(|| annotation, column, offset, || Ok(v))
}

/// The table as a sequence of rows: each pattern of `k` bits, in the order
/// of the numbers they denote, with its endoscalar.
pub open spec fn table_spec(k: nat) -> Seq<(Seq<bool>, nat)> {
    Seq::new(pow2(k), |i: int| (bits_le(i as nat, k), endoscale_spec(bits_le(i as nat, k))))
}

/// The cells of the first `rows` rows of the table, as two columns hold
/// them: row `i` has the number `i` in the column for the bit patterns and
/// the endoscalar of the `k` low bits of `i` in the column for the
/// endoscalars.
pub open spec fn table_columns(bits: nat, endoscalar: nat, k: nat, rows: nat) -> Map<
    (nat, nat),
    nat,
> {
    Map::new(
        |cell: (nat, nat)| (cell.0 == bits || cell.0 == endoscalar) && cell.1 < rows,
        |cell: (nat, nat)|
            if cell.0 == endoscalar {
                endoscale_spec(bits_le(cell.1, k))
            } else {
                cell.1
            },
    )
}

/// What a table holds once its two columns are loaded on top of what it
/// held before.
pub open spec fn loaded(before: Map<(nat, nat), nat>, bits: nat, endoscalar: nat, k: nat) -> Map<
    (nat, nat),
    nat,
> {
    before.union_prefer_right(table_columns(bits, endoscalar, k, pow2(k)))
}

/// The assignments that load the first `rows` rows of the table, in their
/// order: row after row, the pattern and then the endoscalar, each cell
/// once.
pub open spec fn row_assignments(bits: nat, endoscalar: nat, k: nat, rows: nat) -> Seq<
    ((nat, nat), nat),
> {
    Seq::new(
        2 * rows,
        |i: int|
            if i % 2 == 0 {
                ((bits, (i / 2) as nat), (i / 2) as nat)
            } else {
                ((endoscalar, (i / 2) as nat), endoscale_spec(bits_le((i / 2) as nat, k)))
            },
    )
}

/// What loading leaves where the layouter refused a cell of row `row`. The
/// rows below `row` are in. Where the pattern of row `row` was refused, no
/// more was accepted, and of that row nothing is in or the pattern is.
/// Where its endoscalar was refused, the pattern was accepted and is in,
/// and the endoscalar may be.
pub open spec fn refused_at(
    cells_before: Map<(nat, nat), nat>,
    cells_after: Map<(nat, nat), nat>,
    accepted_before: Seq<((nat, nat), nat)>,
    accepted_after: Seq<((nat, nat), nat)>,
    bits: nat,
    endoscalar: nat,
    k: nat,
    row: nat,
) -> bool {
    let cells = cells_before.union_prefer_right(table_columns(bits, endoscalar, k, row));
    let with_pattern = cells.insert((bits, row), row);
    let with_both = with_pattern.insert((endoscalar, row), endoscale_spec(bits_le(row, k)));
    let accepted = accepted_before + row_assignments(bits, endoscalar, k, row);
    ||| accepted_after == accepted && (cells_after == cells || cells_after == with_pattern)
    ||| accepted_after == accepted.push(((bits, row), row)) && (cells_after == with_pattern
        || cells_after == with_both)
}

/// What a table holds, each row by its pattern and the number of its
/// endoscalar.
pub open spec fn table_rows<const K: usize>(table: Seq<([bool; K], Scalar)>) -> Seq<
    (Seq<bool>, nat),
> {
    Seq::new(table.len(), |i: int| (table[i].0@, table[i].1.value()))
}

/// Whether an array is the table for words of `K` bits: `2^K` rows, row `i`
/// pairing the `K` low bits of `i` with their endoscalar.
pub open spec fn is_table<const K: usize, const N: usize>(table: [([bool; K], Scalar); N]) -> bool {
    &&& N as nat == pow2(K as nat)
    &&& forall|i: int|
        0 <= i < N ==> (#[trigger] table@[i]).0@ == bits_le(i as nat, K as nat)
    &&& forall|i: int|
        0 <= i < N ==> (#[trigger] table@[i]).1.value() == endoscale_spec(
            bits_le(i as nat, K as nat),
        )
}

impl<const K: usize, const N: usize> PubInputsLookup<K, N> for Scalar {
    open spec fn number(&self) -> nat {
        self.value()
    }

    open spec fn endoscalar(bits: Seq<bool>) -> nat {
        endoscale_spec(bits)
    }

    fn table() -> (r: Result<[([bool; K], Scalar); N], GadgetError>) {
        if !is_power_of_two(N, K) {
            return Err(GadgetError::Configuration);
        }
        proof {
            lemma_pow2_pos(K as nat);
        }
        let first = (i2lebsp::<K>(0), endoscale_scalar(i2lebsp::<K>(0)));
        let mut table: [([bool; K], Scalar); N] = [first; N];
        let mut index: usize = 1;
        while index < N
            invariant
                1 <= index <= N,
                table@.len() == N,
                forall|i: int|
                    0 <= i < index ==> (#[trigger] table@[i]).0@ == bits_le(i as nat, K as nat),
                forall|i: int|
                    0 <= i < index ==> (#[trigger] table@[i]).1.value() == endoscale_spec(
                        bits_le(i as nat, K as nat),
                    ),
            decreases N - index,
        {
            let bits = i2lebsp::<K>(index as u64);
            let endoscalar = endoscale_scalar(bits);
            table[index] = (bits, endoscalar);
            index = index + 1;
        }
        Ok(table)
    }
}

/// Why the table was not loaded.
#[derive(Debug)]
pub enum LoadError {
    /// The table has more rows than the machine can count.
    TooManyRows,
    /// The layouter refused a cell, for the reason it gave.
    Refused(halo2_proofs::plonk::Error),
}

/// A constraint system in which the table is to be set up, and whether its
/// columns have been allocated there.
pub struct TableSetup {
    meta: FpConstraintSystem,
    configured: bool,
}

impl TableSetup {
    /// The constraint system.
    pub closed spec fn meta(&self) -> FpConstraintSystem {
        self.meta
    }

    /// Whether the columns of the table have been allocated.
    pub closed spec fn configured(&self) -> bool {
        self.configured
    }

    /// Takes a constraint system in which the table has no columns yet.
    pub fn new(meta: FpConstraintSystem) -> (setup: Self)
        ensures
            setup.meta() == meta,
            !setup.configured(),
    {
        TableSetup { meta, configured: false }
    }

    /// Starts from a constraint system that holds nothing.
    pub fn empty() -> (setup: Self)
        ensures
            holds_nothing(setup.meta()),
            !setup.configured(),
    {
        TableSetup { meta: new_constraint_system(), configured: false }
    }

    /// Gives the constraint system back.
    pub fn into_meta(self) -> (meta: FpConstraintSystem)
        ensures
            meta == self.meta(),
    {
        self.meta
    }
}

/// The two columns of the lookup table for words of `K` bits, the column of
/// the endoscalars next after the column of the bit patterns.
#[derive(Clone, Copy, Debug)]
pub struct TableConfig<const K: usize> {
    bits: TableColumn,
    endoscalar: TableColumn,
}

impl<const K: usize> TableConfig<K> {
    #[verifier::type_invariant]
    spec fn adjacent(self) -> bool {
        table_column_index(self.endoscalar) == table_column_index(self.bits) + 1
    }

    /// The index of the column of the bit patterns.
    pub closed spec fn bits_index(&self) -> nat {
        table_column_index(self.bits)
    }

    /// The index of the column of the endoscalars.
    pub closed spec fn endoscalar_index(&self) -> nat {
        table_column_index(self.endoscalar)
    }

    /// The column of the bit patterns.
    pub fn bits(&self) -> (column: TableColumn)
        ensures
            table_column_index(column) == self.bits_index(),
    {
        self.bits
    }

    /// The column of the endoscalars, which is the next after the column of
    /// the bit patterns.
    pub fn endoscalar(&self) -> (column: TableColumn)
        ensures
            table_column_index(column) == self.endoscalar_index(),
            self.endoscalar_index() == self.bits_index() + 1,
    {
        proof {
            use_type_invariant(self);
        }
        self.endoscalar
    }

    /// Allocates the two columns of the table, the one for the bit patterns
    /// first, and nothing else. A constraint system has the table's columns
    /// once: where they are allocated already, the call is refused and the
    /// constraint system is left as it was.
    pub fn configure(setup: &mut TableSetup) -> (r: Result<Self, GadgetError>)
        requires
            !old(setup).configured() ==> fixed_column_count(old(setup).meta()) + 2 <= usize::MAX,
        ensures
            r is Ok <==> !old(setup).configured(),
            final(setup).configured(),
            r matches Err(e) ==> e == GadgetError::Layout && final(setup).meta() == old(
                setup,
            ).meta(),
            r matches Ok(config) ==> {
                &&& config.bits_index() == fixed_column_count(old(setup).meta())
                &&& config.endoscalar_index() == fixed_column_count(old(setup).meta()) + 1
                &&& fixed_column_count(final(setup).meta()) == fixed_column_count(
                    old(setup).meta(),
                ) + 2
                &&& same_but_fixed_columns(old(setup).meta(), final(setup).meta())
            },
    {
        if setup.configured {
            return Err(GadgetError::Layout);
        }
        let bits = lookup_table_column(&mut setup.meta);
        let endoscalar = lookup_table_column(&mut setup.meta);
        setup.configured = true;
        Ok(TableConfig { bits, endoscalar })
    }

    /// Row `index` of the table as the two columns hold it: the number
    /// `index`, whose `K` low bits are the pattern, and the endoscalar of
    /// that pattern.
    pub fn row(index: u64) -> (row: (Scalar, Scalar))
        ensures
            row.0.value() == index,
            row.1.value() == endoscale_spec(bits_le(index as nat, K as nat)),
    {
        let bits = i2lebsp::<K>(index);
        (Scalar::from_u64(index), endoscale_scalar(bits))
    }

    /// Fills the two columns, row after row, with the `2^K` rows of the
    /// table, the pattern of a row before its endoscalar and each cell once,
    /// and stops at the first cell that the layouter refuses. A table of more rows than the machine can count is refused
    /// before any cell is assigned.
    pub fn load(&self, table: &mut FpTable<'_>) -> (r: Result<(), LoadError>)
        ensures
            self.endoscalar_index() == self.bits_index() + 1,
            r is Ok ==> table_cells(*final(table)) == loaded(
                table_cells(*old(table)),
                self.bits_index(),
                self.endoscalar_index(),
                K as nat,
            ),
            r is Ok ==> table_accepted(*final(table)) == table_accepted(*old(table))
                + row_assignments(
                self.bits_index(),
                self.endoscalar_index(),
                K as nat,
                pow2(K as nat),
            ),
            r matches Err(LoadError::TooManyRows) <==> pow2(K as nat) > usize::MAX,
            r matches Err(LoadError::TooManyRows) ==> table_cells(*final(table)) == table_cells(
                *old(table),
            ) && table_accepted(*final(table)) == table_accepted(*old(table)),
            r matches Err(LoadError::Refused(_)) ==> exists|row: nat|
                row < pow2(K as nat) && #[trigger] refused_at(
                    table_cells(*old(table)),
                    table_cells(*final(table)),
                    table_accepted(*old(table)),
                    table_accepted(*final(table)),
                    self.bits_index(),
                    self.endoscalar_index(),
                    K as nat,
                    row,
                ),
    {
        proof {
            use_type_invariant(self);
        }
        if K >= usize::BITS as usize {
            proof {
                lemma2_to64();
                if K > 64 {
                    lemma_pow2_strictly_increases(64, K as nat);
                }
                if K > 32 {
                    lemma_pow2_strictly_increases(32, K as nat);
                }
            }
            return Err(LoadError::TooManyRows);
        }
        proof {
            lemma_usize_pow2_no_overflow(K as nat);
            lemma_usize_shl_is_mul(1usize, K);
        }
        let rows: usize = 1usize << K;
        let mut index: usize = 0;
        let ghost bits = table_column_index(self.bits);
        let ghost endoscalar = table_column_index(self.endoscalar);
        let ghost start = table_cells(*table);
        let ghost accepted = table_accepted(*table);
        assert(table_cells(*table) =~= start.union_prefer_right(
            table_columns(bits, endoscalar, K as nat, 0),
        ));
        assert(table_accepted(*table) =~= accepted + row_assignments(
            bits,
            endoscalar,
            K as nat,
            0,
        ));
        while index < rows
            invariant
                index <= rows,
                rows as nat == pow2(K as nat),
                bits == table_column_index(self.bits),
                endoscalar == table_column_index(self.endoscalar),
                endoscalar == bits + 1,
                start == table_cells(*old(table)),
                accepted == table_accepted(*old(table)),
                table_accepted(*table) == accepted + row_assignments(
                    bits,
                    endoscalar,
                    K as nat,
                    index as nat,
                ),
                table_cells(*table) == start.union_prefer_right(
                    table_columns(bits, endoscalar, K as nat, index as nat),
                ),
            decreases rows - index,
        {
            let ghost before = table_cells(*table);
            let ghost accepted_so_far = table_accepted(*table);
            let row = Self::row(index as u64);
            match assign_cell(table, "bits", self.bits, index, &row.0) {
                Ok(()) => {},
                Err(reason) => {
                    assert(index < pow2(K as nat) && refused_at(
                        table_cells(*old(table)),
                        table_cells(*table),
                        table_accepted(*old(table)),
                        table_accepted(*table),
                        self.bits_index(),
                        self.endoscalar_index(),
                        K as nat,
                        index as nat,
                    ));
                    return Err(LoadError::Refused(reason));
                },
            }
            match assign_cell(table, "endoscalar", self.endoscalar, index, &row.1) {
                Ok(()) => {},
                Err(reason) => {
                    assert(index < pow2(K as nat) && refused_at(
                        table_cells(*old(table)),
                        table_cells(*table),
                        table_accepted(*old(table)),
                        table_accepted(*table),
                        self.bits_index(),
                        self.endoscalar_index(),
                        K as nat,
                        index as nat,
                    ));
                    return Err(LoadError::Refused(reason));
                },
            }
            index = index + 1;
            assert(table_cells(*table) =~= start.union_prefer_right(
                table_columns(bits, endoscalar, K as nat, index as nat),
            )) by {
                assert(table_cells(*table) == before.insert(
                    (bits, (index - 1) as nat),
                    row.0.value(),
                ).insert((endoscalar, (index - 1) as nat), row.1.value()));
            }
            assert(table_accepted(*table) =~= accepted + row_assignments(
                bits,
                endoscalar,
                K as nat,
                index as nat,
            )) by {
                assert(table_accepted(*table) == accepted_so_far.push(
                    ((bits, (index - 1) as nat), row.0.value()),
                ).push(((endoscalar, (index - 1) as nat), row.1.value())));
            }
        }
        Ok(())
    }
}

} // verus!
