use endoscale_gadget::bits::i2lebsp;
use endoscale_gadget::field::Scalar;
use endoscale_gadget::error::GadgetError;
use endoscale_gadget::lookup::{FpConstraintSystem, FpTable, LoadError, TableConfig, TableSetup};
use endoscale_gadget::primitive::endoscale_scalar;
use halo2_proofs::circuit::{Layouter, SimpleFloorPlanner};
use halo2_proofs::dev::MockProver;
use halo2_proofs::plonk::{
    Advice, Circuit, Column, ConstraintSystem, Error, Expression, Selector,
};
use halo2_proofs::poly::Rotation;
use pasta_curves::group::ff::PrimeField;
use pasta_curves::Fp;

fn columns_field(scalar: &Scalar) -> Fp {
    Fp::from_repr(scalar.to_bytes()).unwrap()
}

fn columns_reason(error: LoadError) -> Error {
    match error {
        LoadError::Refused(reason) => reason,
        LoadError::TooManyRows => Error::BoundsFailure,
    }
}

fn columns_configure<const K: usize>(meta: &mut ConstraintSystem<Fp>) -> TableConfig<K> {
    let mut setup = TableSetup::new(FpConstraintSystem { inner: std::mem::take(meta) });
    let table = TableConfig::<K>::configure(&mut setup).expect("the first time");
    *meta = setup.into_meta().inner;
    table
}

fn columns_pinned(meta: &ConstraintSystem<Fp>) -> String {
    format!("{:?}", meta.pinned())
}

fn columns_endoscalar(pattern: u64) -> Fp {
    columns_field(&endoscale_scalar::<2>(i2lebsp::<2>(pattern)))
}

#[derive(Clone)]
struct ColumnsConfig {
    table: TableConfig<2>,
    enabled: Selector,
    bits: Column<Advice>,
    endoscalar: Column<Advice>,
}

struct ColumnsCircuit {
    claims: Vec<(Fp, Fp)>,
    load_twice: bool,
}

impl Circuit<Fp> for ColumnsCircuit {
    type Config = ColumnsConfig;
    type FloorPlanner = SimpleFloorPlanner;

    fn without_witnesses(&self) -> Self {
        ColumnsCircuit { claims: vec![], load_twice: self.load_twice }
    }

    fn configure(meta: &mut ConstraintSystem<Fp>) -> ColumnsConfig {
        let bits = meta.advice_column();
        let endoscalar = meta.advice_column();
        let enabled = meta.complex_selector();
        let table = columns_configure::<2>(meta);
        let idle = columns_endoscalar(0);
        meta.lookup(|cells| {
            let on = cells.query_selector(enabled);
            let off = Expression::Constant(Fp::from(1)) - on.clone();
            let word = cells.query_advice(bits, Rotation::cur());
            let claimed = cells.query_advice(endoscalar, Rotation::cur());
            vec![
                (on.clone() * word, table.bits()),
                (on * claimed + off * Expression::Constant(idle), table.endoscalar()),
            ]
        });
        ColumnsConfig { table, enabled, bits, endoscalar }
    }

    fn synthesize(&self, config: ColumnsConfig, mut layouter: impl Layouter<Fp>) -> Result<(), Error> {
        let loads = if self.load_twice { 2 } else { 1 };
        for _ in 0..loads {
            layouter.assign_table(
                || "endoscalar_map",
                |table| {
                    let mut cells = FpTable { inner: table };
                    config.table.load(&mut cells).map_err(columns_reason)
                },
            )?;
        }
        layouter.assign_region(
            || "words",
            |mut region| {
                for (offset, (word, claimed)) in self.claims.iter().enumerate() {
                    config.enabled.enable(&mut region, offset)?;
                    region.assign_advice(|| "bits", config.bits, offset, || Ok(*word))?;
                    region.assign_advice(|| "endoscalar", config.endoscalar, offset, || Ok(*claimed))?;
                }
                Ok(())
            },
        )
    }
}

#[test]
fn configure_allocates_the_first_two_columns_of_a_new_system() {
    let mut setup = TableSetup::empty();
    let config = TableConfig::<4>::configure(&mut setup).expect("the first time");
    assert_ne!(config.bits(), config.endoscalar());
    let mut by_hand = ConstraintSystem::<Fp>::default();
    assert_eq!(config.bits(), by_hand.lookup_table_column());
    assert_eq!(config.endoscalar(), by_hand.lookup_table_column());
    assert_eq!(columns_pinned(&setup.into_meta().inner), columns_pinned(&by_hand));
}

#[test]
fn configure_is_refused_the_second_time() {
    let mut setup = TableSetup::empty();
    let first = TableConfig::<2>::configure(&mut setup);
    assert!(first.is_ok());
    let mut by_hand = ConstraintSystem::<Fp>::default();
    let _ = by_hand.lookup_table_column();
    let _ = by_hand.lookup_table_column();
    assert!(matches!(TableConfig::<2>::configure(&mut setup), Err(GadgetError::Layout)));
    assert!(matches!(TableConfig::<2>::configure(&mut setup), Err(GadgetError::Layout)));
    assert_eq!(columns_pinned(&setup.into_meta().inner), columns_pinned(&by_hand));
}

#[test]
fn configure_touches_nothing_but_the_fixed_columns() {
    let mut plain = ConstraintSystem::<Fp>::default();
    let advice = plain.advice_column();
    let _ = plain.instance_column();
    let _ = plain.selector();
    let constants = plain.fixed_column();
    plain.enable_equality(advice);
    plain.enable_constant(constants);
    plain.create_gate("zero", |cells| {
        let a = cells.query_advice(advice, Rotation::cur());
        vec![a]
    });
    let mut by_hand = plain.clone();
    let _ = by_hand.lookup_table_column();
    let _ = by_hand.lookup_table_column();
    let mut setup = TableSetup::new(FpConstraintSystem { inner: plain });
    assert!(TableConfig::<2>::configure(&mut setup).is_ok());
    assert_eq!(columns_pinned(&setup.into_meta().inner), columns_pinned(&by_hand));
}

#[test]
fn configure_takes_the_next_fixed_columns() {
    let mut plain = ConstraintSystem::<Fp>::default();
    let _ = plain.fixed_column();
    let mut by_hand = plain.clone();
    let expected_bits = by_hand.lookup_table_column();
    let expected_endoscalar = by_hand.lookup_table_column();
    let expected_next = by_hand.fixed_column();
    let mut setup = TableSetup::new(FpConstraintSystem { inner: plain });
    let config = TableConfig::<2>::configure(&mut setup).expect("the first time");
    assert_eq!(config.bits(), expected_bits);
    assert_eq!(config.endoscalar(), expected_endoscalar);
    let mut after = setup.into_meta().inner;
    assert_eq!(after.fixed_column(), expected_next);
}

#[test]
fn load_fills_the_table_that_lookups_go_to() {
    let claims = (0u64..4).map(|p| (Fp::from(p), columns_endoscalar(p))).collect();
    let circuit = ColumnsCircuit { claims, load_twice: false };
    let prover = MockProver::run(5, &circuit, vec![]).expect("the circuit is laid out");
    assert_eq!(prover.verify(), Ok(()));
}

#[test]
fn lookup_fails_for_a_pattern_outside_the_table() {
    let wide = columns_field(&endoscale_scalar::<4>(i2lebsp::<4>(4)));
    let circuit = ColumnsCircuit { claims: vec![(Fp::from(4), wide)], load_twice: false };
    let prover = MockProver::run(5, &circuit, vec![]).expect("the circuit is laid out");
    assert!(prover.verify().is_err());
    let circuit = ColumnsCircuit { claims: vec![(Fp::from(4), columns_endoscalar(0))], load_twice: false };
    let prover = MockProver::run(5, &circuit, vec![]).expect("the circuit is laid out");
    assert!(prover.verify().is_err());
}

#[test]
fn lookup_fails_for_an_endoscalar_of_another_pattern() {
    let circuit = ColumnsCircuit { claims: vec![(Fp::from(1), columns_endoscalar(2))], load_twice: false };
    let prover = MockProver::run(5, &circuit, vec![]).expect("the circuit is laid out");
    assert!(prover.verify().is_err());
}

#[test]
fn load_is_refused_the_second_time() {
    let circuit = ColumnsCircuit { claims: vec![], load_twice: true };
    assert!(matches!(MockProver::run(5, &circuit, vec![]), Err(Error::Synthesis)));
}

#[test]
fn load_is_refused_when_the_rows_do_not_fit() {
    let circuit = ColumnsCircuit { claims: vec![], load_twice: false };
    assert!(matches!(
        MockProver::run(3, &circuit, vec![]),
        Err(Error::NotEnoughRowsAvailable { .. })
    ));
}

struct WideCircuit;

impl Circuit<Fp> for WideCircuit {
    type Config = TableConfig<64>;
    type FloorPlanner = SimpleFloorPlanner;

    fn without_witnesses(&self) -> Self {
        WideCircuit
    }

    fn configure(meta: &mut ConstraintSystem<Fp>) -> TableConfig<64> {
        columns_configure::<64>(meta)
    }

    fn synthesize(&self, config: TableConfig<64>, mut layouter: impl Layouter<Fp>) -> Result<(), Error> {
        layouter.assign_table(
            || "endoscalar_map",
            |table| {
                let mut cells = FpTable { inner: table };
                match config.load(&mut cells) {
                    Err(LoadError::TooManyRows) => Err(Error::BoundsFailure),
                    _ => Ok(()),
                }
            },
        )
    }
}

#[test]
fn load_refuses_a_table_of_more_rows_than_can_be_counted() {
    assert!(matches!(MockProver::run(5, &WideCircuit, vec![]), Err(Error::BoundsFailure)));
}
