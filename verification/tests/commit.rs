use endoscale_gadget::bits::i2lebsp;
use endoscale_gadget::curve::Point;
use endoscale_gadget::error::GadgetError;
use endoscale_gadget::field::Scalar;
use endoscale_gadget::gadget::PubInputsInstructions;
use endoscale_gadget::native::{NativePubInputs, Word};
use endoscale_gadget::primitive::endoscale_scalar;
use pasta_curves::group::ff::PrimeField;
use pasta_curves::group::prime::PrimeCurveAffine;
use pasta_curves::group::{Curve, Group, GroupEncoding};
use pasta_curves::vesta;
use pasta_curves::{EqAffine, Fp};

fn commit_base(multiple: u64) -> Point {
    let point = (EqAffine::generator() * Fp::from(multiple)).to_affine();
    Point::from_bytes(point.to_bytes()).expect("a multiple of the generator is a point")
}

fn commit_curve_point(point: &Point) -> vesta::Point {
    EqAffine::from_bytes(&point.to_bytes()).unwrap().to_curve()
}

fn commit_field_scalar(scalar: &Scalar) -> Fp {
    Fp::from_repr(scalar.to_bytes()).unwrap()
}

fn commit_endoscalar(pattern: u64) -> Scalar {
    endoscale_scalar::<4>(i2lebsp::<4>(pattern))
}

fn commit_gadget(patterns: &[u64]) -> NativePubInputs<4, 16> {
    let instance: Vec<Scalar> = patterns.iter().map(|p| commit_endoscalar(*p)).collect();
    NativePubInputs::<4, 16>::new(instance).expect("16 is 2^4")
}

#[test]
fn gadget_is_refused_when_the_table_length_is_wrong() {
    assert!(matches!(
        NativePubInputs::<4, 15>::new(vec![]),
        Err(GadgetError::Configuration)
    ));
    assert!(matches!(
        NativePubInputs::<4, 32>::new(vec![Scalar::from_u64(1)]),
        Err(GadgetError::Configuration)
    ));
    assert!(NativePubInputs::<4, 16>::new(vec![]).is_ok());
}

#[test]
fn get_bitstring_refers_to_the_cell_of_the_row() {
    let gadget = commit_gadget(&[3, 9, 14]);
    for (row, pattern) in [3u64, 9, 14].iter().enumerate() {
        let word = gadget.get_bitstring(row).expect("the row is in the column");
        assert_eq!(word.row, row);
        assert_eq!(word.endoscalar.to_bytes(), commit_endoscalar(*pattern).to_bytes());
    }
}

#[test]
fn get_bitstring_makes_no_lookup() {
    let gadget = NativePubInputs::<4, 16>::new(vec![Scalar::from_u64(5)]).unwrap();
    let word = gadget.get_bitstring(0).expect("the row is in the column");
    assert_eq!(word.endoscalar.to_bytes(), Scalar::from_u64(5).to_bytes());
}

#[test]
fn get_bitstring_refuses_a_row_outside_the_column() {
    let gadget = commit_gadget(&[3, 9, 14]);
    assert!(matches!(gadget.get_bitstring(3), Err(GadgetError::Layout)));
    assert!(matches!(gadget.get_bitstring(usize::MAX), Err(GadgetError::Layout)));
    let empty = commit_gadget(&[]);
    assert!(matches!(empty.get_bitstring(0), Err(GadgetError::Layout)));
}

#[test]
fn find_gives_the_row_of_an_endoscalar() {
    let gadget = commit_gadget(&[]);
    for pattern in 0u64..16 {
        assert_eq!(gadget.find(&commit_endoscalar(pattern)), Some(pattern as usize));
    }
    assert_eq!(gadget.find(&Scalar::from_u64(5)), None);
}

#[test]
fn lookup_finds_the_pairs_of_the_table_only() {
    let gadget = commit_gadget(&[]);
    for pattern in 0u64..16 {
        assert!(gadget.lookup(pattern, &commit_endoscalar(pattern)));
        assert!(!gadget.lookup(pattern, &commit_endoscalar((pattern + 1) % 16)));
    }
}

#[test]
fn lookup_refuses_a_pattern_of_too_many_bits() {
    let gadget = commit_gadget(&[]);
    let wide = endoscale_scalar::<6>(i2lebsp::<6>(16));
    assert!(!gadget.lookup(16, &wide));
    assert!(!gadget.lookup(16, &commit_endoscalar(0)));
    assert!(!gadget.lookup(u64::MAX, &commit_endoscalar(15)));
}

#[test]
fn commit_word_alone_scales_the_base_by_the_endoscalar() {
    let gadget = commit_gadget(&[10]);
    let base = commit_base(7);
    let word = gadget.get_bitstring(0).unwrap();
    let commitment = gadget.commit_word(base, &word, None).expect("the word is in the table");
    let expected = commit_curve_point(&base) * commit_field_scalar(&commit_endoscalar(10));
    assert_eq!(commitment.to_bytes(), expected.to_affine().to_bytes());
    assert_ne!(commitment.to_bytes(), base.to_bytes());
}

#[test]
fn commit_word_chains_on_the_accumulator() {
    let gadget = commit_gadget(&[10, 5]);
    let first_base = commit_base(7);
    let second_base = commit_base(11);
    let first_word = gadget.get_bitstring(0).unwrap();
    let second_word = gadget.get_bitstring(1).unwrap();
    let first = gadget.commit_word(first_base, &first_word, None).unwrap();
    let second = gadget.commit_word(second_base, &second_word, Some(first)).unwrap();
    let expected = commit_curve_point(&first_base) * commit_field_scalar(&commit_endoscalar(10))
        + commit_curve_point(&second_base) * commit_field_scalar(&commit_endoscalar(5));
    assert_eq!(second.to_bytes(), expected.to_affine().to_bytes());
    assert_ne!(second.to_bytes(), first.to_bytes());
}

#[test]
fn commit_word_refuses_an_endoscalar_outside_the_table() {
    let gadget = commit_gadget(&[]);
    let base = commit_base(7);
    let forged = Word { row: 0, endoscalar: Scalar::from_u64(5) };
    assert!(matches!(gadget.commit_word(base, &forged, None), Err(GadgetError::Unsatisfied)));
    let wide = Word { row: 0, endoscalar: endoscale_scalar::<6>(i2lebsp::<6>(47)) };
    assert!(matches!(
        gadget.commit_word(base, &wide, Some(base)),
        Err(GadgetError::Unsatisfied)
    ));
}

#[test]
fn commit_word_refuses_a_public_input_that_is_no_endoscalar() {
    let gadget = NativePubInputs::<4, 16>::new(vec![Scalar::from_u64(0)]).unwrap();
    let word = gadget.get_bitstring(0).unwrap();
    assert!(matches!(
        gadget.commit_word(commit_base(1), &word, None),
        Err(GadgetError::Unsatisfied)
    ));
}

#[test]
fn commit_field_elem_of_two_limbs_is_two_words_in_turn() {
    let gadget = commit_gadget(&[]);
    let bases = vec![commit_base(3), commit_base(5)];
    let x = Scalar::from_u64(0b1001_0110);
    let whole = gadget.commit_field_elem::<8>(bases.clone(), x, None).expect("two bases for two limbs");
    let low = Word { row: 0, endoscalar: commit_endoscalar(0b0110) };
    let high = Word { row: 1, endoscalar: commit_endoscalar(0b1001) };
    let first = gadget.commit_word(bases[0], &low, None).unwrap();
    let second = gadget.commit_word(bases[1], &high, Some(first)).unwrap();
    assert_eq!(whole.to_bytes(), second.to_bytes());
    let swapped = gadget.commit_word(bases[0], &high, None).unwrap();
    let swapped = gadget.commit_word(bases[1], &low, Some(swapped)).unwrap();
    assert_ne!(whole.to_bytes(), swapped.to_bytes());
}

#[test]
fn commit_field_elem_starts_from_the_accumulator() {
    let gadget = commit_gadget(&[]);
    let bases = vec![commit_base(3), commit_base(5)];
    let x = Scalar::from_u64(0b1001_0110);
    let prev = commit_base(13);
    let whole = gadget.commit_field_elem::<8>(bases.clone(), x, Some(prev)).unwrap();
    let expected = commit_curve_point(&prev)
        + commit_curve_point(&bases[0]) * commit_field_scalar(&commit_endoscalar(0b0110))
        + commit_curve_point(&bases[1]) * commit_field_scalar(&commit_endoscalar(0b1001));
    assert_eq!(whole.to_bytes(), expected.to_affine().to_bytes());
}

#[test]
fn commit_field_elem_pads_the_top_limb_with_zeros() {
    let gadget = commit_gadget(&[]);
    let bases = vec![commit_base(3), commit_base(5)];
    let x = Scalar::from_u64(0b11_0110);
    let whole = gadget.commit_field_elem::<6>(bases.clone(), x, None).expect("two bases for two limbs");
    let expected = commit_curve_point(&bases[0]) * commit_field_scalar(&commit_endoscalar(0b0110))
        + commit_curve_point(&bases[1]) * commit_field_scalar(&commit_endoscalar(0b0011));
    assert_eq!(whole.to_bytes(), expected.to_affine().to_bytes());
}

#[test]
fn commit_field_elem_takes_a_full_width_element() {
    let gadget = commit_gadget(&[]);
    let x = -Fp::from(1);
    let repr = x.to_repr();
    let element = Scalar::from_bytes(repr).unwrap();
    let mut bases = Vec::new();
    let mut expected = vesta::Point::identity();
    for i in 0..64usize {
        let base = commit_base(2 * i as u64 + 3);
        let nibble = (repr[i / 2] >> (4 * (i % 2))) & 0x0f;
        expected = expected
            + commit_curve_point(&base) * commit_field_scalar(&commit_endoscalar(nibble as u64));
        bases.push(base);
    }
    let whole = gadget.commit_field_elem::<255>(bases, element, None).expect("64 bases for 64 limbs");
    assert_eq!(whole.to_bytes(), expected.to_affine().to_bytes());
}

#[test]
fn commit_field_elem_refuses_a_wrong_number_of_bases() {
    let gadget = commit_gadget(&[]);
    let x = Scalar::from_u64(0b1001_0110);
    let one = vec![commit_base(3)];
    let three = vec![commit_base(3), commit_base(5), commit_base(7)];
    assert!(matches!(
        gadget.commit_field_elem::<8>(one, x, None),
        Err(GadgetError::Configuration)
    ));
    assert!(matches!(
        gadget.commit_field_elem::<8>(three, x, None),
        Err(GadgetError::Configuration)
    ));
    assert!(matches!(
        gadget.commit_field_elem::<8>(vec![], x, Some(commit_base(1))),
        Err(GadgetError::Configuration)
    ));
    assert!(matches!(
        gadget.commit_field_elem::<9>(vec![commit_base(3), commit_base(5)], x, None),
        Err(GadgetError::Configuration)
    ));
}

#[test]
fn commit_field_elem_refuses_a_wrong_number_of_bases_before_the_element() {
    let gadget = commit_gadget(&[]);
    let too_wide = Scalar::from_u64(0x1_00);
    assert!(matches!(
        gadget.commit_field_elem::<8>(vec![commit_base(3)], too_wide, None),
        Err(GadgetError::Configuration)
    ));
}

#[test]
fn commit_field_elem_refuses_an_element_wider_than_claimed() {
    let gadget = commit_gadget(&[]);
    let bases = vec![commit_base(3), commit_base(5)];
    assert!(matches!(
        gadget.commit_field_elem::<8>(bases.clone(), Scalar::from_u64(0x1_00), None),
        Err(GadgetError::Unsatisfied)
    ));
    assert!(matches!(
        gadget.commit_field_elem::<6>(bases.clone(), Scalar::from_u64(0b100_0000), None),
        Err(GadgetError::Unsatisfied)
    ));
    assert!(gadget.commit_field_elem::<8>(bases, Scalar::from_u64(0xff), None).is_ok());
}

#[test]
fn commit_field_elem_of_no_bits_leaves_the_accumulator() {
    let gadget = commit_gadget(&[]);
    let prev = commit_base(13);
    let kept = gadget
        .commit_field_elem::<0>(vec![], Scalar::from_u64(0), Some(prev))
        .expect("no bases for no limbs");
    assert_eq!(kept.to_bytes(), prev.to_bytes());
    assert!(matches!(
        gadget.commit_field_elem::<0>(vec![], Scalar::from_u64(0), None),
        Err(GadgetError::Configuration)
    ));
    assert!(matches!(
        gadget.commit_field_elem::<0>(vec![], Scalar::from_u64(1), Some(prev)),
        Err(GadgetError::Unsatisfied)
    ));
    assert!(matches!(
        gadget.commit_field_elem::<0>(vec![prev], Scalar::from_u64(0), Some(prev)),
        Err(GadgetError::Configuration)
    ));
}

#[test]
fn commit_field_elem_refuses_words_of_no_bits() {
    let gadget = NativePubInputs::<0, 1>::new(vec![]).expect("1 is 2^0");
    assert!(matches!(
        gadget.commit_field_elem::<8>(vec![], Scalar::from_u64(1), None),
        Err(GadgetError::Configuration)
    ));
}
