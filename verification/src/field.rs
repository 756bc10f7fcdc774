//! The field of the gadget: the base field of the Pallas curve, which is the
//! scalar field of the Vesta curve. An element is held as the 32 bytes of
//! its canonical encoding, and stands for the number below the order `p`
//! that the bytes denote; the arithmetic is done by `pasta_curves`.

use crate::bits::{
    bit_at, lemma_bit_at_above, lemma_bit_at_shift, lemma_below_when_high_bits_clear,
};
use pasta_curves::arithmetic::FieldExt;
use pasta_curves::group::ff::PrimeField;
use pasta_curves::Fp;
use vstd::arithmetic::div_mod::*;
use vstd::arithmetic::power2::*;
use vstd::bits::*;
use vstd::prelude::*;

verus! {

/// The order `p` of the field.
pub open spec fn modulus() -> nat {
    0x40000000000000000000000000000000224698fc094cf91b992d30ed00000001nat
}

/// The cube root of unity in the field that endoscaling multiplies by.
pub open spec fn zeta() -> nat {
    0x12ccca834acdba712caad5dc57aab1b01d1f8bd237ad31491dad5ebdfdfe4ab9nat
}

/// The number that a little-endian byte string denotes.
pub open spec fn le_value(bytes: Seq<u8>) -> nat
    decreases bytes.len(),
{
    if bytes.len() == 0 {
        0
    } else {
        bytes[0] as nat + 256 * le_value(bytes.drop_first())
    }
}

/// Byte strings of one length that denote the same number are the same.
pub proof fn lemma_le_value_injective(a: Seq<u8>, b: Seq<u8>)
    requires
        a.len() == b.len(),
        le_value(a) == le_value(b),
    ensures
        a == b,
    decreases a.len(),
{
    if a.len() > 0 {
        lemma_le_value_injective(a.drop_first(), b.drop_first());
        assert(a =~= seq![a[0]] + a.drop_first());
        assert(b =~= seq![b[0]] + b.drop_first());
    }
}

/// A byte string of `n` bytes denotes a number below `2^(8 n)`.
pub proof fn lemma_le_value_bound(bytes: Seq<u8>)
    ensures
        le_value(bytes) < pow2(8 * bytes.len()),
    decreases bytes.len(),
{
    lemma2_to64();
    if bytes.len() > 0 {
        lemma_le_value_bound(bytes.drop_first());
        lemma_pow2_adds(8, (8 * (bytes.len() - 1)) as nat);
    }
}

/// Bit `j` of the number that a byte string denotes is bit `j % 8` of byte
/// `j / 8`, and is not set past the end of the string.
pub proof fn lemma_le_value_bit(bytes: Seq<u8>, j: nat)
    ensures
        bit_at(le_value(bytes), j) == (j / 8 < bytes.len() && bit_at(
            bytes[(j / 8) as int] as nat,
            j % 8,
        )),
    decreases bytes.len(),
{
    lemma2_to64();
    let v = le_value(bytes);
    if bytes.len() == 0 {
        lemma_bit_at_above(0, 0, j);
    } else {
        let low = bytes[0] as nat;
        let rest = bytes.drop_first();
        if j < 8 {
            let high = (8 - j) as nat;
            lemma_pow2_adds(j, high);
            let half = pow2((high - 1) as nat);
            let q = low / pow2(j) + 2 * (half * le_value(rest));
            let r = low % pow2(j);
            assert(v == q * pow2(j) + r) by {
                lemma_fundamental_div_mod(low as int, pow2(j) as int);
                assert(256 * le_value(rest) == (2 * (half * le_value(rest))) * pow2(j))
                    by (nonlinear_arith)
                    requires
                        256 == pow2(j) * (2 * half),
                ;
                assert(q * pow2(j) == (low / pow2(j)) * pow2(j) + (2 * (half * le_value(rest)))
                    * pow2(j)) by (nonlinear_arith)
                    requires
                        q == low / pow2(j) + 2 * (half * le_value(rest)),
                ;
                assert((low / pow2(j)) * pow2(j) == pow2(j) * (low / pow2(j)))
                    by (nonlinear_arith);
            }
            lemma_fundamental_div_mod_converse(v as int, pow2(j) as int, q as int, r as int);
        } else {
            lemma_bit_at_shift(v, 8, (j - 8) as nat);
            lemma_le_value_bit(rest, (j - 8) as nat);
        }
    }
}

/// `PrimeField::from_repr` of `pasta_curves::Fp`: whether the bytes are the
/// canonical encoding of a field element, which they are when the number
/// they denote is below the modulus.
#[verifier::external_body]
fn fp_is_canonical(bytes: &[u8; 32]) -> (canonical: bool)
    ensures
        canonical == (le_value(bytes@) < modulus()),
{
    bool::from(Fp::from_repr(*bytes).is_some())
}

/// `From<u64>` of `pasta_curves::Fp`: the field element congruent to `v`,
/// in its canonical encoding.
#[verifier::external_body]
fn fp_from_u64(v: u64) -> (r: [u8; 32])
    ensures
        le_value(r@) == v,
{
    Fp::from(v).to_repr()
}

/// `FieldExt::ZETA` of `pasta_curves::Fp`, in its canonical encoding.
#[verifier::external_body]
fn fp_zeta() -> (r: [u8; 32])
    ensures
        le_value(r@) == zeta(),
{
    Fp::ZETA.to_repr()
}

/// Addition of `pasta_curves::Fp`: the sum modulo `p`.
#[verifier::external_body]
fn fp_add(a: &[u8; 32], b: &[u8; 32]) -> (r: [u8; 32])
    requires
        le_value(a@) < modulus(),
        le_value(b@) < modulus(),
    ensures
        le_value(r@) == (le_value(a@) + le_value(b@)) % modulus(),
{
    (Fp::from_repr(*a).unwrap() + Fp::from_repr(*b).unwrap()).to_repr()
}

/// Negation of `pasta_curves::Fp`: the additive inverse modulo `p`.
#[verifier::external_body]
fn fp_neg(a: &[u8; 32]) -> (r: [u8; 32])
    requires
        le_value(a@) < modulus(),
    ensures
        le_value(r@) == (modulus() - le_value(a@)) % (modulus() as int),
{
    (-Fp::from_repr(*a).unwrap()).to_repr()
}

/// Multiplication of `pasta_curves::Fp`: the product modulo `p`.
#[verifier::external_body]
fn fp_mul(a: &[u8; 32], b: &[u8; 32]) -> (r: [u8; 32])
    requires
        le_value(a@) < modulus(),
        le_value(b@) < modulus(),
    ensures
        le_value(r@) == (le_value(a@) * le_value(b@)) % modulus(),
{
    (Fp::from_repr(*a).unwrap() * Fp::from_repr(*b).unwrap()).to_repr()
}

/// An element of the field, held as its canonical little-endian
/// encoding.
#[derive(Clone, Copy, Debug)]
pub struct Scalar {
    bytes: [u8; 32],
}

impl View for Scalar {
    type V = Seq<u8>;

    closed spec fn view(&self) -> Seq<u8> {
        self.bytes@
    }
}

impl Scalar {
    #[verifier::type_invariant]
    spec fn canonical(self) -> bool {
        le_value(self.bytes@) < modulus()
    }

    /// The number below `p` that the element is.
    pub open spec fn value(&self) -> nat {
        le_value(self@)
    }

    /// The element with the given canonical encoding, if it is one.
    pub fn from_bytes(bytes: [u8; 32]) -> (r: Option<Scalar>)
        ensures
            r is Some <==> le_value(bytes@) < modulus(),
            r matches Some(s) ==> s@ == bytes@,
    {
        if fp_is_canonical(&bytes) {
            Some(Scalar { bytes })
        } else {
            None
        }
    }

    /// The canonical encoding.
    pub fn to_bytes(&self) -> (r: [u8; 32])
        ensures
            r@ == self@,
            r@.len() == 32,
            le_value(r@) < modulus(),
    {
        proof {
            use_type_invariant(self);
        }
        self.bytes
    }

    /// The element that is the number `v`.
    pub fn from_u64(v: u64) -> (r: Scalar)
        ensures
            r.value() == v,
    {
        let bytes = fp_from_u64(v);
        Scalar { bytes }
    }

    /// The cube root of unity `zeta`.
    pub fn zeta() -> (r: Scalar)
        ensures
            r.value() == zeta(),
    {
        let bytes = fp_zeta();
        Scalar { bytes }
    }

    /// The sum of two elements.
    pub fn add(&self, rhs: &Scalar) -> (r: Scalar)
        ensures
            r.value() == (self.value() + rhs.value()) % modulus(),
    {
        proof {
            use_type_invariant(self);
            use_type_invariant(rhs);
        }
        let bytes = fp_add(&self.bytes, &rhs.bytes);
        Scalar { bytes }
    }

    /// The additive inverse of an element.
    pub fn neg(&self) -> (r: Scalar)
        ensures
            r.value() == (modulus() - self.value()) % (modulus() as int),
    {
        proof {
            use_type_invariant(self);
        }
        let bytes = fp_neg(&self.bytes);
        Scalar { bytes }
    }

    /// The product of two elements.
    pub fn mul(&self, rhs: &Scalar) -> (r: Scalar)
        ensures
            r.value() == (self.value() * rhs.value()) % modulus(),
    {
        proof {
            use_type_invariant(self);
            use_type_invariant(rhs);
        }
        let bytes = fp_mul(&self.bytes, &rhs.bytes);
        Scalar { bytes }
    }

    /// Bit `j` of the number that the element is, counted from the least
    /// significant one.
    pub fn bit(&self, j: usize) -> (set: bool)
        ensures
            set == bit_at(self.value(), j as nat),
    {
        proof {
            lemma_le_value_bit(self@, j as nat);
        }
        if j >= 256 {
            false
        } else {
            let byte: u8 = self.bytes[j / 8];
            let shift: u8 = (j % 8) as u8;
            let shifted: u8 = byte >> shift;
            proof {
                lemma_u8_shr_is_div(byte, shift);
                assert((shifted & 1 == 1) == (shifted % 2 == 1)) by (bit_vector);
            }
            shifted & 1 == 1
        }
    }

    /// Whether the number that the element is has no more than `num_bits`
    /// bits.
    pub fn fits(&self, num_bits: usize) -> (fitting: bool)
        ensures
            fitting == (self.value() < pow2(num_bits as nat)),
    {
        proof {
            lemma_le_value_bound(self@);
        }
        if num_bits >= 256 {
            proof {
                if num_bits > 256 {
                    lemma_pow2_strictly_increases(256, num_bits as nat);
                }
            }
            return true;
        }
        let mut j: usize = num_bits;
        while j < 256
            invariant
                num_bits <= j <= 256,
                forall|i: nat| num_bits <= i < j ==> !bit_at(self.value(), i),
            decreases 256 - j,
        {
            if self.bit(j) {
                proof {
                    if self.value() < pow2(num_bits as nat) {
                        lemma_bit_at_above(self.value(), num_bits as nat, j as nat);
                    }
                }
                return false;
            }
            j = j + 1;
        }
        proof {
            lemma_below_when_high_bits_clear(self.value(), num_bits as nat, 256);
        }
        true
    }

    /// Whether two elements are the same number.
    pub fn equals(&self, other: &Scalar) -> (same: bool)
        ensures
            same == (self.value() == other.value()),
            same == (self@ == other@),
    {
        let mut i: usize = 0;
        while i < 32
            invariant
                i <= 32,
                forall|j: int| 0 <= j < i ==> self.bytes@[j] == other.bytes@[j],
            decreases 32 - i,
        {
            if self.bytes[i] != other.bytes[i] {
                proof {
                    if self.value() == other.value() {
                        lemma_le_value_injective(self@, other@);
                    }
                }
                return false;
            }
            i = i + 1;
        }
        assert(self@ =~= other@);
        true
    }
}

/// Two field elements that are the same number are the same element.
pub proof fn lemma_same_number_same_element(a: Scalar, b: Scalar)
    requires
        a.value() == b.value(),
    ensures
        a == b,
{
    lemma_le_value_injective(a@, b@);
    assert(a.bytes =~= b.bytes);
}

/// A field element is a number of no more than 256 bits.
pub proof fn lemma_value_below_pow2(element: Scalar)
    ensures
        element.value() < pow2(256),
{
    lemma_le_value_bound(element@);
}

} // verus!
