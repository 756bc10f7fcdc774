//! Points of the Vesta curve. A point is held as the 32 bytes of its
//! compressed encoding; adding and scaling are done by `pasta_curves`, and
//! what comes out is named rather than computed here.

use crate::field::Scalar;
use pasta_curves::group::ff::PrimeField;
use pasta_curves::group::{Curve, GroupEncoding};
use pasta_curves::{EqAffine, Fp};
use vstd::prelude::*;

verus! {

/// Whether `GroupEncoding::from_bytes` of the affine Vesta point accepts the
/// bytes as the encoding of a point.
pub uninterp spec fn vesta_decodes(bytes: Seq<u8>) -> bool;

/// The encoding of the point with the given encoding, multiplied by the
/// field element that is the number `scalar`.
pub uninterp spec fn vesta_mul(point: Seq<u8>, scalar: nat) -> Seq<u8>;

/// The encoding of the sum of the two points with the given encodings.
pub uninterp spec fn vesta_add(a: Seq<u8>, b: Seq<u8>) -> Seq<u8>;

/// `GroupEncoding::from_bytes` of `pasta_curves::EqAffine`: whether the bytes
/// decode to a point.
#[verifier::external_body]
fn eq_decodes(bytes: &[u8; 32]) -> (valid: bool)
    ensures
        valid == vesta_decodes(bytes@),
{
    bool::from(EqAffine::from_bytes(bytes).is_some())
}

/// Multiplication of a `pasta_curves::EqAffine` by a `pasta_curves::Fp`,
/// brought back to affine form and encoded. The result is named, and, being
/// the encoding of a point, decodes.
#[verifier::external_body]
fn eq_mul(point: &[u8; 32], scalar: &Scalar) -> (r: [u8; 32])
    requires
        vesta_decodes(point@),
    ensures
        r@ == vesta_mul(point@, scalar.value()),
        vesta_decodes(r@),
{
    let p = EqAffine::from_bytes(point).unwrap();
    let s = Fp::from_repr(scalar.to_bytes()).unwrap();
    (p * s).to_affine().to_bytes()
}

/// Addition of two `pasta_curves::EqAffine`, brought back to affine form and
/// encoded. The result is named, and, being the encoding of a point, decodes.
#[verifier::external_body]
fn eq_add(a: &[u8; 32], b: &[u8; 32]) -> (r: [u8; 32])
    requires
        vesta_decodes(a@),
        vesta_decodes(b@),
    ensures
        r@ == vesta_add(a@, b@),
        vesta_decodes(r@),
{
    let p = EqAffine::from_bytes(a).unwrap();
    let q = EqAffine::from_bytes(b).unwrap();
    (p + q).to_affine().to_bytes()
}

/// A point of the Vesta curve, held as its compressed encoding.
#[derive(Clone, Copy, Debug)]
pub struct Point {
    bytes: [u8; 32],
}

impl View for Point {
    type V = Seq<u8>;

    closed spec fn view(&self) -> Seq<u8> {
        self.bytes@
    }
}

impl Point {
    #[verifier::type_invariant]
    spec fn decodes(self) -> bool {
        vesta_decodes(self.bytes@)
    }

    /// The point with the given encoding, if it is one.
    pub fn from_bytes(bytes: [u8; 32]) -> (r: Option<Point>)
        ensures
            r is Some <==> vesta_decodes(bytes@),
            r matches Some(p) ==> p@ == bytes@,
    {
        if eq_decodes(&bytes) {
            Some(Point { bytes })
        } else {
            None
        }
    }

    /// The encoding.
    pub fn to_bytes(&self) -> (r: [u8; 32])
        ensures
            r@ == self@,
            vesta_decodes(r@),
    {
        proof {
            use_type_invariant(self);
        }
        self.bytes
    }

    /// The point multiplied by a scalar.
    pub fn mul(&self, scalar: &Scalar) -> (r: Point)
        ensures
            r@ == vesta_mul(self@, scalar.value()),
    {
        proof {
            use_type_invariant(self);
        }
        let bytes = eq_mul(&self.bytes, scalar);
        Point { bytes }
    }

    /// The sum of two points.
    pub fn add(&self, rhs: &Point) -> (r: Point)
        ensures
            r@ == vesta_add(self@, rhs@),
    {
        proof {
            use_type_invariant(self);
            use_type_invariant(rhs);
        }
        let bytes = eq_add(&self.bytes, &rhs.bytes);
        Point { bytes }
    }
}

} // verus!
