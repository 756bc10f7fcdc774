//! Endoscaling commitments to public inputs.
//!
//! A public input is cut into words of `K` bits. Each word stands in the
//! public input column as its endoscalar, a field element derived from its
//! bits, and a lookup table with one row for each of the `2^K` patterns ties
//! the two together. A commitment is a point folded word by word: each word
//! scales a base point by its endoscalar, and the share is added to what was
//! folded before.
//!
//! The field is the base field of the Pallas curve, which is the scalar
//! field of the Vesta curve, and the points that its elements scale are
//! Vesta points. The arithmetic is that of `pasta_curves`, and the table is
//! laid out in the lookup columns of `halo2_proofs`. What is taken on
//! trust from either is stated on the function that makes the call; the rest
//! is proved.

pub mod bits;
pub mod curve;
pub mod error;
pub mod field;
pub mod gadget;
pub mod laws;
pub mod lookup;
pub mod native;
pub mod primitive;
