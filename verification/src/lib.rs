//! Prime-field arithmetic and the group law of short-Weierstrass elliptic
//! curves, with the secp256k1 parameters.

pub mod elliptic_curve;
pub mod error;
pub mod finite_fields;
pub mod uint;
