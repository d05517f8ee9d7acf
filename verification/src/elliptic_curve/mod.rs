//! Short-Weierstrass curves `y^2 = x^3 + a*x + b` over a prime field, their
//! points, and the group law on them.

pub mod closure;
pub mod curve;
pub mod laws;
pub mod ops;
pub mod point;
pub mod secp256k1;
