//! Arithmetic in GF(2^8) by logarithm and exponent tables, over a catalog of
//! irreducible degree-eight polynomials with a generator for each.
pub mod field;
pub mod poly;
