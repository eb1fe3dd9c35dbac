//! Satisfiability checking of rank-1 constraint systems over the BN254
//! scalar field.
//!
//! A constraint system is three sparse matrices A, B and C.  A witness `w`
//! satisfies it when `(A·w)[i] · (B·w)[i] = (C·w)[i]` holds in the field for
//! every constraint `i`.  The modules follow the data flow: decimal numerals
//! are parsed into field elements, matrix entries are normalised into a
//! sparse matrix, a witness is evaluated against the three matrices, and the
//! resulting accumulators are checked constraint by constraint.

pub mod deserialize;
pub mod field;
pub mod models;
pub mod numeral;
pub mod r1cs;
pub mod serialize;
pub mod sparse;
