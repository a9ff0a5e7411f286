//! The numbers by which the run-time library tells cell kinds apart.

use vstd::prelude::*;

verus! {

pub const INTEGER: u32 = 0;

pub const BOOLEAN: u32 = 1;

pub const TEXT: u32 = 2;

/// A Unicode scalar value, zero-extended to eight bytes.
pub const CHARACTER: u32 = 3;

/// An IEEE-754 double, as its eight bytes.
pub const APPROXIMATE: u32 = 4;

/// A reduced numerator and denominator, eight bytes each.
pub const RATIONAL: u32 = 5;

/// A nested tuple, laid out inside the record.
pub const TUPLE: u32 = 10;

/// A pointer to a relation value.
pub const RELATION: u32 = 11;

} // verus!
