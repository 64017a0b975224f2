//! Exact multiplication of square matrices over 64-bit integers with
//! wrapping (modulo 2^64) arithmetic, by the classic cubic algorithm and
//! by Strassen's seven-product recursion. Because wrapping arithmetic is a
//! commutative ring, the two algorithms agree exactly on every input, and
//! that agreement is stated in the contracts and proved.

use vstd::prelude::*;

pub mod laws;
pub mod matrix;
pub mod model;
pub mod modular;
pub mod strassen;

verus! {

/// The largest matrix order the padding step accepts; keeps the
/// power-of-two doubling inside `usize`.
pub const MAX_ORDER: usize = 0x100000;

} // verus!
