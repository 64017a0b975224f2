//! Wrapping 64-bit arithmetic seen as the ring of integers modulo 2^64.
//!
//! `crop(x)` is the unique value in `i64` range congruent to `x` modulo
//! 2^64. The lemmas here say that the wrapping operations on `i64` compute
//! the crop of the exact integer result, and that `crop` respects
//! congruence. Together they let ring identities proved over `int` carry
//! over to the executable wrapping code.

use vstd::prelude::*;
use vstd::arithmetic::div_mod::{
    lemma_add_mod_noop, lemma_mod_add_multiples_vanish, lemma_mod_sub_multiples_vanish,
    lemma_mul_mod_noop, lemma_small_mod, lemma_sub_mod_noop,
};
use vstd::wrapping::i64_specs;

verus! {

/// 2^64, the modulus of wrapping 64-bit arithmetic.
pub open spec fn two_to_64() -> int {
    0x1_0000_0000_0000_0000
}

/// The representative of `x` modulo 2^64 that lies in `i64` range.
pub open spec fn crop(x: int) -> int {
    i64_specs::signed_crop(x) as int
}

/// A value already in `i64` range is its own crop.
pub proof fn lemma_crop_id(x: int)
    requires
        i64::MIN <= x <= i64::MAX,
    ensures
        crop(x) == x,
{
    if x >= 0 {
        lemma_small_mod(x as nat, two_to_64() as nat);
    } else {
        lemma_mod_add_multiples_vanish(x, two_to_64());
        lemma_small_mod((x + two_to_64()) as nat, two_to_64() as nat);
    }
}

/// Cropping keeps the residue modulo 2^64.
pub proof fn lemma_crop_residue(x: int)
    ensures
        crop(x) % two_to_64() == x % two_to_64(),
{
    let w = two_to_64();
    let r = x % w;
    if r > i64::MAX {
        lemma_mod_sub_multiples_vanish(r, w);
        lemma_small_mod(r as nat, w as nat);
    } else {
        lemma_small_mod(r as nat, w as nat);
    }
}

/// Congruent values crop to the same representative.
pub proof fn lemma_crop_congruent(x: int, y: int)
    requires
        x % two_to_64() == y % two_to_64(),
    ensures
        crop(x) == crop(y),
{
}

/// Congruence is preserved by addition.
pub proof fn lemma_add_congruent(x: int, y: int, x2: int, y2: int)
    requires
        x % two_to_64() == x2 % two_to_64(),
        y % two_to_64() == y2 % two_to_64(),
    ensures
        (x + y) % two_to_64() == (x2 + y2) % two_to_64(),
{
    lemma_add_mod_noop(x, y, two_to_64());
    lemma_add_mod_noop(x2, y2, two_to_64());
}

/// Congruence is preserved by subtraction.
pub proof fn lemma_sub_congruent(x: int, y: int, x2: int, y2: int)
    requires
        x % two_to_64() == x2 % two_to_64(),
        y % two_to_64() == y2 % two_to_64(),
    ensures
        (x - y) % two_to_64() == (x2 - y2) % two_to_64(),
{
    lemma_sub_mod_noop(x, y, two_to_64());
    lemma_sub_mod_noop(x2, y2, two_to_64());
}

/// Congruence is preserved by multiplication.
pub proof fn lemma_mul_congruent(x: int, y: int, x2: int, y2: int)
    requires
        x % two_to_64() == x2 % two_to_64(),
        y % two_to_64() == y2 % two_to_64(),
    ensures
        (x * y) % two_to_64() == (x2 * y2) % two_to_64(),
{
    lemma_mul_mod_noop(x, y, two_to_64());
    lemma_mul_mod_noop(x2, y2, two_to_64());
}

/// For a value within one modulus of `i64` range, the crop is reached by
/// at most one correction step.
proof fn lemma_crop_near(z: int)
    requires
        -two_to_64() <= z < two_to_64(),
    ensures
        crop(z) == if z > i64::MAX {
            z - two_to_64()
        } else if z < i64::MIN {
            z + two_to_64()
        } else {
            z
        },
{
    let w = two_to_64();
    if z > i64::MAX {
        lemma_small_mod(z as nat, w as nat);
    } else if z < i64::MIN {
        lemma_mod_add_multiples_vanish(z, w);
        lemma_small_mod((z + w) as nat, w as nat);
    } else {
        lemma_crop_id(z);
    }
}

/// `wrapping_add` computes the crop of the exact sum.
pub proof fn lemma_wrapping_add_crop(x: i64, y: i64)
    ensures
        i64_specs::wrapping_add(x, y) as int == crop(x + y),
{
    lemma_crop_near(x + y);
}

/// `wrapping_sub` computes the crop of the exact difference.
pub proof fn lemma_wrapping_sub_crop(x: i64, y: i64)
    ensures
        i64_specs::wrapping_sub(x, y) as int == crop(x - y),
{
    lemma_crop_near(x - y);
}

/// `wrapping_mul` computes the crop of the exact product.
pub proof fn lemma_wrapping_mul_crop(x: i64, y: i64)
    ensures
        i64_specs::wrapping_mul(x, y) as int == crop(x * y),
{
}

/// Cropping the operands of a sum before cropping the sum changes nothing.
pub proof fn lemma_crop_add_both(a: int, b: int)
    ensures
        crop(crop(a) + crop(b)) == crop(a + b),
{
    lemma_crop_residue(a);
    lemma_crop_residue(b);
    lemma_add_congruent(crop(a), crop(b), a, b);
    lemma_crop_congruent(crop(a) + crop(b), a + b);
}

/// Cropping the operands of a difference before cropping it changes nothing.
pub proof fn lemma_crop_sub_both(a: int, b: int)
    ensures
        crop(crop(a) - crop(b)) == crop(a - b),
{
    lemma_crop_residue(a);
    lemma_crop_residue(b);
    lemma_sub_congruent(crop(a), crop(b), a, b);
    lemma_crop_congruent(crop(a) - crop(b), a - b);
}

/// Cropping the factors of a product before cropping it changes nothing.
pub proof fn lemma_crop_mul_both(a: int, b: int)
    ensures
        crop(crop(a) * crop(b)) == crop(a * b),
{
    lemma_crop_residue(a);
    lemma_crop_residue(b);
    lemma_mul_congruent(crop(a), crop(b), a, b);
    lemma_crop_congruent(crop(a) * crop(b), a * b);
}

} // verus!
