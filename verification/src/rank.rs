//! Doubles as integers of the same order.
//!
//! A face is measured in doubles, and this crate decides on integers. A
//! double is made of sixty-four bits: the sign, and behind it the magnitude,
//! which is the exponent and the fraction. Of two doubles that are numbers
//! and at least zero, the one of the larger magnitude is the larger; of two
//! that are at most zero, it is the smaller; and both zeros are equal. So the
//! magnitude, taken with the sign, is an integer that is ordered as the
//! double is. What is no number at all is ranked below every number.

use vstd::prelude::*;

verus! {

/// The bit of the sign.
pub const SIGN: u64 = 0x8000_0000_0000_0000;

/// The bits of the magnitude.
pub const MAGNITUDE: u64 = 0x7fff_ffff_ffff_ffff;

/// The magnitude of infinity, the largest that a number has.
pub const INFINITY: u64 = 0x7ff0_0000_0000_0000;

/// The magnitude of a double.
pub open spec fn magnitude(bits: u64) -> u64 {
    bits & MAGNITUDE
}

/// Whether the sign of a double is set.
pub open spec fn is_negative(bits: u64) -> bool {
    bits & SIGN != 0
}

/// Whether a double is a number, finite or not.
pub open spec fn is_number(bits: u64) -> bool {
    magnitude(bits) <= INFINITY
}

/// The rank of a double: its magnitude with its sign where it is a number,
/// and the least integer where it is none.
pub open spec fn rank(bits: u64) -> int {
    if !is_number(bits) {
        i64::MIN as int
    } else if is_negative(bits) {
        -(magnitude(bits) as int)
    } else {
        magnitude(bits) as int
    }
}

/// The rank of the double with the given bits.
pub fn rank_of_bits(bits: u64) -> (key: i64)
    ensures
        key == rank(bits),
{
    let size: u64 = bits & MAGNITUDE;
    if size > INFINITY {
        i64::MIN
    } else if bits & SIGN != 0 {
        -(size as i64)
    } else {
        size as i64
    }
}

/// Both zeros have the rank zero, a number above zero has a rank above zero
/// and a number below zero a rank below zero; what is no number has a rank
/// below that of every number.
pub proof fn lemma_rank_keeps_the_sign(bits: u64, other: u64)
    ensures
        rank(0) == 0,
        rank(SIGN) == 0,
        is_number(bits) && magnitude(bits) != 0 ==> (rank(bits) < 0 <==> is_negative(bits)),
        is_number(bits) && magnitude(bits) != 0 ==> (rank(bits) > 0 <==> !is_negative(bits)),
        !is_number(bits) && is_number(other) ==> rank(bits) < rank(other),
{
    assert(0u64 & MAGNITUDE == 0) by (bit_vector);
    assert(0u64 & SIGN == 0) by (bit_vector);
    assert(SIGN & MAGNITUDE == 0) by (bit_vector);
}

/// Of two numbers of one sign, the rank is ordered as the magnitude is where
/// the sign is not set, and against it where the sign is set; a number whose
/// sign is set never has the larger rank.
pub proof fn lemma_rank_follows_the_magnitude(a: u64, b: u64)
    requires
        is_number(a),
        is_number(b),
    ensures
        !is_negative(a) && !is_negative(b) ==> (rank(a) <= rank(b) <==> magnitude(a) <= magnitude(
            b,
        )),
        is_negative(a) && is_negative(b) ==> (rank(a) <= rank(b) <==> magnitude(a) >= magnitude(
            b,
        )),
        is_negative(a) && !is_negative(b) ==> rank(a) <= rank(b),
{
}

} // verus!
