//! Exact angle arithmetic for the great-circle midpoint primitive.
//!
//! The midpoint of two geographic points comes from a closed-form
//! spherical-trigonometry formula whose single edge case is the
//! antimeridian: the destination longitude leaves the formula as an
//! accumulated angle that may be far outside a single turn, and it must
//! be folded back so that a path crossing the 180-degree line yields a
//! longitude near 180, not one displaced by a whole turn.
//!
//! The trigonometric part of the formula lives outside this crate; what
//! is proved here is the folding rule itself, stated over longitudes
//! measured exactly, in microdegrees. [`normalize_longitude`] folds any
//! longitude into the half-open range (-180, 180] degrees while keeping
//! it on the same meridian, and
//! [`lemma_normalized_longitude_unique`] shows that this pair of
//! conditions pins the result down completely: each meridian has exactly
//! one normalized representation.

use vstd::prelude::*;

verus! {

use vstd::arithmetic::div_mod::lemma_fundamental_div_mod;
use vstd::arithmetic::div_mod::lemma_mod_add_multiples_vanish;
use vstd::arithmetic::div_mod::lemma_mod_multiples_basic;
use vstd::arithmetic::div_mod::lemma_small_mod;

/// Microdegrees in a full turn (360 degrees).
pub const FULL_TURN_MICRODEG: i64 = 360_000_000;

/// Microdegrees in a half turn (180 degrees).
pub const HALF_TURN_MICRODEG: i64 = 180_000_000;

/// A longitude in microdegrees is normalized when it lies in the
/// half-open range (-180, 180] degrees.
pub open spec fn is_normalized_longitude(x: int) -> bool {
    -(HALF_TURN_MICRODEG as int) < x <= HALF_TURN_MICRODEG as int
}

/// Two longitudes in microdegrees denote the same meridian when they
/// differ by a whole number of turns.
pub open spec fn same_meridian(a: int, b: int) -> bool {
    (a - b) % (FULL_TURN_MICRODEG as int) == 0
}

/// Each meridian has exactly one normalized longitude: two longitudes
/// that both lie in (-180, 180] degrees and differ by a whole number of
/// turns are equal. In particular, a normalized longitude near the
/// antimeridian cannot also be represented near zero.
pub proof fn lemma_normalized_longitude_unique(a: int, b: int)
    requires
        is_normalized_longitude(a),
        is_normalized_longitude(b),
        same_meridian(a, b),
    ensures
        a == b,
{
    let full: int = FULL_TURN_MICRODEG as int;
    let d: int = a - b;
    if d >= 0 {
        lemma_small_mod(d as nat, full as nat);
    } else {
        lemma_mod_add_multiples_vanish(d, full);
        lemma_small_mod((full + d) as nat, full as nat);
    }
}

/// Folds a longitude in microdegrees into the range (-180, 180] degrees,
/// moving it by a whole number of turns, so that the result lies on the
/// same meridian as the input. A longitude already in range is returned
/// unchanged.
pub fn normalize_longitude(x: i64) -> (r: i64)
    ensures
        is_normalized_longitude(r as int),
        same_meridian(x as int, r as int),
        is_normalized_longitude(x as int) ==> r == x,
{
    // Shifting by enough whole turns makes the value nonnegative for
    // every i64 input, so the remainder below is a true Euclidean one.
    let turns: i128 = 26_000_000_000;
    let shifted: i128 = (x as i128) + turns * (FULL_TURN_MICRODEG as i128);
    let folded: i128 = shifted % (FULL_TURN_MICRODEG as i128);
    let r128: i128 = if folded > (HALF_TURN_MICRODEG as i128) {
        folded - (FULL_TURN_MICRODEG as i128)
    } else {
        folded
    };
    proof {
        let full: int = FULL_TURN_MICRODEG as int;
        lemma_fundamental_div_mod(shifted as int, full);
        let q: int = shifted as int / full;
        if folded > HALF_TURN_MICRODEG as i128 {
            assert(x as int - r128 as int == (q - turns as int + 1) * full) by {
                assert(shifted as int == full * q + folded as int);
            };
            lemma_mod_multiples_basic(q - turns as int + 1, full);
        } else {
            assert(x as int - r128 as int == (q - turns as int) * full) by {
                assert(shifted as int == full * q + folded as int);
            };
            lemma_mod_multiples_basic(q - turns as int, full);
        }
        if is_normalized_longitude(x as int) {
            lemma_normalized_longitude_unique(x as int, r128 as int);
        }
    }
    r128 as i64
}

} // verus!
