//! Fixed-point score arithmetic.
//!
//! A score of `1.0` point is carried as `1000` milli-points in an `i64`.
//! Rounding to a number of decimal places and clamping into a floor/ceiling
//! interval are defined as spec functions and implemented exactly.

use vstd::prelude::*;

verus! {

/// Milli-points per whole score point.
pub const SCALE: i64 = 1000;

/// Largest magnitude, in milli-points, that a stored score value may take.
pub const VALUE_LIMIT: i64 = 4_000_000_000_000;

/// Largest magnitude, in milli-points, of a rubric bound
/// (score floor, score ceiling, neutral score, drift threshold).
pub const BOUND_LIMIT: i64 = 1_000_000_000_000;

/// Largest magnitude, in milli-points, of a rubric penalty, weight
/// or confidence parameter.
pub const PARAM_LIMIT: i64 = 1_000_000_000;

/// The milli-point quantum that rounding to `decimals` decimal places
/// preserves. Values carry three fractional digits, so rounding to three
/// or more places leaves them unchanged.
pub open spec fn spec_quantum(decimals: u32) -> int {
    if decimals == 0 {
        1000
    } else if decimals == 1 {
        100
    } else if decimals == 2 {
        10
    } else {
        1
    }
}

/// Round `v` to the nearest multiple of `q`, halves away from zero.
pub open spec fn round_to_multiple(v: int, q: int) -> int
    recommends
        q >= 1,
{
    if v >= 0 {
        ((v + q / 2) / q) * q
    } else {
        -((((-v) + q / 2) / q) * q)
    }
}

/// Round a milli-point value to `decimals` decimal places,
/// halves away from zero.
pub open spec fn spec_round(v: int, decimals: u32) -> int {
    round_to_multiple(v, spec_quantum(decimals))
}

/// Clamp `v` by raising it to `floor`, then lowering it to `ceiling`
/// (so a floor above the ceiling resolves to the ceiling).
pub open spec fn spec_clamp(v: int, floor: int, ceiling: int) -> int {
    let raised = if v < floor {
        floor
    } else {
        v
    };
    if raised > ceiling {
        ceiling
    } else {
        raised
    }
}

/// Clamp a milli-point value into the inclusive interval
/// raised by `floor` and lowered by `ceiling`.
pub fn clamp_score(value: i64, floor: i64, ceiling: i64) -> (r: i64)
    ensures
        r == spec_clamp(value as int, floor as int, ceiling as int),
{
    let raised = if value < floor {
        floor
    } else {
        value
    };
    if raised > ceiling {
        ceiling
    } else {
        raised
    }
}

/// Round a milli-point value to `decimals` decimal places,
/// halves away from zero.
pub fn round_score(value: i64, decimals: u32) -> (r: i64)
    requires
        -0x7fff_ffff_ffff_f000 <= value <= 0x7fff_ffff_ffff_f000,
    ensures
        r == spec_round(value as int, decimals),
{
    let q: i64 = if decimals == 0 {
        1000
    } else if decimals == 1 {
        100
    } else if decimals == 2 {
        10
    } else {
        1
    };
    let half: i64 = q / 2;
    if value >= 0 {
        ((value + half) / q) * q
    } else {
        -((((-value) + half) / q) * q)
    }
}

/// Rounding to a multiple of `q` yields a multiple of `q`.
pub proof fn lemma_round_is_multiple(v: int, q: int)
    requires
        q >= 1,
    ensures
        round_to_multiple(v, q) % q == 0,
{
    if v >= 0 {
        vstd::arithmetic::div_mod::lemma_mod_multiples_basic((v + q / 2) / q, q);
    } else {
        let k = ((-v) + q / 2) / q;
        vstd::arithmetic::div_mod::lemma_mod_multiples_basic(-k, q);
        assert((-k) * q == -(k * q)) by (nonlinear_arith);
    }
}

/// A value that is already a multiple of `q` rounds to itself.
pub proof fn lemma_round_stable(v: int, q: int)
    requires
        q >= 1,
        v % q == 0,
    ensures
        round_to_multiple(v, q) == v,
{
    let k = v / q;
    vstd::arithmetic::div_mod::lemma_fundamental_div_mod(v, q);
    assert(v == k * q);
    if v >= 0 {
        assert((k * q + q / 2) / q == k + (q / 2) / q) by {
            vstd::arithmetic::div_mod::lemma_hoist_over_denominator(q / 2, k, q as nat);
        }
        vstd::arithmetic::div_mod::lemma_basic_div(q / 2, q);
        assert((q / 2) / q == 0);
        assert(round_to_multiple(v, q) == k * q);
    } else {
        let j = -k;
        assert(-v == j * q) by (nonlinear_arith)
            requires
                v == k * q && j == -k,
        ;
        assert((j * q + q / 2) / q == j + (q / 2) / q) by {
            vstd::arithmetic::div_mod::lemma_hoist_over_denominator(q / 2, j, q as nat);
        }
        vstd::arithmetic::div_mod::lemma_basic_div(q / 2, q);
        assert(round_to_multiple(v, q) == -(j * q));
        assert(-(j * q) == k * q) by (nonlinear_arith)
            requires
                j == -k,
        ;
    }
}

/// Rounding to a multiple of `q` is monotone.
pub proof fn lemma_round_monotone(a: int, b: int, q: int)
    requires
        q >= 1,
        a <= b,
    ensures
        round_to_multiple(a, q) <= round_to_multiple(b, q),
{
    if a >= 0 {
        vstd::arithmetic::div_mod::lemma_div_is_ordered(a + q / 2, b + q / 2, q);
        let da = (a + q / 2) / q;
        let db = (b + q / 2) / q;
        assert(da * q <= db * q) by (nonlinear_arith)
            requires
                da <= db && q >= 1,
        ;
    } else if b < 0 {
        vstd::arithmetic::div_mod::lemma_div_is_ordered((-b) + q / 2, (-a) + q / 2, q);
        let db = ((-b) + q / 2) / q;
        let da = ((-a) + q / 2) / q;
        assert(db * q <= da * q) by (nonlinear_arith)
            requires
                db <= da && q >= 1,
        ;
    } else {
        // `a` is negative and `b` is not: the two sides straddle zero.
        vstd::arithmetic::div_mod::lemma_div_pos_is_pos(b + q / 2, q);
        let db = (b + q / 2) / q;
        assert(0 <= db * q) by (nonlinear_arith)
            requires
                0 <= db && q >= 1,
        ;
        vstd::arithmetic::div_mod::lemma_div_pos_is_pos((-a) + q / 2, q);
        let da = ((-a) + q / 2) / q;
        assert(0 <= da * q) by (nonlinear_arith)
            requires
                0 <= da && q >= 1,
        ;
    }
}


/// The micro-point quantum that rounding to `decimals` decimal places
/// preserves (micro-points carry six fractional digits).
pub open spec fn spec_micro_quantum(decimals: u32) -> int {
    if decimals == 0 {
        1_000_000
    } else if decimals == 1 {
        100_000
    } else if decimals == 2 {
        10_000
    } else {
        1_000
    }
}

/// Round a micro-point value to `decimals` decimal places and express
/// the result in milli-points.
pub open spec fn spec_round_micro(v: int, decimals: u32) -> int {
    round_to_multiple(v, spec_micro_quantum(decimals)) / 1000
}

/// Rounding moves a value by at most the quantum.
pub proof fn lemma_round_near(v: int, q: int)
    requires
        q >= 1,
    ensures
        v - q <= round_to_multiple(v, q) <= v + q,
{
    if v >= 0 {
        vstd::arithmetic::div_mod::lemma_fundamental_div_mod(v + q / 2, q);
        vstd::arithmetic::div_mod::lemma_mod_bound(v + q / 2, q);
        assert(((v + q / 2) / q) * q == (v + q / 2) - (v + q / 2) % q);
    } else {
        let m = -v;
        vstd::arithmetic::div_mod::lemma_fundamental_div_mod(m + q / 2, q);
        vstd::arithmetic::div_mod::lemma_mod_bound(m + q / 2, q);
        assert(((m + q / 2) / q) * q == (m + q / 2) - (m + q / 2) % q);
    }
}

/// Round a micro-point value (for instance a clamped weighted sum) to
/// the output precision, yielding milli-points.
pub fn round_micro(value: i128, decimals: u32) -> (r: i64)
    requires
        -2_000_000_000_000_000 <= value <= 2_000_000_000_000_000,
    ensures
        r as int == spec_round_micro(value as int, decimals),
{
    let q: i128 = if decimals == 0 {
        1_000_000
    } else if decimals == 1 {
        100_000
    } else if decimals == 2 {
        10_000
    } else {
        1_000
    };
    let half: i128 = q / 2;
    let negative = value < 0;
    let mag: i128 = if negative {
        -value
    } else {
        value
    };
    let rounded_mag: i128 = ((mag + half) / q) * q;
    proof {
        lemma_round_near(mag as int, q as int);
        assert(round_to_multiple(mag as int, q as int) == ((mag as int + half as int) / (q as int)) * (q as int));
        lemma_round_is_multiple(mag as int, q as int);
        let rm = rounded_mag as int;
        assert(rm % q as int == 0);
        // A multiple of the quantum is a multiple of one thousand.
        let k = rm / (q as int);
        vstd::arithmetic::div_mod::lemma_fundamental_div_mod(rm, q as int);
        assert(rm == (q as int) * k + 0);
        let f = q as int / 1000;
        assert(q as int == f * 1000);
        assert(rm == (k * f) * 1000) by (nonlinear_arith)
            requires
                rm == (q as int) * k,
                q as int == f * 1000,
        ;
        vstd::arithmetic::div_mod::lemma_mod_multiples_basic(k * f, 1000);
        assert(rm % 1000 == 0);
    }
    let milli_mag: i128 = rounded_mag / 1000;
    proof {
        let rm = rounded_mag as int;
        vstd::arithmetic::div_mod::lemma_fundamental_div_mod(rm, 1000);
        assert(rm == 1000 * (rm / 1000));
        if negative {
            // Negating a multiple of one thousand negates its quotient.
            vstd::arithmetic::div_mod::lemma_fundamental_div_mod_converse(
                -rm,
                1000,
                -(rm / 1000),
                0,
            );
        }
    }
    if negative {
        -milli_mag as i64
    } else {
        milli_mag as i64
    }
}

} // verus!
