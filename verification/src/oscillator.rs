//! The oscillator core: a sine wave in fixed point, as a function of the
//! phase alone.
//!
//! One turn is cut into four quarters. Within a quarter the wave follows the
//! odd Taylor polynomial of `sin(pi/2 * x)` up to the eleventh power, whose
//! error stays below one part in ten million; the other quarters follow by
//! symmetry.

use vstd::prelude::*;
use crate::sample::{Sample, UNIT};

verus! {

/// Magnitudes of the polynomial's coefficients, `(pi/2)^k / k!` in units of
/// `1 / UNIT`. Their signs alternate, the first being positive.
pub const C1: u64 = 1_686_629_713;

pub const C3: u64 = 693_598_668;

pub const C5: u64 = 85_569_306;

pub const C7: u64 = 5_026_995;

pub const C9: u64 = 172_272;

pub const C11: u64 = 3_864;

/// The product of two fixed-point numbers, rounded down.
pub open spec fn scale(a: int, x: int) -> int {
    a * x / (UNIT as int)
}

/// The wave over its first quarter turn: `x / UNIT` is the part of the
/// quarter that has passed, and the value is never above `UNIT`.
pub open spec fn quarter_wave(x: int) -> int {
    let x2 = scale(x, x);
    let t9 = C9 - scale(C11 as int, x2);
    let t7 = C7 - scale(t9, x2);
    let t5 = C5 - scale(t7, x2);
    let t3 = C3 - scale(t5, x2);
    let t1 = C1 - scale(t3, x2);
    let y = scale(t1, x);
    if y > UNIT {
        UNIT as int
    } else {
        y
    }
}

/// The sine of the angle `phase / modulus` turns, in units of `1 / UNIT`.
///
/// The second quarter mirrors the first, and the second half turn is the
/// first with its sign changed.
pub open spec fn sine_value(phase: int, modulus: int) -> int {
    let quarter = 4 * phase / modulus;
    let rest = 4 * phase % modulus;
    let folded = if quarter % 2 == 1 {
        modulus - rest
    } else {
        rest
    };
    let y = quarter_wave(folded * UNIT / modulus);
    if quarter < 2 {
        y
    } else {
        -y
    }
}

/// The quarter wave lies between silence and full scale.
pub proof fn lemma_quarter_wave_bounded(x: int)
    requires
        0 <= x <= UNIT,
    ensures
        0 <= quarter_wave(x) <= UNIT,
{
    let x2 = scale(x, x);
    lemma_scale_bounded(x, x);
    let t9 = C9 - scale(C11 as int, x2);
    lemma_scale_bounded(C11 as int, x2);
    let t7 = C7 - scale(t9, x2);
    lemma_scale_bounded(t9, x2);
    let t5 = C5 - scale(t7, x2);
    lemma_scale_bounded(t7, x2);
    let t3 = C3 - scale(t5, x2);
    lemma_scale_bounded(t5, x2);
    let t1 = C1 - scale(t3, x2);
    lemma_scale_bounded(t3, x2);
    lemma_scale_bounded(t1, x);
}

/// The sine lies between minus and plus full scale.
pub proof fn lemma_sine_bounded(phase: int, modulus: int)
    requires
        0 <= phase < modulus,
    ensures
        -UNIT <= sine_value(phase, modulus) <= UNIT,
{
    lemma_fold(phase, modulus);
    let quarter = 4 * phase / modulus;
    let rest = 4 * phase % modulus;
    let folded = if quarter % 2 == 1 {
        modulus - rest
    } else {
        rest
    };
    lemma_quarter_wave_bounded(folded * UNIT / modulus);
}

/// At phase zero the wave is silent.
pub proof fn lemma_sine_starts_silent(modulus: int)
    requires
        0 < modulus,
    ensures
        sine_value(0, modulus) == 0,
{
    lemma_fold(0, modulus);
    assert(0int / modulus == 0 && 0int % modulus == 0) by (nonlinear_arith)
        requires
            0 < modulus,
    ;
    assert(scale(0, 0) == 0);
    assert(scale(C1 as int - scale(C3 as int - scale(C5 as int - scale(C7 as int - scale(C9 as int - scale(C11 as int, 0), 0), 0), 0), 0), 0) == 0) by (nonlinear_arith);
}

/// Half a turn later the wave has the same size and the other sign.
pub proof fn lemma_sine_half_turn(phase: int, modulus: int)
    requires
        0 <= phase,
        0 < modulus,
        modulus % 2 == 0,
        phase + modulus / 2 < modulus,
    ensures
        sine_value(phase + modulus / 2, modulus) == -sine_value(phase, modulus),
{
    let later = phase + modulus / 2;
    lemma_fold(phase, modulus);
    lemma_fold(later, modulus);
    assert(4 * later == 4 * phase + 2 * modulus);
    assert((4 * phase + 2 * modulus) / modulus == 4 * phase / modulus + 2 && (4 * phase + 2
        * modulus) % modulus == 4 * phase % modulus) by (nonlinear_arith)
        requires
            0 < modulus,
            0 <= phase,
    ;
    assert(4 * phase / modulus < 2) by (nonlinear_arith)
        requires
            0 < modulus,
            0 <= phase,
            4 * phase < 2 * modulus,
    ;
}

/// Where a phase falls: its quarter, what is left within the quarter, and
/// the folded fraction that the quarter wave is asked for.
proof fn lemma_fold(phase: int, modulus: int)
    requires
        0 <= phase < modulus,
    ensures
        0 <= 4 * phase / modulus <= 3,
        0 <= 4 * phase % modulus < modulus,
        0 <= (4 * phase % modulus) * UNIT / modulus <= UNIT,
        0 <= (modulus - 4 * phase % modulus) * UNIT / modulus <= UNIT,
{
    let u: int = UNIT as int;
    assert(0 <= 4 * phase / modulus <= 3 && 0 <= 4 * phase % modulus < modulus)
        by (nonlinear_arith)
        requires
            0 <= phase < modulus,
    ;
    let rest = 4 * phase % modulus;
    assert(0 <= rest * u / modulus <= u) by (nonlinear_arith)
        requires
            0 <= rest <= modulus,
            0 < modulus,
            0 < u,
    ;
    let back = modulus - rest;
    assert(0 <= back * u / modulus <= u) by (nonlinear_arith)
        requires
            0 <= back <= modulus,
            0 < modulus,
            0 < u,
    ;
}

/// A product with a fraction of at most one is no larger than the other factor.
proof fn lemma_scale_bounded(a: int, x: int)
    requires
        0 <= a,
        0 <= x <= UNIT,
    ensures
        0 <= scale(a, x) <= a,
{
    let u: int = UNIT as int;
    assert(0 <= a * x / u <= a) by (nonlinear_arith)
        requires
            0 <= a,
            0 <= x <= u,
            0 < u,
    ;
}

/// Multiplies two fixed-point numbers.
fn scaled(a: u64, x: u64) -> (r: u64)
    requires
        a <= 0x1_0000_0000,
        x <= UNIT,
    ensures
        r == scale(a as int, x as int),
        r <= a,
{
    proof {
        lemma_scale_bounded(a as int, x as int);
    }
    assert(a * x <= 0x1_0000_0000 * 0x4000_0000) by (nonlinear_arith)
        requires
            0 <= a <= 0x1_0000_0000,
            0 <= x <= 0x4000_0000,
    ;
    a * x / (UNIT as u64)
}

/// Evaluates the quarter wave at `x`.
fn quarter(x: u64) -> (y: u64)
    requires
        x <= UNIT,
    ensures
        y == quarter_wave(x as int),
        y <= UNIT,
{
    let x2: u64 = scaled(x, x);
    let t9: u64 = C9 - scaled(C11, x2);
    let t7: u64 = C7 - scaled(t9, x2);
    let t5: u64 = C5 - scaled(t7, x2);
    let t3: u64 = C3 - scaled(t5, x2);
    let t1: u64 = C1 - scaled(t3, x2);
    let y: u64 = scaled(t1, x);
    if y > UNIT as u64 {
        UNIT as u64
    } else {
        y
    }
}

/// The sine wave at `phase` out of `modulus` steps a turn. Four times the
/// phase has to fit the machine word.
pub fn sine(phase: u64, modulus: u64) -> (y: Sample)
    requires
        phase < modulus <= u64::MAX / 4,
    ensures
        y == sine_value(phase as int, modulus as int),
        -UNIT <= y <= UNIT,
{
    proof {
        lemma_fold(phase as int, modulus as int);
    }
    let turns: u64 = 4 * phase;
    let quarter_index: u64 = turns / modulus;
    let rest: u64 = turns % modulus;
    let folded: u64 = if quarter_index % 2 == 1 {
        modulus - rest
    } else {
        rest
    };
    let wide: u128 = (folded as u128) * (UNIT as u128);
    let x: u64 = (wide / (modulus as u128)) as u64;
    let y: u64 = quarter(x);
    if quarter_index < 2 {
        y as i64
    } else {
        -(y as i64)
    }
}

} // verus!
