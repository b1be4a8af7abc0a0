//! Fixed-point samples and the arithmetic that mixing needs.

use vstd::prelude::*;

verus! {

/// One audio sample in fixed point: `UNIT` is full scale.
pub type Sample = i64;

/// Full scale (1.0) of a sample, an amplitude or a waveform value: two to the thirtieth.
pub const UNIT: i64 = 1_073_741_824;

/// The sample nearest to `x`: `x` itself where it fits, else the end of the
/// sample range on its side.
pub open spec fn clip(x: int) -> int {
    if x > i64::MAX {
        i64::MAX as int
    } else if x < i64::MIN {
        i64::MIN as int
    } else {
        x
    }
}

/// `wave` scaled by the gain `amp / UNIT`, rounded toward zero whatever the
/// sign of `wave`.
pub open spec fn gain(amp: int, wave: int) -> int {
    if wave >= 0 {
        amp * wave / (UNIT as int)
    } else {
        -(amp * (-wave) / (UNIT as int))
    }
}

/// The share of `x` that falls to each of `count` voices: `x` over `count`,
/// rounded toward zero.
pub open spec fn share(x: int, count: int) -> int {
    if x >= 0 {
        x / count
    } else {
        -((-x) / count)
    }
}

/// A gain of at most full scale never makes a waveform value louder.
pub proof fn lemma_gain_bounded(amp: int, wave: int)
    requires
        0 <= amp <= UNIT,
        -UNIT <= wave <= UNIT,
    ensures
        -amp <= gain(amp, wave) <= amp,
        wave >= 0 ==> 0 <= gain(amp, wave) <= wave,
        wave <= 0 ==> wave <= gain(amp, wave) <= 0,
        amp == 0 ==> gain(amp, wave) == 0,
        amp == UNIT ==> gain(amp, wave) == wave,
{
    let m: int = if wave >= 0 { wave } else { -wave };
    let u: int = UNIT as int;
    assert(0 <= amp * m / u <= amp && amp * m / u <= m) by (nonlinear_arith)
        requires
            0 <= amp <= u,
            0 <= m <= u,
            u > 0,
    ;
    assert(amp == 0 ==> amp * m / u == 0) by (nonlinear_arith)
        requires
            u > 0,
    ;
    assert(amp == u ==> amp * m / u == m) by (nonlinear_arith)
        requires
            u > 0,
    ;
}

/// Adds two samples; a sum beyond the sample range is held at the end of the range.
pub fn mix_add(a: Sample, b: Sample) -> (r: Sample)
    ensures
        r == clip(a + b),
{
    if b > 0 && a > i64::MAX - b {
        i64::MAX
    } else if b < 0 && a < i64::MIN - b {
        i64::MIN
    } else {
        a + b
    }
}

/// Scales the waveform value `wave` by the amplitude `amp`.
pub fn apply_gain(amp: u32, wave: Sample) -> (r: Sample)
    requires
        amp <= UNIT,
        -UNIT <= wave <= UNIT,
    ensures
        r == gain(amp as int, wave as int),
        -amp <= r <= amp,
{
    proof {
        lemma_gain_bounded(amp as int, wave as int);
    }
    let a: i64 = amp as i64;
    if wave >= 0 {
        assert(a * wave <= UNIT * UNIT) by (nonlinear_arith)
            requires
                0 <= a <= UNIT,
                0 <= wave <= UNIT,
        ;
        assert(0 <= a * wave) by (nonlinear_arith)
            requires
                0 <= a,
                0 <= wave,
        ;
        a * wave / UNIT
    } else {
        let m: i64 = -wave;
        assert(a * m <= UNIT * UNIT) by (nonlinear_arith)
            requires
                0 <= a <= UNIT,
                0 <= m <= UNIT,
        ;
        assert(0 <= a * m) by (nonlinear_arith)
            requires
                0 <= a,
                0 <= m,
        ;
        -(a * m / UNIT)
    }
}

/// Divides a sample by a count of voices.
pub fn divide(x: Sample, count: usize) -> (r: Sample)
    requires
        count > 0,
    ensures
        r == share(x as int, count as int),
{
    let wide: i128 = x as i128;
    let by: i128 = count as i128;
    if wide >= 0 {
        assert(wide / by <= wide) by (nonlinear_arith)
            requires
                wide >= 0,
                by > 0,
        ;
        assert(wide / by >= 0) by (nonlinear_arith)
            requires
                wide >= 0,
                by > 0,
        ;
        (wide / by) as i64
    } else {
        let m: i128 = -wide;
        assert(0 <= m / by <= m) by (nonlinear_arith)
            requires
                m >= 0,
                by > 0,
        ;
        (-(m / by)) as i64
    }
}

} // verus!
