//! Signal sources without a lifecycle: a sine wave that sustains for ever.

use vstd::prelude::*;
use vstd::arithmetic::div_mod::lemma_add_mod_noop_right;
use crate::config::{StreamConfig, FREQ_SCALE};
use crate::oscillator::{lemma_sine_bounded, sine, sine_value};
use crate::sample::{apply_gain, gain, lemma_gain_bounded, Sample, UNIT};
use crate::synth::{place, placed, written, Synth};

verus! {

/// The state of a sine source.
///
/// The phase is kept as a whole number. A sample counter that wraps at
/// `rate / freq` samples, the length of one turn, would leave a fraction
/// behind at every wrap; the clock holds that counter times the frequency
/// instead, which moves on by `freq` with every sample and wraps at
/// `modulus()`. Both stand for the same angle, `clock / modulus()` turns.
pub struct Tone {
    /// Frequency in thousandths of a hertz.
    pub freq: nat,
    /// Amplitude, `UNIT` being full scale.
    pub amp: nat,
    /// Samples per second.
    pub rate: nat,
    /// Phase: how far the wave is into its turn, out of `modulus()` steps.
    pub clock: nat,
}

impl Tone {
    /// Phase steps in one turn of the wave.
    pub open spec fn modulus(self) -> nat {
        self.rate * (FREQ_SCALE as nat)
    }

    /// What holds of every tone that a source can be in.
    pub open spec fn wf(self) -> bool {
        &&& 0 < self.freq <= u32::MAX
        &&& self.amp <= UNIT
        &&& 0 < self.rate <= u32::MAX
        &&& self.clock < self.modulus()
    }

    /// The tone one sample later: the phase has moved on by the frequency
    /// and wrapped at a full turn.
    pub open spec fn tick(self) -> Tone {
        Tone { clock: (self.clock + self.freq) % self.modulus(), ..self }
    }

    /// The sample that the tone sounds at its present phase.
    pub open spec fn level(self) -> int {
        gain(self.amp as int, sine_value(self.clock as int, self.modulus() as int))
    }

    /// The tone `n` samples later.
    pub open spec fn advance(self, n: nat) -> Tone
        decreases n,
    {
        if n == 0 {
            self
        } else {
            self.advance((n - 1) as nat).tick()
        }
    }

    /// The sample with index `t` of those that the tone goes on to produce:
    /// the level after `t` ticks. The first sample sounds at the phase that
    /// the tone is in, and the phase moves once the sample is taken.
    pub open spec fn sample(self, t: nat) -> int {
        self.advance(t).level()
    }

    /// A tick keeps a tone well formed.
    pub proof fn lemma_tick_wf(self)
        requires
            self.wf(),
        ensures
            self.tick().wf(),
    {
        let m = self.modulus();
        let moved = self.clock + self.freq;
        assert(moved % m < m) by (nonlinear_arith)
            requires
                m > 0,
        ;
    }

    /// Phase wrap: after `n` samples the phase is the starting phase plus `n`
    /// times the frequency, taken modulo a full turn; nothing else changes.
    pub proof fn lemma_advance(self, n: nat)
        requires
            self.wf(),
        ensures
            self.advance(n).wf(),
            self.advance(n) == (Tone {
                clock: (self.clock + n * self.freq) % self.modulus(),
                ..self
            }),
        decreases n,
    {
        let m = self.modulus();
        let c = self.clock;
        let f = self.freq;
        if n == 0 {
            assert(c % m == c) by (nonlinear_arith)
                requires
                    c < m,
            ;
            assert(0 * f == 0);
        } else {
            let k = (n - 1) as nat;
            self.lemma_advance(k);
            self.advance(k).lemma_tick_wf();
            assert(n * f == k * f + f) by (nonlinear_arith)
                requires
                    n == k + 1,
            ;
            lemma_add_mod_noop_right(f as int, (c + k * f) as int, m as int);
        }
    }

    /// The samples of a tone in closed form: the sample with index `t` is
    /// the sine at the starting phase plus `t` times the frequency, wrapped
    /// at a full turn, scaled by the amplitude.
    pub proof fn lemma_sample(self, t: nat)
        requires
            self.wf(),
        ensures
            self.sample(t) == gain(
                self.amp as int,
                sine_value(
                    ((self.clock + t * self.freq) % self.modulus()) as int,
                    self.modulus() as int,
                ),
            ),
    {
        self.lemma_advance(t);
    }

    /// No sample of a tone is louder than its amplitude.
    pub proof fn lemma_sample_bounded(self, t: nat)
        requires
            self.wf(),
        ensures
            -self.amp <= self.sample(t) <= self.amp,
            -UNIT <= self.sample(t) <= UNIT,
    {
        self.lemma_advance(t);
        self.advance(t).lemma_level_bounded();
    }

    /// The level of a tone is no louder than its amplitude.
    pub proof fn lemma_level_bounded(self)
        requires
            self.wf(),
        ensures
            -self.amp <= self.level() <= self.amp,
    {
        lemma_sine_bounded(self.clock as int, self.modulus() as int);
        lemma_gain_bounded(self.amp as int, sine_value(self.clock as int, self.modulus() as int));
    }
}

/// A sine wave of constant amplitude.
pub struct SineWave {
    freq: u32,
    amp: u32,
    config: StreamConfig,
    clock: u64,
}

impl View for SineWave {
    type V = Tone;

    closed spec fn view(&self) -> Tone {
        Tone {
            freq: self.freq as nat,
            amp: self.amp as nat,
            rate: self.config.sample_rate as nat,
            clock: self.clock as nat,
        }
    }
}

impl SineWave {
    /// A sine wave of `freq` thousandths of a hertz and amplitude `amp` out
    /// of `UNIT`, at the start of its turn.
    pub fn new(freq: u32, amp: u32, config: StreamConfig) -> (wave: SineWave)
        requires
            freq > 0,
            amp <= UNIT,
            config.sample_rate > 0,
        ensures
            wave@ == (Tone {
                freq: freq as nat,
                amp: amp as nat,
                rate: config.sample_rate as nat,
                clock: 0,
            }),
            wave@.wf(),
    {
        assert(config.sample_rate * 1000 > 0) by (nonlinear_arith)
            requires
                config.sample_rate > 0,
        ;
        SineWave { freq, amp, config, clock: 0 }
    }

    /// Frequency in thousandths of a hertz.
    pub fn freq(&self) -> (f: u32)
        ensures
            f == self@.freq,
    {
        self.freq
    }

    /// Amplitude out of `UNIT`.
    pub fn amp(&self) -> (a: u32)
        ensures
            a == self@.amp,
    {
        self.amp
    }

    /// Sets the amplitude and leaves frequency and phase alone.
    pub fn set_amp(&mut self, amp: u32)
        requires
            amp <= UNIT,
        ensures
            final(self)@ == (Tone { amp: amp as nat, ..old(self)@ }),
    {
        self.amp = amp;
    }

    /// Samples per second.
    pub fn sample_rate(&self) -> (r: u32)
        ensures
            r == self@.rate,
    {
        self.config.sample_rate
    }

    /// Returns the sample at the present phase, then moves the phase on by
    /// one sample.
    pub fn next_sample(&mut self) -> (s: Sample)
        requires
            old(self)@.wf(),
        ensures
            s == old(self)@.level(),
            final(self)@ == old(self)@.tick(),
            final(self)@.wf(),
            -UNIT <= s <= UNIT,
    {
        proof {
            self@.lemma_tick_wf();
            self@.lemma_level_bounded();
        }
        let modulus: u64 = self.config.sample_rate as u64 * FREQ_SCALE;
        let s: Sample = apply_gain(self.amp, sine(self.clock, modulus));
        self.clock = (self.clock + self.freq as u64) % modulus;
        s
    }
}

impl Synth for SineWave {
    open spec fn ready(&self) -> bool {
        self@.wf()
    }

    /// The wave's next samples, one per slot.
    fn write_to_buffer(&mut self, buffer: &mut [Sample], garbage: bool)
        ensures
            final(self)@ == old(self)@.advance(old(buffer)@.len()),
            forall|i: int|
                0 <= i < old(buffer)@.len() ==> final(buffer)@[i] == placed(
                    garbage,
                    old(buffer)@[i] as int,
                    old(self)@.sample(i as nat),
                ),
    {
        let n: usize = buffer.len();
        let mut i: usize = 0;
        while i < n
            invariant
                i <= n,
                n == buffer@.len(),
                n == old(buffer)@.len(),
                self@.wf(),
                self@ == old(self)@.advance(i as nat),
                forall|j: int|
                    0 <= j < i ==> buffer@[j] == placed(
                        garbage,
                        old(buffer)@[j] as int,
                        old(self)@.sample(j as nat),
                    ),
                forall|j: int| i <= j < n ==> buffer@[j] == old(buffer)@[j],
            decreases n - i,
        {
            let s: Sample = self.next_sample();
            place(buffer, i, s, garbage);
            i = i + 1;
        }
        proof {
            assert forall|i: int| 0 <= i < old(buffer)@.len() implies written(
                garbage,
                old(buffer)@[i] as int,
                #[trigger] final(buffer)@[i] as int,
            ) by {
                let s = old(self)@.sample(i as nat);
                old(self)@.lemma_sample_bounded(i as nat);
                assert(final(buffer)@[i] == placed(garbage, old(buffer)@[i] as int, s));
            }
        }
    }
}

} // verus!
