//! A voice: a sine wave with a release envelope and a three-state life,
//! held, released, done.

use vstd::prelude::*;
use crate::config::StreamConfig;
use crate::sample::{lemma_gain_bounded, Sample, UNIT};
use crate::signal::{SineWave, Tone};
use crate::synth::{place, placed, written, Synth};

verus! {

/// A full turn in radians, in units of `1 / UNIT`.
pub const TAU: u64 = 6_746_518_852;

/// The decay coefficient is one part in this many: a larger divisor makes a
/// longer release tail.
pub const DECAY_DIVISOR: u64 = 10;

/// How much amplitude a released voice loses with every sample at `rate`
/// samples a second: a turn in radians over the sample rate, times the decay
/// coefficient, rounded down, and never less than the smallest step that an
/// amplitude can take, so that every release comes to an end.
pub open spec fn decay_step(rate: nat) -> nat {
    let d = (TAU as nat) / ((DECAY_DIVISOR as nat) * rate);
    if d == 0 {
        1
    } else {
        d
    }
}

/// The state of a voice.
pub struct Voice {
    /// The wave that the voice sounds; the envelope shapes its amplitude.
    pub tone: Tone,
    /// Whether the voice has been released: there is no way back.
    pub released: bool,
    /// Whether the release has come to its end: the voice is silent and
    /// waits to be removed.
    pub done: bool,
}

impl Voice {
    /// What holds of every voice: only a released voice is done, and a done
    /// voice is silent.
    pub open spec fn wf(self) -> bool {
        &&& self.tone.wf()
        &&& self.done ==> self.released && self.tone.amp == 0
    }

    /// The amplitude lost with every sample once released.
    pub open spec fn decay(self) -> nat {
        decay_step(self.tone.rate)
    }

    /// The voice once it has been released.
    pub open spec fn release(self) -> Voice {
        Voice { released: true, ..self }
    }

    /// The envelope's part of a sample: a released voice loses `decay()` of
    /// its amplitude; once nothing is left the amplitude is zero and the
    /// voice is done. A held voice stays as it is.
    pub open spec fn fade(self) -> Voice {
        if !self.released {
            self
        } else if self.tone.amp <= self.decay() {
            Voice { tone: Tone { amp: 0, ..self.tone }, done: true, ..self }
        } else {
            Voice { tone: Tone { amp: (self.tone.amp - self.decay()) as nat, ..self.tone }, ..self }
        }
    }

    /// The voice one sample later: the envelope first, then, once the
    /// sample is taken, the phase.
    pub open spec fn step(self) -> Voice {
        Voice { tone: self.fade().tone.tick(), ..self.fade() }
    }

    /// The sample that the voice sounds next: the wave at the present
    /// phase, at the amplitude that this sample's fade leaves.
    pub open spec fn level(self) -> int {
        self.fade().tone.level()
    }

    /// The voice `n` samples later.
    pub open spec fn advance(self, n: nat) -> Voice
        decreases n,
    {
        if n == 0 {
            self
        } else {
            self.advance((n - 1) as nat).step()
        }
    }

    /// The sample with index `t` of those that the voice goes on to
    /// produce: what it sounds after `t` samples have passed.
    pub open spec fn sample(self, t: nat) -> int {
        self.advance(t).level()
    }

    /// The amplitude that is left `n` samples into a release.
    pub open spec fn faded_amp(self, n: nat) -> nat {
        if self.tone.amp <= n * self.decay() {
            0
        } else {
            (self.tone.amp - n * self.decay()) as nat
        }
    }

    /// How many samples a release takes from this state: the first sample
    /// count after which the voice is done.
    pub open spec fn release_length(self) -> nat {
        if self.tone.amp == 0 {
            1
        } else {
            ((self.tone.amp + self.decay() - 1) as nat) / self.decay()
        }
    }

    /// Every decay step is positive, and none is larger than the step at
    /// one sample a second.
    pub proof fn lemma_decay_positive(self)
        requires
            self.wf(),
        ensures
            0 < self.decay() <= TAU / DECAY_DIVISOR,
    {
        let r = self.tone.rate;
        let den = (DECAY_DIVISOR as nat) * r;
        assert(den >= 10);
        assert((TAU as nat) / den <= (TAU as nat) / 10) by (nonlinear_arith)
            requires
                den >= 10,
        ;
    }

    /// A step keeps a voice well formed.
    pub proof fn lemma_step_wf(self)
        requires
            self.wf(),
        ensures
            self.step().wf(),
    {
        self.fade().tone.lemma_tick_wf();
    }

    /// Whatever the number of samples, the voice stays well formed, and the
    /// envelope touches nothing of its tone but the amplitude.
    pub proof fn lemma_advance_wf(self, n: nat)
        requires
            self.wf(),
        ensures
            self.advance(n).wf(),
            self.advance(n).tone == (Tone {
                amp: self.advance(n).tone.amp,
                ..self.tone.advance(n)
            }),
            self.advance(n).tone.freq == self.tone.freq,
            self.advance(n).tone.rate == self.tone.rate,
            self.advance(n).tone.amp <= self.tone.amp,
        decreases n,
    {
        self.tone.lemma_advance(n);
        if n > 0 {
            self.lemma_advance_wf((n - 1) as nat);
            self.advance((n - 1) as nat).lemma_step_wf();
        }
    }

    /// Samples add up: `n` samples after `m` samples is `m + n` samples.
    pub proof fn lemma_advance_sum(self, m: nat, n: nat)
        ensures
            self.advance(m).advance(n) == self.advance(m + n),
            self.advance(m).sample(n) == self.sample(m + n),
        decreases n,
    {
        if n > 0 {
            self.lemma_advance_sum(m, (n - 1) as nat);
        }
    }

    /// A held voice is its tone: it never fades and never ends.
    pub proof fn lemma_held(self, n: nat)
        requires
            self.wf(),
            !self.released,
        ensures
            self.advance(n) == (Voice { tone: self.tone.advance(n), ..self }),
            self.sample(n) == self.tone.sample(n),
        decreases n,
    {
        if n > 0 {
            self.lemma_held((n - 1) as nat);
        }
    }

    /// The release in closed form. `n` samples after this state a released
    /// voice that is not yet done has the amplitude `faded_amp(n)`, and it is
    /// done exactly if at least one sample has passed and the decay has used
    /// the amplitude up.
    pub proof fn lemma_release(self, n: nat)
        requires
            self.wf(),
            self.released,
            !self.done,
        ensures
            self.advance(n).released,
            self.advance(n).tone.amp == self.faded_amp(n),
            self.advance(n).done <==> n >= 1 && self.tone.amp <= n * self.decay(),
        decreases n,
    {
        let d = self.decay();
        self.lemma_decay_positive();
        if n == 0 {
            assert(0 * d == 0);
        } else {
            let k = (n - 1) as nat;
            self.lemma_release(k);
            self.lemma_advance_wf(k);
            assert(n * d == k * d + d) by (nonlinear_arith)
                requires
                    n == k + 1,
            ;
            assert(self.advance(k).decay() == d);
        }
    }

    /// Once released, the amplitude never rises again.
    pub proof fn lemma_release_monotonic(self, m: nat, n: nat)
        requires
            self.wf(),
            self.released,
            m <= n,
        ensures
            self.advance(n).tone.amp <= self.advance(m).tone.amp,
    {
        let d = self.decay();
        if self.done {
            self.lemma_done_stays(m);
            self.lemma_done_stays(n);
        } else {
            self.lemma_release(m);
            self.lemma_release(n);
            assert(m * d <= n * d) by (nonlinear_arith)
                requires
                    m <= n,
            ;
        }
    }

    /// A release ends after exactly `release_length()` samples, a number
    /// that the amplitude and the decay step fix: before that the voice is
    /// not done, from then on it is done. It is never done before its
    /// amplitude is exactly zero, and from the first sample of the release
    /// on it is done as soon as the amplitude is.
    pub proof fn lemma_release_ends(self, n: nat)
        requires
            self.wf(),
            self.released,
            !self.done,
        ensures
            self.advance(n).done <==> n >= self.release_length(),
            self.advance(n).done ==> self.advance(n).tone.amp == 0,
            n >= 1 ==> (self.advance(n).done <==> self.advance(n).tone.amp == 0),
            1 <= self.release_length() <= if self.tone.amp == 0 { 1 } else { self.tone.amp },
    {
        let d = self.decay();
        let a = self.tone.amp;
        self.lemma_decay_positive();
        self.lemma_release(n);
        if a > 0 {
            let len = ((a + d - 1) as nat) / d;
            assert(a <= n * d <==> n >= len) by (nonlinear_arith)
                requires
                    d > 0,
                    a > 0,
                    len == ((a + d - 1) as nat) / d,
            ;
            assert(1 <= len <= a) by (nonlinear_arith)
                requires
                    d > 0,
                    a > 0,
                    len == ((a + d - 1) as nat) / d,
            ;
        } else {
            assert(n * d >= 0) by (nonlinear_arith);
        }
    }

    /// A done voice stays done, silent, and in the registry's way until it
    /// is removed.
    pub proof fn lemma_done_stays(self, n: nat)
        requires
            self.wf(),
            self.done,
        ensures
            self.advance(n).done,
            self.advance(n).released,
            self.advance(n).tone.amp == 0,
        decreases n,
    {
        if n > 0 {
            self.lemma_done_stays((n - 1) as nat);
        }
    }

    /// A done voice adds nothing to a mix.
    pub proof fn lemma_done_is_silent(self, t: nat)
        requires
            self.wf(),
            self.done,
        ensures
            self.sample(t) == 0,
    {
        self.lemma_done_stays(t);
        self.lemma_advance_wf(t);
        let tone = self.advance(t).fade().tone;
        crate::oscillator::lemma_sine_bounded(tone.clock as int, tone.modulus() as int);
        lemma_gain_bounded(
            0,
            crate::oscillator::sine_value(tone.clock as int, tone.modulus() as int),
        );
    }

    /// No sample of a voice is louder than full scale.
    pub proof fn lemma_sample_bounded(self, t: nat)
        requires
            self.wf(),
        ensures
            -UNIT <= self.sample(t) <= UNIT,
    {
        self.lemma_advance_wf(t);
        self.advance(t).fade().tone.lemma_level_bounded();
    }
}

/// A sounding voice.
pub struct AudioEvent {
    wave: SineWave,
    released: bool,
    done: bool,
}

impl View for AudioEvent {
    type V = Voice;

    closed spec fn view(&self) -> Voice {
        Voice { tone: self.wave@, released: self.released, done: self.done }
    }
}

impl AudioEvent {
    /// A held voice of `freq` thousandths of a hertz and amplitude `amp` out
    /// of `UNIT`, at the start of its wave.
    pub fn new(freq: u32, amp: u32, config: StreamConfig) -> (event: AudioEvent)
        requires
            freq > 0,
            amp <= UNIT,
            config.sample_rate > 0,
        ensures
            event@ == (Voice {
                tone: Tone {
                    freq: freq as nat,
                    amp: amp as nat,
                    rate: config.sample_rate as nat,
                    clock: 0,
                },
                released: false,
                done: false,
            }),
            event@.wf(),
    {
        AudioEvent { wave: SineWave::new(freq, amp, config), released: false, done: false }
    }

    /// Releases the voice: from the next sample on it fades.
    pub fn release(&mut self)
        ensures
            final(self)@ == old(self)@.release(),
    {
        self.released = true;
    }

    /// Frequency in thousandths of a hertz.
    pub fn freq(&self) -> (f: u32)
        ensures
            f == self@.tone.freq,
    {
        self.wave.freq()
    }

    /// Amplitude out of `UNIT`.
    pub fn amp(&self) -> (a: u32)
        ensures
            a == self@.tone.amp,
    {
        self.wave.amp()
    }

    /// Whether the voice has been released.
    pub fn released(&self) -> (r: bool)
        ensures
            r == self@.released,
    {
        self.released
    }

    /// Whether the voice has faded out and waits to be removed.
    pub fn done(&self) -> (d: bool)
        ensures
            d == self@.done,
    {
        self.done
    }

    /// The amplitude that the voice loses with every sample once released.
    pub fn decay(&self) -> (d: u32)
        requires
            self@.wf(),
        ensures
            d == self@.decay(),
    {
        proof {
            self@.lemma_decay_positive();
        }
        let rate: u64 = self.wave.sample_rate() as u64;
        let d: u64 = TAU / (DECAY_DIVISOR * rate);
        if d == 0 {
            1
        } else {
            d as u32
        }
    }

    /// Fades the voice by one sample where it is released, returns the
    /// sample that it then sounds at its present phase, and moves the phase
    /// on.
    pub fn next_sample(&mut self) -> (s: Sample)
        requires
            old(self)@.wf(),
        ensures
            s == old(self)@.level(),
            final(self)@ == old(self)@.step(),
            final(self)@.wf(),
            -UNIT <= s <= UNIT,
    {
        proof {
            self@.lemma_step_wf();
        }
        if self.released {
            let d: u32 = self.decay();
            let a: u32 = self.wave.amp();
            if a <= d {
                self.wave.set_amp(0);
                self.done = true;
            } else {
                self.wave.set_amp(a - d);
            }
        }
        self.wave.next_sample()
    }
}

impl Synth for AudioEvent {
    open spec fn ready(&self) -> bool {
        self@.wf()
    }

    /// The voice's next samples, one per slot.
    fn write_to_buffer(&mut self, buffer: &mut [Sample], garbage: bool)
        ensures
            final(self)@ == old(self)@.advance(old(buffer)@.len()),
            forall|i: int|
                0 <= i < old(buffer)@.len() ==> final(buffer)@[i] == placed(
                    garbage,
                    old(buffer)@[i] as int,
                    old(self)@.sample(i as nat),
                ),
    {
        let n: usize = buffer.len();
        let mut i: usize = 0;
        while i < n
            invariant
                i <= n,
                n == buffer@.len(),
                n == old(buffer)@.len(),
                self@.wf(),
                self@ == old(self)@.advance(i as nat),
                forall|j: int|
                    0 <= j < i ==> buffer@[j] == placed(
                        garbage,
                        old(buffer)@[j] as int,
                        old(self)@.sample(j as nat),
                    ),
                forall|j: int| i <= j < n ==> buffer@[j] == old(buffer)@[j],
            decreases n - i,
        {
            let s: Sample = self.next_sample();
            place(buffer, i, s, garbage);
            i = i + 1;
        }
        proof {
            assert forall|i: int| 0 <= i < old(buffer)@.len() implies written(
                garbage,
                old(buffer)@[i] as int,
                #[trigger] final(buffer)@[i] as int,
            ) by {
                let s = old(self)@.sample(i as nat);
                old(self)@.lemma_sample_bounded(i as nat);
                assert(final(buffer)@[i] == placed(garbage, old(buffer)@[i] as int, s));
            }
        }
    }
}

} // verus!
