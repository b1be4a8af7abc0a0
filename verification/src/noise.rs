//! White noise: every sample is drawn afresh from a seeded generator, and
//! the source keeps nothing else.

use vstd::prelude::*;
use crate::sample::{Sample, UNIT};
use crate::synth::{place, placed, written, Synth};

verus! {

/// The sample that a raw draw stands for. The draws spread evenly from
/// minus full scale up to one step below plus full scale.
pub open spec fn noise_level(draw: u32) -> int {
    draw / 2 - UNIT
}

/// Whether a slot that held `before` may hold `after` once noise has been
/// written to it: some draw accounts for it.
pub open spec fn noise_written(garbage: bool, before: int, after: int) -> bool {
    exists|draw: u32| after == #[trigger] placed(garbage, before, noise_level(draw))
}

/// The generator of `rand`, `rand::rngs::StdRng`. Nothing of what is inside
/// it is known here.
#[verifier::external_type_specification]
#[verifier::external_body]
pub struct SeededGenerator(rand::rngs::StdRng);

/// A source of white noise.
pub struct Noise {
    generator: rand::rngs::StdRng,
}

/// A generator made by `SeedableRng::seed_from_u64` of `rand`, which spreads
/// the seed over the generator's key by plain arithmetic. The call asks the
/// operating system for nothing and fails on no seed. Nothing is claimed of
/// the generator.
#[verifier::external_body]
fn seeded(seed: u64) -> (generator: rand::rngs::StdRng) {
    rand::SeedableRng::seed_from_u64(seed)
}

/// One draw by `RngCore::next_u32` of `rand`: the next word of the
/// generator's stream, which moves the generator on. The stream has no end
/// and the call fails in no state. Nothing is claimed of the word.
#[verifier::external_body]
fn next_word(generator: &mut rand::rngs::StdRng) -> (word: u32) {
    rand::RngCore::next_u32(generator)
}

impl Noise {
    /// A source of white noise that draws from a generator started on
    /// `seed`. Where the noise is to differ from run to run, the seed has
    /// to: the caller takes it from the system once, at start-up.
    pub fn new(seed: u64) -> (noise: Noise)
        ensures
            noise.ready(),
    {
        Noise { generator: seeded(seed) }
    }

    /// Turns a raw draw into a sample.
    pub fn level(draw: u32) -> (s: Sample)
        ensures
            s == noise_level(draw),
            -UNIT <= s < UNIT,
    {
        (draw / 2) as i64 - UNIT
    }
}

impl Synth for Noise {
    open spec fn ready(&self) -> bool {
        true
    }

    /// One fresh draw per slot, first slot to last. Whatever is drawn, a
    /// buffer that is overwritten holds nothing beyond full scale.
    fn write_to_buffer(&mut self, buffer: &mut [Sample], garbage: bool)
        ensures
            forall|i: int|
                0 <= i < old(buffer)@.len() ==> noise_written(
                    garbage,
                    old(buffer)@[i] as int,
                    #[trigger] final(buffer)@[i] as int,
                ),
            garbage ==> forall|i: int|
                0 <= i < old(buffer)@.len() ==> -UNIT <= #[trigger] final(buffer)@[i] < UNIT,
    {
        let n: usize = buffer.len();
        let mut i: usize = 0;
        while i < n
            invariant
                i <= n,
                n == buffer@.len(),
                n == old(buffer)@.len(),
                forall|j: int|
                    0 <= j < i ==> noise_written(
                        garbage,
                        old(buffer)@[j] as int,
                        #[trigger] buffer@[j] as int,
                    ),
                forall|j: int|
                    0 <= j < i ==> written(
                        garbage,
                        old(buffer)@[j] as int,
                        #[trigger] buffer@[j] as int,
                    ),
                garbage ==> forall|j: int| 0 <= j < i ==> -UNIT <= #[trigger] buffer@[j] < UNIT,
                forall|j: int| i <= j < n ==> buffer@[j] == old(buffer)@[j],
            decreases n - i,
        {
            let draw: u32 = next_word(&mut self.generator);
            let s: Sample = Noise::level(draw);
            place(buffer, i, s, garbage);
            proof {
                let before = old(buffer)@[i as int] as int;
                assert(buffer@[i as int] == placed(garbage, before, noise_level(draw)));
                assert(buffer@[i as int] == placed(garbage, before, s as int));
            }
            i = i + 1;
        }
    }
}

} // verus!
