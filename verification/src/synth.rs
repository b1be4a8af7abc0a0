//! What every signal source can do: write its next samples into a buffer.

use vstd::prelude::*;
use crate::sample::{clip, Sample, UNIT};

verus! {

/// What a buffer slot holds once a source has written the sample `s` to it:
/// `s` alone where the source overwrites, else the clipped sum of `s` and
/// what the slot held before.
pub open spec fn placed(garbage: bool, before: int, s: int) -> int {
    if garbage {
        s
    } else {
        clip(before + s)
    }
}

/// Whether a slot that held `before` may hold `after` once a source has
/// written to it: some sample no louder than full scale accounts for it.
pub open spec fn written(garbage: bool, before: int, after: int) -> bool {
    exists|s: int| -UNIT <= s <= UNIT && after == #[trigger] placed(garbage, before, s)
}

/// Adding to a buffer is overwriting it and adding what it held before, as
/// long as the sum fits a sample.
pub proof fn lemma_accumulate(before: int, s: int)
    requires
        i64::MIN <= before + s <= i64::MAX,
    ensures
        placed(false, before, s) == before + placed(true, before, s),
{
}

/// A signal source.
pub trait Synth {
    /// The source's own invariant.
    spec fn ready(&self) -> bool;

    /// Writes one sample to every slot of `buffer`, first to last, and moves
    /// the source on by as many samples. With `garbage` set the buffer is
    /// taken to hold nothing of worth and is overwritten; otherwise the
    /// samples are added to what it holds. No sample is louder than full
    /// scale.
    fn write_to_buffer(&mut self, buffer: &mut [Sample], garbage: bool)
        requires
            old(self).ready(),
        ensures
            final(self).ready(),
            final(buffer)@.len() == old(buffer)@.len(),
            forall|i: int|
                0 <= i < old(buffer)@.len() ==> written(
                    garbage,
                    old(buffer)@[i] as int,
                    #[trigger] final(buffer)@[i] as int,
                ),
    ;
}

/// Writes the sample `s` to slot `i` of `buffer`, over what is there or added to it.
pub fn place(buffer: &mut [Sample], i: usize, s: Sample, garbage: bool)
    requires
        i < old(buffer)@.len(),
    ensures
        final(buffer)@ == old(buffer)@.update(
            i as int,
            placed(garbage, old(buffer)@[i as int] as int, s as int) as i64,
        ),
        final(buffer)@[i as int] == placed(garbage, old(buffer)@[i as int] as int, s as int),
{
    if garbage {
        buffer[i] = s;
    } else {
        let sum: Sample = crate::sample::mix_add(buffer[i], s);
        buffer[i] = sum;
    }
}

} // verus!
