//! The voice registry and the mixing pass over it.
//!
//! Producers push voices and release them; the audio backend asks for one
//! buffer after another. Each mixing pass first removes one voice that has
//! faded out, then lets every voice left write its next samples: the first
//! over whatever the buffer held, the others on top.

use vstd::prelude::*;
use crate::audio_event::{AudioEvent, Voice};
use crate::config::StreamConfig;
use crate::sample::{clip, divide, share, Sample, UNIT};
use crate::signal::Tone;
use crate::synth::Synth;

verus! {

/// The sample formats that an output device may ask for.
#[derive(Clone, Copy, Debug)]
pub enum SampleFormat {
    I8,
    I16,
    I32,
    I64,
    U8,
    U16,
    U32,
    U64,
    F32,
    F64,
}

/// One range of stream formats that an output device supports.
#[derive(Clone, Copy, Debug)]
pub struct SupportedConfig {
    /// Channels per frame.
    pub channels: u16,
    /// The lowest sample rate of the range.
    pub min_sample_rate: u32,
    /// The highest sample rate of the range.
    pub max_sample_rate: u32,
    /// The format of a sample.
    pub sample_format: SampleFormat,
}

/// What the host has to say of its default output device.
pub enum DeviceReport {
    /// There is no output device.
    Missing,
    /// There is a device, but asking it for its stream formats failed.
    QueryFailed,
    /// The ranges of stream formats that the device supports, in the
    /// device's order.
    Supports(Vec<SupportedConfig>),
}

/// Why no server could be started.
#[derive(Clone, Copy, Debug)]
pub enum AudioError {
    /// There is no output device.
    DeviceUnavailable,
    /// The device offers no stream of floating-point samples, or would not
    /// say what it offers.
    UnsupportedSampleFormat,
    /// No stream can be built on the format that was found, or the stream
    /// that was built does not start.
    StreamBuildFailure,
}

/// Names a voice for as long as it is in the registry.
#[derive(Clone, Copy, Debug)]
pub struct VoiceHandle {
    pub id: u64,
}

/// Picks the voice that a release is meant for.
#[derive(Clone, Copy, Debug)]
pub enum Selector {
    /// A voice of this frequency, in thousandths of a hertz.
    Frequency(u32),
    /// The voice that was pushed under this handle.
    Handle(VoiceHandle),
}

/// The number of voices whose sum fits a sample even when all of them peak
/// at full scale together.
pub const HEADROOM: u64 = 8_589_934_591;

/// The least index from `from` up to `len` at which `p` holds, or `len`
/// where it holds at none.
pub open spec fn first_index(p: spec_fn(int) -> bool, from: int, len: int) -> int
    decreases len - from,
{
    if from >= len {
        len
    } else if p(from) {
        from
    } else {
        first_index(p, from + 1, len)
    }
}

/// The index of the first done voice, or the number of voices where none is done.
pub open spec fn first_done(voices: Seq<Voice>) -> int {
    first_index(|i: int| voices[i].done, 0, voices.len() as int)
}

/// Whether the voice at index `i` is the kind of voice that `selector`
/// releases: one not yet released, of the frequency or under the handle that
/// the selector names.
pub open spec fn selects(
    voices: Seq<Voice>,
    handles: Seq<u64>,
    selector: Selector,
    i: int,
) -> bool {
    &&& !voices[i].released
    &&& match selector {
        Selector::Frequency(freq) => voices[i].tone.freq == freq,
        Selector::Handle(handle) => handles[i] == handle.id,
    }
}

/// The index of the first voice that `selector` releases, or the number of
/// voices where there is none.
pub open spec fn first_selected(voices: Seq<Voice>, handles: Seq<u64>, selector: Selector) -> int {
    first_index(|i: int| selects(voices, handles, selector, i), 0, voices.len() as int)
}

/// The index of the first range of floating-point samples, or the number of
/// ranges where there is none.
pub open spec fn first_float(supported: Seq<SupportedConfig>) -> int {
    first_index(|i: int| supported[i].sample_format is F32, 0, supported.len() as int)
}

/// `s` without the item at index `i`: the last item takes its place, and
/// the others stay where they are. Without such an index `s` is unchanged.
pub open spec fn evict<T>(s: Seq<T>, i: int) -> Seq<T> {
    if 0 <= i < s.len() {
        s.update(i, s.last()).drop_last()
    } else {
        s
    }
}

/// Every voice of `voices`, `n` samples later.
pub open spec fn advance_all(voices: Seq<Voice>, n: nat) -> Seq<Voice> {
    Seq::new(voices.len(), |i: int| voices[i].advance(n))
}

/// What a mixing pass leaves in slot `t` after the first `count` voices
/// have written to it: each voice's sample is added to what the voices
/// before it left, and the sum is clipped to the sample range.
pub open spec fn mix_of(voices: Seq<Voice>, count: nat, t: nat) -> int
    decreases count,
{
    if count == 0 {
        0
    } else {
        clip(mix_of(voices, (count - 1) as nat, t) + voices[count - 1].sample(t))
    }
}

/// The mix of all of `voices` at slot `t`; silence where there is no voice.
pub open spec fn mix(voices: Seq<Voice>, t: nat) -> int {
    mix_of(voices, voices.len(), t)
}

/// The mix of all of `voices` at slot `t`, divided by their number where
/// there are any.
pub open spec fn normalized_mix(voices: Seq<Voice>, t: nat) -> int {
    if voices.len() == 0 {
        0
    } else {
        share(mix(voices, t), voices.len() as int)
    }
}

/// The plain sum of the samples with index `t` of the first `count` voices.
pub open spec fn sum_of(voices: Seq<Voice>, count: nat, t: nat) -> int
    decreases count,
{
    if count == 0 {
        0
    } else {
        sum_of(voices, (count - 1) as nat, t) + voices[count - 1].sample(t)
    }
}

/// How many of the first `count` voices are done.
pub open spec fn count_done(voices: Seq<Voice>, count: nat) -> nat
    decreases count,
{
    if count == 0 {
        0
    } else {
        count_done(voices, (count - 1) as nat) + if voices[count - 1].done {
            1nat
        } else {
            0nat
        }
    }
}

/// What `first_index` finds: nothing before it satisfies `p`, and what it
/// names does.
pub proof fn lemma_first_index(p: spec_fn(int) -> bool, from: int, len: int)
    requires
        from <= len,
    ensures
        from <= first_index(p, from, len) <= len,
        forall|j: int| from <= j < first_index(p, from, len) ==> !#[trigger] p(j),
        first_index(p, from, len) < len ==> p(first_index(p, from, len)),
    decreases len - from,
{
    if from < len && !p(from) {
        lemma_first_index(p, from + 1, len);
    }
}

/// `first_index` finds `i` whenever nothing before `i` satisfies `p` and `i`
/// does, or `i` is the end.
pub proof fn lemma_first_index_is(p: spec_fn(int) -> bool, from: int, len: int, i: int)
    requires
        from <= i <= len,
        forall|j: int| from <= j < i ==> !#[trigger] p(j),
        i < len ==> p(i),
    ensures
        first_index(p, from, len) == i,
    decreases len - from,
{
    if from < i {
        lemma_first_index_is(p, from + 1, len, i);
    }
}

/// The registry that one mixing pass over `n` slots makes of `voices`.
pub open spec fn after_pass(voices: Seq<Voice>, n: nat) -> Seq<Voice> {
    advance_all(evict(voices, first_done(voices)), n)
}

/// The registry that mixing passes over buffers of the lengths `lens`, one
/// after the other, make of `voices`.
pub open spec fn after_passes(voices: Seq<Voice>, lens: Seq<nat>) -> Seq<Voice>
    decreases lens.len(),
{
    if lens.len() == 0 {
        voices
    } else {
        after_pass(after_passes(voices, lens.drop_last()), lens.last())
    }
}

/// The sum of `lens`: how many samples passes of these lengths play.
pub open spec fn total(lens: Seq<nat>) -> nat
    decreases lens.len(),
{
    if lens.len() == 0 {
        0
    } else {
        total(lens.drop_last()) + lens.last()
    }
}

/// Silence: without a voice the mix is zero in every slot.
pub proof fn lemma_silence(t: nat)
    ensures
        mix(Seq::<Voice>::empty(), t) == 0,
{
}

/// The first `count` voices together are no louder than `count` times full
/// scale, and within the headroom their mix is the plain sum of their samples.
pub proof fn lemma_mix_of_is_sum(voices: Seq<Voice>, count: nat, t: nat)
    requires
        count <= voices.len(),
        count <= HEADROOM,
        forall|i: int| 0 <= i < voices.len() ==> (#[trigger] voices[i]).wf(),
    ensures
        mix_of(voices, count, t) == sum_of(voices, count, t),
        -count * UNIT <= sum_of(voices, count, t) <= count * UNIT,
    decreases count,
{
    if count > 0 {
        let k = (count - 1) as nat;
        lemma_mix_of_is_sum(voices, k, t);
        voices[k as int].lemma_sample_bounded(t);
        assert(count * UNIT == k * UNIT + UNIT) by (nonlinear_arith)
            requires
                count == k + 1,
        ;
        assert(count * UNIT <= HEADROOM * UNIT) by (nonlinear_arith)
            requires
                count <= HEADROOM,
        ;
    }
}

/// Additivity: as long as the voices are no more than the headroom allows,
/// every slot of a mix holds the sum of the samples that each voice alone
/// would have written to it.
pub proof fn lemma_mix_is_sum(voices: Seq<Voice>, t: nat)
    requires
        voices.len() <= HEADROOM,
        forall|i: int| 0 <= i < voices.len() ==> (#[trigger] voices[i]).wf(),
    ensures
        mix(voices, t) == sum_of(voices, voices.len(), t),
{
    lemma_mix_of_is_sum(voices, voices.len(), t);
}

/// What a pass makes of a registry of one voice that is not done: the
/// voice stays and moves on.
proof fn lemma_pass_of_one(v: Voice, n: nat)
    requires
        !v.done,
    ensures
        evict(seq![v], first_done(seq![v])) == seq![v],
        after_pass(seq![v], n) == seq![v.advance(n)],
{
    let one = seq![v];
    lemma_first_index_is(|i: int| one[i].done, 0, 1, 1);
    assert(after_pass(one, n) =~= seq![v.advance(n)]);
}

/// What a pass makes of a registry of two voices of which the second is
/// not done: the first leaves if it is done, and who stays moves on.
proof fn lemma_pass_of_two(a: Voice, b: Voice, n: nat)
    requires
        !b.done,
    ensures
        evict(seq![a, b], first_done(seq![a, b])) == if a.done {
            seq![b]
        } else {
            seq![a, b]
        },
        after_pass(seq![a, b], n) == if a.done {
            seq![b.advance(n)]
        } else {
            seq![a.advance(n), b.advance(n)]
        },
{
    let two = seq![a, b];
    if a.done {
        lemma_first_index_is(|i: int| two[i].done, 0, 2, 0);
        assert(evict(two, 0) =~= seq![b]);
        assert(after_pass(two, n) =~= seq![b.advance(n)]);
    } else {
        lemma_first_index_is(|i: int| two[i].done, 0, 2, 2);
        assert(after_pass(two, n) =~= seq![a.advance(n), b.advance(n)]);
    }
}

/// A voice that leaves takes nothing from the voice that stays. Take a
/// registry of two voices, the second of them held, and beside it a
/// registry of the second voice alone, and let both make the same passes,
/// over buffers of any lengths.
///
/// The voice alone is always where it would be after as many samples. The
/// registry of two holds both voices, each where it would be after as many
/// samples, until a pass finds the first voice done; from that pass on it
/// is the registry of the voice alone. So the next mix is the sum of both
/// voices' samples before the removal, and from the removal on it is the
/// mix of the voice alone, slot by slot.
pub proof fn lemma_survivor_unaffected(leaving: Voice, staying: Voice, lens: Seq<nat>, t: nat)
    requires
        leaving.wf(),
        staying.wf(),
        !staying.released,
    ensures
        after_passes(seq![staying], lens) == seq![staying.advance(total(lens))],
        staying.advance(total(lens)).tone.amp == staying.tone.amp,
        after_passes(seq![leaving, staying], lens) == seq![
            leaving.advance(total(lens)),
            staying.advance(total(lens)),
        ] || after_passes(seq![leaving, staying], lens) == after_passes(seq![staying], lens),
        mix(
            evict(
                after_passes(seq![staying], lens),
                first_done(after_passes(seq![staying], lens)),
            ),
            t,
        ) == staying.sample(total(lens) + t),
        mix(
            evict(
                after_passes(seq![leaving, staying], lens),
                first_done(after_passes(seq![leaving, staying], lens)),
            ),
            t,
        ) == if evict(
            after_passes(seq![leaving, staying], lens),
            first_done(after_passes(seq![leaving, staying], lens)),
        ).len() == 2 {
            leaving.sample(total(lens) + t) + staying.sample(total(lens) + t)
        } else {
            staying.sample(total(lens) + t)
        },
    decreases lens.len(),
{
    let sum = total(lens);
    let a = leaving.advance(sum);
    let b = staying.advance(sum);
    staying.lemma_held(sum);
    leaving.lemma_advance_wf(sum);
    staying.lemma_advance_wf(sum);
    staying.tone.lemma_advance(sum);
    if lens.len() > 0 {
        let before = lens.drop_last();
        let n = lens.last();
        let a0 = leaving.advance(total(before));
        let b0 = staying.advance(total(before));
        lemma_survivor_unaffected(leaving, staying, before, t);
        staying.lemma_held(total(before));
        leaving.lemma_advance_sum(total(before), n);
        staying.lemma_advance_sum(total(before), n);
        lemma_pass_of_one(b0, n);
        lemma_pass_of_two(a0, b0, n);
    }
    lemma_pass_of_one(b, 0);
    lemma_pass_of_two(a, b, 0);
    leaving.lemma_advance_sum(sum, t);
    staying.lemma_advance_sum(sum, t);
    a.lemma_sample_bounded(t);
    b.lemma_sample_bounded(t);
    reveal_with_fuel(mix_of, 3);
}

/// Two sequences that agree on which of their first `count` voices are done
/// have as many done voices among them.
pub proof fn lemma_count_done_agrees(a: Seq<Voice>, b: Seq<Voice>, count: nat)
    requires
        count <= a.len(),
        count <= b.len(),
        forall|j: int| 0 <= j < count ==> (#[trigger] a[j]).done == (#[trigger] b[j]).done,
    ensures
        count_done(a, count) == count_done(b, count),
    decreases count,
{
    if count > 0 {
        lemma_count_done_agrees(a, b, (count - 1) as nat);
        assert(a[count - 1].done == b[count - 1].done);
    }
}

/// Where none of the first `count` voices is done, the count of done voices is zero.
pub proof fn lemma_count_done_none(voices: Seq<Voice>, count: nat)
    requires
        count <= voices.len(),
        forall|j: int| 0 <= j < count ==> !(#[trigger] voices[j]).done,
    ensures
        count_done(voices, count) == 0,
    decreases count,
{
    if count > 0 {
        lemma_count_done_none(voices, (count - 1) as nat);
        assert(!voices[count - 1].done);
    }
}

/// Putting `v` in the place of the voice at index `i` changes the count of
/// done voices by what the two differ in.
pub proof fn lemma_count_done_update(voices: Seq<Voice>, count: nat, i: int, v: Voice)
    requires
        0 <= i < count <= voices.len(),
    ensures
        count_done(voices.update(i, v), count) + (if voices[i].done {
            1nat
        } else {
            0nat
        }) == count_done(voices, count) + (if v.done {
            1nat
        } else {
            0nat
        }),
    decreases count,
{
    let k = (count - 1) as nat;
    if i == k {
        lemma_count_done_agrees(voices.update(i, v), voices, k);
    } else {
        lemma_count_done_update(voices, k, i, v);
    }
}

/// What one removal does to the registry. Where a voice is done, exactly
/// one voice leaves and one done voice fewer is left, however many were
/// done; where none is done, nothing changes.
pub proof fn lemma_one_removal(voices: Seq<Voice>)
    ensures
        count_done(voices, voices.len()) == 0 ==> evict(voices, first_done(voices)) == voices,
        count_done(voices, voices.len()) > 0 ==> {
            &&& evict(voices, first_done(voices)).len() == voices.len() - 1
            &&& count_done(
                evict(voices, first_done(voices)),
                (voices.len() - 1) as nat,
            ) == count_done(voices, voices.len()) - 1
        },
{
    let len = voices.len();
    let i = first_done(voices);
    let is_done = |j: int| voices[j].done;
    lemma_first_index(is_done, 0, len as int);
    if i == len {
        assert forall|j: int| 0 <= j < len implies !(#[trigger] voices[j]).done by {
            assert(!is_done(j));
        }
        lemma_count_done_none(voices, len);
    } else {
        let moved = voices.update(i, voices.last());
        let left = (len - 1) as nat;
        lemma_count_done_agrees(evict(voices, i), moved, left);
        if i == len - 1 {
            assert(moved =~= voices);
        } else {
            lemma_count_done_update(voices, left, i, voices.last());
        }
    }
}

/// Single removal: a mixing pass over `n` slots during which no voice comes
/// to the end of its release leaves one done voice fewer than it found,
/// however many were done.
pub proof fn lemma_single_removal(voices: Seq<Voice>, n: nat)
    requires
        forall|i: int| 0 <= i < voices.len() ==> (#[trigger] voices[i]).wf(),
        forall|i: int|
            0 <= i < voices.len() && !(#[trigger] voices[i]).done ==> !voices[i].advance(n).done,
        count_done(voices, voices.len()) > 0,
    ensures
        advance_all(evict(voices, first_done(voices)), n).len() == voices.len() - 1,
        count_done(
            advance_all(evict(voices, first_done(voices)), n),
            (voices.len() - 1) as nat,
        ) == count_done(voices, voices.len()) - 1,
{
    let kept = evict(voices, first_done(voices));
    lemma_one_removal(voices);
    assert forall|j: int| 0 <= j < kept.len() implies (#[trigger] advance_all(kept, n)[j]).done
        == (#[trigger] kept[j]).done by {
        if kept[j].done {
            kept[j].lemma_done_stays(n);
        }
    }
    lemma_count_done_agrees(advance_all(kept, n), kept, kept.len());
}

/// The registry of sounding voices, with the stream format they are made for.
pub struct AudioServer {
    events: Vec<AudioEvent>,
    handles: Vec<u64>,
    next_handle: u64,
    config: StreamConfig,
}

impl AudioServer {
    /// The voices in the registry, in the order in which a mixing pass visits them.
    pub closed spec fn voices(&self) -> Seq<Voice> {
        Seq::new(self.events@.len(), |i: int| self.events@[i]@)
    }

    /// The handle of each voice, by the voice's index.
    pub closed spec fn handles(&self) -> Seq<u64> {
        self.handles@
    }

    /// The handle that the next voice will be pushed under.
    pub closed spec fn next_handle(&self) -> u64 {
        self.next_handle
    }

    /// The stream format that the server was started with.
    pub closed spec fn stream_config(&self) -> StreamConfig {
        self.config
    }

    /// The registry's invariant: every voice is well formed and has a
    /// handle, and no handle below the last one names two voices.
    pub open spec fn wf(&self) -> bool {
        &&& self.stream_config().sample_rate > 0
        &&& self.handles().len() == self.voices().len()
        &&& forall|i: int| 0 <= i < self.voices().len() ==> (#[trigger] self.voices()[i]).wf()
        &&& forall|i: int|
            0 <= i < self.handles().len() ==> #[trigger] self.handles()[i] < self.next_handle()
                || self.next_handle() == u64::MAX
        &&& forall|i: int, j: int|
            0 <= i < j < self.handles().len() && #[trigger] self.handles()[i]
                == #[trigger] self.handles()[j] ==> self.handles()[i] == u64::MAX
    }

    /// Starts a server on what the host reports of its default output
    /// device.
    ///
    /// The server takes the first range of floating-point samples at its
    /// highest sample rate, and starts with an empty registry. It fails
    /// without a device; where the device would not be queried or supports
    /// no such range; and where that range's highest rate is zero, on which
    /// no stream can be built. Whether the stream itself is built and
    /// starts is known only later: `Engine::start` takes that outcome.
    pub fn new(device: DeviceReport) -> (started: Result<AudioServer, AudioError>)
        ensures
            match started {
                Ok(server) => {
                    &&& device is Supports
                    &&& first_float(device->Supports_0@) < device->Supports_0@.len()
                    &&& device->Supports_0@[first_float(device->Supports_0@)].max_sample_rate > 0
                    &&& server.stream_config().channels == device->Supports_0@[first_float(
                        device->Supports_0@,
                    )].channels
                    &&& server.stream_config().sample_rate == device->Supports_0@[first_float(
                        device->Supports_0@,
                    )].max_sample_rate
                    &&& server.voices() == Seq::<Voice>::empty()
                    &&& server.handles() == Seq::<u64>::empty()
                    &&& server.next_handle() == 0
                    &&& server.wf()
                },
                Err(AudioError::DeviceUnavailable) => device is Missing,
                Err(AudioError::UnsupportedSampleFormat) => {
                    ||| device is QueryFailed
                    ||| {
                        &&& device is Supports
                        &&& first_float(device->Supports_0@) == device->Supports_0@.len()
                    }
                },
                Err(AudioError::StreamBuildFailure) => {
                    &&& device is Supports
                    &&& first_float(device->Supports_0@) < device->Supports_0@.len()
                    &&& device->Supports_0@[first_float(device->Supports_0@)].max_sample_rate
                        == 0
                },
            },
    {
        let supported = match device {
            DeviceReport::Missing => {
                return Err(AudioError::DeviceUnavailable);
            },
            DeviceReport::QueryFailed => {
                return Err(AudioError::UnsupportedSampleFormat);
            },
            DeviceReport::Supports(supported) => supported,
        };
        let len: usize = supported.len();
        let mut i: usize = 0;
        while i < len && !is_float(&supported[i])
            invariant
                i <= len,
                len == supported@.len(),
                forall|j: int| 0 <= j < i ==> !(supported@[j].sample_format is F32),
            decreases len - i,
        {
            i = i + 1;
        }
        proof {
            lemma_first_index_is(
                |k: int| supported@[k].sample_format is F32,
                0,
                len as int,
                i as int,
            );
        }
        if i == len {
            return Err(AudioError::UnsupportedSampleFormat);
        }
        let range: SupportedConfig = supported[i];
        if range.max_sample_rate == 0 {
            return Err(AudioError::StreamBuildFailure);
        }
        let server = AudioServer {
            events: Vec::new(),
            handles: Vec::new(),
            next_handle: 0,
            config: StreamConfig { channels: range.channels, sample_rate: range.max_sample_rate },
        };
        assert(server.voices() =~= Seq::<Voice>::empty());
        Ok(server)
    }

    /// The stream format that the server was started with.
    pub fn config(&self) -> (config: StreamConfig)
        ensures
            config == self.stream_config(),
    {
        self.config
    }

    /// The number of voices in the registry.
    pub fn len(&self) -> (n: usize)
        ensures
            n == self.voices().len(),
    {
        self.events.len()
    }

    /// The voice at index `i`, if there is one.
    pub fn get(&self, i: usize) -> (event: Option<&AudioEvent>)
        ensures
            event is Some <==> i < self.voices().len(),
            event is Some ==> event->0@ == self.voices()[i as int],
    {
        if i < self.events.len() {
            Some(&self.events[i])
        } else {
            None
        }
    }

    /// The handle of the voice at index `i`, if there is one.
    pub fn handle_at(&self, i: usize) -> (handle: Option<VoiceHandle>)
        ensures
            handle is Some <==> i < self.handles().len(),
            handle is Some ==> handle->0.id == self.handles()[i as int],
    {
        if i < self.handles.len() {
            Some(VoiceHandle { id: self.handles[i] })
        } else {
            None
        }
    }

    /// Adds a held voice of `freq` thousandths of a hertz and amplitude
    /// `amp` out of `UNIT` behind the voices that are there, and returns the
    /// handle that names it.
    ///
    /// Handles count up from zero, so that no two voices in the registry
    /// share one. The last handle that a `u64` can hold is the exception: it
    /// is given to every voice from then on.
    pub fn push(&mut self, freq: u32, amp: u32) -> (handle: VoiceHandle)
        requires
            old(self).wf(),
            freq > 0,
            amp <= UNIT,
        ensures
            final(self).wf(),
            handle.id == old(self).next_handle(),
            final(self).voices() == old(self).voices().push(
                Voice {
                    tone: Tone {
                        freq: freq as nat,
                        amp: amp as nat,
                        rate: old(self).stream_config().sample_rate as nat,
                        clock: 0,
                    },
                    released: false,
                    done: false,
                },
            ),
            final(self).handles() == old(self).handles().push(handle.id),
            handle.id < u64::MAX ==> forall|i: int|
                0 <= i < old(self).handles().len() ==> #[trigger] old(self).handles()[i]
                    != handle.id,
            final(self).next_handle() == if old(self).next_handle() < u64::MAX {
                (old(self).next_handle() + 1) as u64
            } else {
                u64::MAX
            },
            final(self).stream_config() == old(self).stream_config(),
    {
        let id: u64 = self.next_handle;
        let event = AudioEvent::new(freq, amp, self.config);
        self.events.push(event);
        self.handles.push(id);
        if id < u64::MAX {
            self.next_handle = id + 1;
        }
        assert(self.voices() =~= old(self).voices().push(event@));
        VoiceHandle { id }
    }

    /// Whether the voice at index `i` is one that `selector` releases.
    fn is_selected(&self, i: usize, selector: Selector) -> (selected: bool)
        requires
            i < self.voices().len(),
            self.handles().len() == self.voices().len(),
        ensures
            selected == selects(self.voices(), self.handles(), selector, i as int),
    {
        let event = &self.events[i];
        if event.released() {
            false
        } else {
            match selector {
                Selector::Frequency(freq) => event.freq() == freq,
                Selector::Handle(handle) => self.handles[i] == handle.id,
            }
        }
    }

    /// Releases the first voice that `selector` picks among those not yet
    /// released, and says whether there was one. The other voices are left
    /// as they are.
    pub fn release(&mut self, selector: Selector) -> (found: bool)
        requires
            old(self).wf(),
        ensures
            final(self).wf(),
            found <==> first_selected(old(self).voices(), old(self).handles(), selector) < old(
                self,
            ).voices().len(),
            found ==> final(self).voices() == old(self).voices().update(
                first_selected(old(self).voices(), old(self).handles(), selector),
                old(self).voices()[first_selected(
                    old(self).voices(),
                    old(self).handles(),
                    selector,
                )].release(),
            ),
            !found ==> final(self).voices() == old(self).voices(),
            final(self).handles() == old(self).handles(),
            final(self).next_handle() == old(self).next_handle(),
            final(self).stream_config() == old(self).stream_config(),
    {
        let len: usize = self.events.len();
        let mut i: usize = 0;
        while i < len && !self.is_selected(i, selector)
            invariant
                i <= len,
                len == self.voices().len(),
                self.handles().len() == self.voices().len(),
                *self == *old(self),
                forall|j: int|
                    0 <= j < i ==> !selects(self.voices(), self.handles(), selector, j),
            decreases len - i,
        {
            i = i + 1;
        }
        proof {
            lemma_first_index_is(
                |k: int| selects(self.voices(), self.handles(), selector, k),
                0,
                len as int,
                i as int,
            );
        }
        if i < len {
            self.events[i].release();
            assert(self.voices() =~= old(self).voices().update(
                i as int,
                old(self).voices()[i as int].release(),
            ));
            true
        } else {
            false
        }
    }

    /// How many voices have faded out and wait to be removed.
    pub fn done_count(&self) -> (n: usize)
        ensures
            n == count_done(self.voices(), self.voices().len()),
    {
        let len: usize = self.events.len();
        let mut n: usize = 0;
        let mut i: usize = 0;
        while i < len
            invariant
                i <= len,
                len == self.voices().len(),
                n <= i,
                n == count_done(self.voices(), i as nat),
            decreases len - i,
        {
            if self.events[i].done() {
                n = n + 1;
            }
            i = i + 1;
        }
        n
    }

    /// One mixing pass: fills every slot of `buffer` with the mix of the
    /// voices' next samples.
    ///
    /// Where a voice is done, the first such voice leaves the registry
    /// before anything sounds: the last voice takes its place. No pass
    /// removes more than one voice. Without a voice left the buffer is
    /// silent. Otherwise every voice moves on by as many samples as the
    /// buffer has slots, and slot `t` holds the mix of their samples with
    /// index `t`, whatever the buffer held before. As long as the voices
    /// are within the headroom, the mix is the plain sum of their samples.
    pub fn fill(&mut self, buffer: &mut [Sample])
        requires
            old(self).wf(),
        ensures
            final(self).wf(),
            final(self).voices() == advance_all(
                evict(old(self).voices(), first_done(old(self).voices())),
                old(buffer)@.len(),
            ),
            final(self).handles() == evict(old(self).handles(), first_done(old(self).voices())),
            final(self).next_handle() == old(self).next_handle(),
            final(self).stream_config() == old(self).stream_config(),
            final(buffer)@.len() == old(buffer)@.len(),
            forall|t: int|
                0 <= t < old(buffer)@.len() ==> #[trigger] final(buffer)@[t] == mix(
                    evict(old(self).voices(), first_done(old(self).voices())),
                    t as nat,
                ),
            old(self).voices().len() == 0 ==> forall|t: int|
                0 <= t < old(buffer)@.len() ==> #[trigger] final(buffer)@[t] == 0,
            old(self).voices().len() <= HEADROOM ==> forall|t: int|
                0 <= t < old(buffer)@.len() ==> #[trigger] final(buffer)@[t] == sum_of(
                    evict(old(self).voices(), first_done(old(self).voices())),
                    evict(old(self).voices(), first_done(old(self).voices())).len(),
                    t as nat,
                ),
    {
        let n: usize = buffer.len();
        self.remove_finished();
        let ghost mid = *self;
        let ghost kept = self.voices();
        let count: usize = self.events.len();
        if count == 0 {
            let mut t: usize = 0;
            while t < n
                invariant
                    t <= n,
                    n == buffer@.len(),
                    forall|u: int| 0 <= u < t ==> buffer@[u] == 0,
                decreases n - t,
            {
                buffer[t] = 0;
                t = t + 1;
            }
            assert(self.voices() =~= advance_all(kept, n as nat));
            assert forall|t: int| 0 <= t < n implies #[trigger] buffer@[t] == sum_of(
                kept,
                kept.len(),
                t as nat,
            ) by {
                lemma_mix_is_sum(kept, t as nat);
            }
            return ;
        }
        let mut i: usize = 0;
        while i < count
            invariant
                i <= count,
                count == kept.len(),
                count == self.events@.len(),
                n == buffer@.len(),
                mid.wf(),
                self.handles == mid.handles,
                self.next_handle == mid.next_handle,
                self.config == mid.config,
                forall|j: int| 0 <= j < count ==> (#[trigger] kept[j]).wf(),
                forall|j: int| 0 <= j < i ==> (#[trigger] self.events@[j])@ == kept[j].advance(n as nat),
                forall|j: int| i <= j < count ==> (#[trigger] self.events@[j])@ == kept[j],
                i > 0 ==> forall|t: int|
                    0 <= t < n ==> #[trigger] buffer@[t] == mix_of(kept, i as nat, t as nat),
            decreases count - i,
        {
            let ghost before = buffer@;
            self.events[i].write_to_buffer(buffer, i == 0);
            proof {
                kept[i as int].lemma_advance_wf(n as nat);
                assert forall|t: int| 0 <= t < n implies #[trigger] buffer@[t] == mix_of(
                    kept,
                    (i + 1) as nat,
                    t as nat,
                ) by {
                    kept[i as int].lemma_sample_bounded(t as nat);
                    if i == 0 {
                        assert(mix_of(kept, 0, t as nat) == 0);
                    } else {
                        assert(before[t] == mix_of(kept, i as nat, t as nat));
                    }
                }
            }
            i = i + 1;
        }
        proof {
            assert(self.voices() =~= advance_all(kept, n as nat));
            assert forall|j: int| 0 <= j < count implies (#[trigger] self.voices()[j]).wf() by {
                kept[j].lemma_advance_wf(n as nat);
            }
            if old(self).voices().len() <= HEADROOM {
                assert forall|t: int| 0 <= t < n implies #[trigger] buffer@[t] == sum_of(
                    kept,
                    kept.len(),
                    t as nat,
                ) by {
                    lemma_mix_is_sum(kept, t as nat);
                }
            }
        }
    }

    /// A mixing pass as `fill` makes it, after which every slot is divided by
    /// the number of voices that were mixed, so that more voices do not
    /// make a louder mix.
    pub fn fill_normalized(&mut self, buffer: &mut [Sample])
        requires
            old(self).wf(),
        ensures
            final(self).wf(),
            final(self).voices() == advance_all(
                evict(old(self).voices(), first_done(old(self).voices())),
                old(buffer)@.len(),
            ),
            final(self).handles() == evict(old(self).handles(), first_done(old(self).voices())),
            final(self).next_handle() == old(self).next_handle(),
            final(self).stream_config() == old(self).stream_config(),
            final(buffer)@.len() == old(buffer)@.len(),
            forall|t: int|
                0 <= t < old(buffer)@.len() ==> #[trigger] final(buffer)@[t] == normalized_mix(
                    evict(old(self).voices(), first_done(old(self).voices())),
                    t as nat,
                ),
    {
        self.fill(buffer);
        let ghost mixed = buffer@;
        let count: usize = self.events.len();
        if count > 0 {
            let n: usize = buffer.len();
            let mut t: usize = 0;
            while t < n
                invariant
                    t <= n,
                    n == buffer@.len(),
                    n == mixed.len(),
                    count > 0,
                    forall|u: int|
                        0 <= u < t ==> #[trigger] buffer@[u] == share(
                            mixed[u] as int,
                            count as int,
                        ),
                    forall|u: int| t <= u < n ==> buffer@[u] == mixed[u],
                decreases n - t,
            {
                let shared: Sample = divide(buffer[t], count);
                buffer[t] = shared;
                t = t + 1;
            }
        }
    }

    /// Removes the first done voice, if any is done: the last voice takes
    /// its place.
    fn remove_finished(&mut self)
        requires
            old(self).wf(),
        ensures
            final(self).wf(),
            final(self).voices() == evict(old(self).voices(), first_done(old(self).voices())),
            final(self).handles() == evict(old(self).handles(), first_done(old(self).voices())),
            final(self).next_handle() == old(self).next_handle(),
            final(self).stream_config() == old(self).stream_config(),
    {
        let len: usize = self.events.len();
        let mut i: usize = 0;
        while i < len && !self.events[i].done()
            invariant
                i <= len,
                len == self.voices().len(),
                *self == *old(self),
                forall|j: int| 0 <= j < i ==> !self.voices()[j].done,
            decreases len - i,
        {
            i = i + 1;
        }
        proof {
            lemma_first_index_is(|k: int| self.voices()[k].done, 0, len as int, i as int);
        }
        if i < len {
            self.events.swap_remove(i);
            self.handles.swap_remove(i);
            assert(self.voices() =~= evict(old(self).voices(), i as int));
        }
    }
}

/// Whether `range` is one of floating-point samples of single width.
fn is_float(range: &SupportedConfig) -> (float: bool)
    ensures
        float == (range.sample_format is F32),
{
    match range.sample_format {
        SampleFormat::F32 => true,
        _ => false,
    }
}

} // verus!
