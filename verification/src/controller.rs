//! What a keyboard says: decoding its messages, and turning keys and
//! velocities into frequencies and amplitudes.

use vstd::prelude::*;
use crate::sample::UNIT;

verus! {

/// The status byte of a key press.
pub const KEY_PRESSED: u8 = 144;

/// The status byte of a key release.
pub const KEY_RELEASED: u8 = 128;

/// The highest key.
pub const TOP_KEY: u8 = 127;

/// The velocity at which a key would sound at full scale: a key at the
/// highest velocity, 127, sounds at a fifth of it.
pub const VELOCITY_RANGE: u32 = 635;

/// What a message asks for.
#[derive(Clone, Copy, Debug)]
pub enum MidiEvent {
    /// The modulation wheel has moved to `value`.
    Modulation { value: u8 },
    /// The key `note` went down with `velocity`.
    KeyPressed { note: u8, velocity: u8 },
    /// The key `note` came up with `velocity`.
    KeyReleased { note: u8, velocity: u8 },
    /// Anything else.
    Other,
}

/// The reading of a message. Only messages of three bytes are read. One
/// whose second byte is zero is the modulation wheel, whatever its first
/// byte; then the first byte tells a key press from a key release.
pub open spec fn decoded(message: Seq<u8>) -> MidiEvent {
    if message.len() != 3 {
        MidiEvent::Other
    } else if message[1] == 0 {
        MidiEvent::Modulation { value: message[2] }
    } else if message[0] == KEY_PRESSED {
        MidiEvent::KeyPressed { note: message[1], velocity: message[2] }
    } else if message[0] == KEY_RELEASED {
        MidiEvent::KeyReleased { note: message[1], velocity: message[2] }
    } else {
        MidiEvent::Other
    }
}

/// The frequencies of the twelve keys of the highest octave, from key 120
/// up, in thousandths of a hertz: equal temperament around the key 69 at
/// 440 Hz.
pub open spec fn top_octave(step: int) -> int {
    if step == 0 {
        8_372_018
    } else if step == 1 {
        8_869_844
    } else if step == 2 {
        9_397_273
    } else if step == 3 {
        9_956_063
    } else if step == 4 {
        10_548_082
    } else if step == 5 {
        11_175_303
    } else if step == 6 {
        11_839_822
    } else if step == 7 {
        12_543_854
    } else if step == 8 {
        13_289_750
    } else if step == 9 {
        14_080_000
    } else if step == 10 {
        14_917_240
    } else {
        15_804_266
    }
}

/// `freq` taken down by `octaves` octaves: each octave halves it, rounding
/// a half up.
pub open spec fn octaves_down(freq: int, octaves: nat) -> int
    decreases octaves,
{
    if octaves == 0 {
        freq
    } else {
        octaves_down((freq + 1) / 2, (octaves - 1) as nat)
    }
}

/// The frequency of a key in thousandths of a hertz.
pub open spec fn key_frequency(note: u8) -> int {
    octaves_down(top_octave(note as int % 12), (10 - note as int / 12) as nat)
}

/// The amplitude at which a key pressed with `velocity` sounds.
pub open spec fn key_amplitude(velocity: u8) -> int {
    velocity as int * UNIT / (VELOCITY_RANGE as int)
}

/// Reads a message.
pub fn decode(message: &[u8]) -> (event: MidiEvent)
    ensures
        event == decoded(message@),
{
    if message.len() != 3 {
        MidiEvent::Other
    } else if message[1] == 0 {
        MidiEvent::Modulation { value: message[2] }
    } else if message[0] == KEY_PRESSED {
        MidiEvent::KeyPressed { note: message[1], velocity: message[2] }
    } else if message[0] == KEY_RELEASED {
        MidiEvent::KeyReleased { note: message[1], velocity: message[2] }
    } else {
        MidiEvent::Other
    }
}

/// The frequency of the highest octave's key number `step`.
fn top_octave_frequency(step: u8) -> (freq: u32)
    requires
        step < 12,
    ensures
        freq == top_octave(step as int),
        0 < freq <= 15_804_266,
{
    match step {
        0 => 8_372_018,
        1 => 8_869_844,
        2 => 9_397_273,
        3 => 9_956_063,
        4 => 10_548_082,
        5 => 11_175_303,
        6 => 11_839_822,
        7 => 12_543_854,
        8 => 13_289_750,
        9 => 14_080_000,
        10 => 14_917_240,
        _ => 15_804_266,
    }
}

/// The frequency of the key `note` in thousandths of a hertz; `None` above
/// the highest key.
pub fn note_frequency(note: u8) -> (freq: Option<u32>)
    ensures
        freq is Some <==> note <= TOP_KEY,
        freq is Some ==> freq->0 == key_frequency(note) && freq->0 > 0,
{
    if note > TOP_KEY {
        return None;
    }
    let top: u32 = top_octave_frequency(note % 12);
    let ghost start = top as int;
    let ghost total = (10 - note as int / 12) as nat;
    let mut octaves: u8 = 10 - note / 12;
    let mut freq: u32 = top;
    while octaves > 0
        invariant
            0 < freq <= 15_804_266,
            octaves_down(freq as int, octaves as nat) == octaves_down(start, total),
        decreases octaves,
    {
        freq = (freq + 1) / 2;
        octaves = octaves - 1;
    }
    Some(freq)
}

/// The amplitude at which a key pressed with `velocity` sounds.
pub fn velocity_amp(velocity: u8) -> (amp: u32)
    ensures
        amp == key_amplitude(velocity),
        amp <= UNIT,
{
    let wide: u64 = velocity as u64 * (UNIT as u64);
    (wide / (VELOCITY_RANGE as u64)) as u32
}

} // verus!
