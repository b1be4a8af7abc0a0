use voice_mixer::audio_event::{AudioEvent, DECAY_DIVISOR, TAU};
use voice_mixer::config::StreamConfig;
use voice_mixer::sample::{Sample, UNIT};
use voice_mixer::synth::Synth;

fn config(sample_rate: u32) -> StreamConfig {
    StreamConfig { channels: 1, sample_rate }
}

#[test]
fn new_voice_is_held() {
    let voice = AudioEvent::new(440_000, 1_000, config(48_000));
    assert_eq!(voice.freq(), 440_000);
    assert_eq!(voice.amp(), 1_000);
    assert!(!voice.released());
    assert!(!voice.done());
}

#[test]
fn decay_step_values() {
    assert_eq!(TAU, 6_746_518_852);
    assert_eq!(DECAY_DIVISOR, 10);
    assert_eq!(AudioEvent::new(1, 0, config(48_000)).decay(), 14_055);
    assert_eq!(AudioEvent::new(1, 0, config(44_100)).decay(), 15_298);
    assert_eq!(AudioEvent::new(1, 0, config(1)).decay(), 674_651_885);
    assert_eq!(AudioEvent::new(1, 0, config(674_651_885)).decay(), 1);
    assert_eq!(AudioEvent::new(1, 0, config(674_651_886)).decay(), 1);
    assert_eq!(AudioEvent::new(1, 0, config(u32::MAX)).decay(), 1);
}

#[test]
fn held_voice_never_fades() {
    let mut voice = AudioEvent::new(440_000, UNIT as u32, config(48_000));
    let mut buffer = vec![0 as Sample; 10_000];
    for _ in 0..20 {
        voice.write_to_buffer(&mut buffer, true);
        assert_eq!(voice.amp(), UNIT as u32);
        assert!(!voice.done());
    }
}

#[test]
fn release_is_monotonic_and_ends_at_zero() {
    let mut voice = AudioEvent::new(440_000, UNIT as u32, config(48_000));
    voice.release();
    assert!(voice.released());
    assert!(!voice.done());
    let mut last = voice.amp();
    let mut samples: u64 = 0;
    while !voice.done() {
        voice.next_sample();
        samples += 1;
        assert!(voice.amp() <= last);
        // done comes with the amplitude's arrival at zero, never before
        assert_eq!(voice.done(), voice.amp() == 0);
        last = voice.amp();
        assert!(samples <= 1_000_000);
    }
    assert_eq!(voice.amp(), 0);
    // ceil(2^30 / 14055)
    assert_eq!(samples, 76_396);
    for _ in 0..100 {
        assert_eq!(voice.next_sample(), 0);
        assert_eq!(voice.amp(), 0);
        assert!(voice.done());
        assert!(voice.released());
    }
}

#[test]
fn release_follows_the_closed_form() {
    let mut voice = AudioEvent::new(440_000, 100_000, config(48_000));
    voice.release();
    let expected: [u32; 9] = [85_945, 71_890, 57_835, 43_780, 29_725, 15_670, 1_615, 0, 0];
    for (n, want) in expected.iter().enumerate() {
        voice.next_sample();
        assert_eq!(voice.amp(), *want);
        assert_eq!(voice.done(), n >= 7);
    }
}

#[test]
fn release_ends_exactly_when_the_amplitude_is_used_up() {
    // the amplitude is a whole number of decay steps
    let mut voice = AudioEvent::new(440_000, 3 * 14_055, config(48_000));
    voice.release();
    voice.next_sample();
    voice.next_sample();
    assert_eq!(voice.amp(), 14_055);
    assert!(!voice.done());
    voice.next_sample();
    assert_eq!(voice.amp(), 0);
    assert!(voice.done());
}

#[test]
fn silent_voice_is_done_one_sample_after_its_release() {
    let mut voice = AudioEvent::new(440_000, 0, config(48_000));
    for _ in 0..10 {
        assert_eq!(voice.next_sample(), 0);
        assert!(!voice.done());
    }
    voice.release();
    assert!(!voice.done());
    voice.next_sample();
    assert!(voice.done());
}

#[test]
fn released_voice_fades_within_the_buffer() {
    let mut voice = AudioEvent::new(440_000, UNIT as u32, config(48_000));
    let mut held = AudioEvent::new(440_000, UNIT as u32, config(48_000));
    voice.release();
    let mut faded = vec![0 as Sample; 2_000];
    let mut full = vec![0 as Sample; 2_000];
    voice.write_to_buffer(&mut faded, true);
    held.write_to_buffer(&mut full, true);
    assert_eq!(voice.amp(), UNIT as u32 - 2_000 * 14_055);
    for k in 0..2_000 {
        assert!(faded[k].abs() <= full[k].abs());
        assert_eq!(faded[k] >= 0, full[k] >= 0 || faded[k] == 0);
    }
}

#[test]
fn done_voice_writes_silence() {
    let mut voice = AudioEvent::new(440_000, 10, config(48_000));
    voice.release();
    voice.next_sample();
    assert!(voice.done());
    let mut buffer = vec![77 as Sample; 50];
    voice.write_to_buffer(&mut buffer, false);
    assert_eq!(buffer, vec![77 as Sample; 50]);
    voice.write_to_buffer(&mut buffer, true);
    assert_eq!(buffer, vec![0 as Sample; 50]);
}

#[test]
fn released_sample_takes_the_amplitude_after_its_fade() {
    // four samples a turn: the second sample is the wave's peak
    let mut voice = AudioEvent::new(12_000_000, UNIT as u32, config(48_000));
    voice.release();
    assert_eq!(voice.next_sample(), 0);
    assert_eq!(voice.amp(), UNIT as u32 - 14_055);
    let peak: i128 = 1_073_741_764;
    let amp: i128 = UNIT as i128 - 2 * 14_055;
    assert_eq!(voice.next_sample() as i128, amp * peak / UNIT as i128);
    assert_eq!(voice.amp() as i128, amp);
}

#[test]
fn release_cannot_be_undone() {
    let mut voice = AudioEvent::new(440_000, UNIT as u32, config(48_000));
    voice.release();
    voice.release();
    assert!(voice.released());
    voice.next_sample();
    assert!(voice.released());
    assert_eq!(voice.amp(), UNIT as u32 - 14_055);
}
