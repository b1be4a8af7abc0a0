use voice_mixer::audio_event::AudioEvent;
use voice_mixer::audio_server::{
    AudioError, AudioServer, DeviceReport, SampleFormat, Selector, SupportedConfig, VoiceHandle,
    HEADROOM,
};
use voice_mixer::config::StreamConfig;
use voice_mixer::engine::Engine;
use voice_mixer::sample::{Sample, UNIT};
use voice_mixer::synth::Synth;

const RATE: u32 = 48_000;

fn range(sample_format: SampleFormat, max_sample_rate: u32) -> SupportedConfig {
    SupportedConfig { channels: 2, min_sample_rate: 8_000, max_sample_rate, sample_format }
}

fn server() -> AudioServer {
    AudioServer::new(DeviceReport::Supports(vec![range(SampleFormat::F32, RATE)])).ok().unwrap()
}

fn config() -> StreamConfig {
    StreamConfig { channels: 2, sample_rate: RATE }
}

/// What a voice alone writes over `n` slots, after `skip` samples.
fn alone(freq: u32, amp: u32, skip: usize, n: usize) -> Vec<Sample> {
    let mut voice = AudioEvent::new(freq, amp, config());
    let mut skipped = vec![0 as Sample; skip];
    voice.write_to_buffer(&mut skipped, true);
    let mut buffer = vec![0 as Sample; n];
    voice.write_to_buffer(&mut buffer, true);
    buffer
}

/// A server with `k` done voices and nothing else.
fn with_done(k: usize) -> AudioServer {
    let mut server = server();
    for i in 0..k {
        server.push(100_000 + i as u32, 0);
    }
    for i in 0..k {
        assert!(server.release(Selector::Frequency(100_000 + i as u32)));
    }
    let mut one = [0 as Sample; 1];
    server.fill(&mut one);
    assert_eq!(server.done_count(), k);
    assert_eq!(server.len(), k);
    server
}

#[test]
fn new_without_a_device() {
    assert!(matches!(
        AudioServer::new(DeviceReport::Missing),
        Err(AudioError::DeviceUnavailable)
    ));
}

#[test]
fn new_with_a_failed_query() {
    assert!(matches!(
        AudioServer::new(DeviceReport::QueryFailed),
        Err(AudioError::UnsupportedSampleFormat)
    ));
}

#[test]
fn new_without_a_float_format() {
    assert!(matches!(
        AudioServer::new(DeviceReport::Supports(vec![])),
        Err(AudioError::UnsupportedSampleFormat)
    ));
    let ranges = vec![
        range(SampleFormat::I16, 44_100),
        range(SampleFormat::U16, 44_100),
        range(SampleFormat::F64, 44_100),
        range(SampleFormat::I32, 44_100),
    ];
    assert!(matches!(AudioServer::new(DeviceReport::Supports(ranges)), Err(AudioError::UnsupportedSampleFormat)));
}

#[test]
fn new_with_a_rate_of_zero() {
    let ranges = vec![range(SampleFormat::I16, 44_100), range(SampleFormat::F32, 0)];
    assert!(matches!(AudioServer::new(DeviceReport::Supports(ranges)), Err(AudioError::StreamBuildFailure)));
    // the first range of floats decides, even where a later one would do
    let ranges = vec![range(SampleFormat::F32, 0), range(SampleFormat::F32, 48_000)];
    assert!(matches!(AudioServer::new(DeviceReport::Supports(ranges)), Err(AudioError::StreamBuildFailure)));
}

#[test]
fn new_takes_the_first_float_range_at_its_highest_rate() {
    let ranges = vec![
        range(SampleFormat::I16, 44_100),
        SupportedConfig {
            channels: 6,
            min_sample_rate: 22_050,
            max_sample_rate: 96_000,
            sample_format: SampleFormat::F32,
        },
        range(SampleFormat::F32, 192_000),
    ];
    let server = AudioServer::new(DeviceReport::Supports(ranges)).ok().unwrap();
    assert_eq!(server.config().channels, 6);
    assert_eq!(server.config().sample_rate, 96_000);
    assert_eq!(server.len(), 0);
    assert_eq!(server.done_count(), 0);
    assert!(server.get(0).is_none());
    assert!(server.handle_at(0).is_none());
}

#[test]
fn empty_registry_fills_with_silence() {
    let mut server = server();
    for len in [0usize, 1, 2, 7, 64, 512, 4_096] {
        let mut buffer = vec![123_456_789 as Sample; len];
        server.fill(&mut buffer);
        assert_eq!(buffer, vec![0 as Sample; len]);
        let mut buffer = vec![i64::MIN; len];
        server.fill_normalized(&mut buffer);
        assert_eq!(buffer, vec![0 as Sample; len]);
    }
    assert_eq!(server.len(), 0);
}

#[test]
fn last_done_voice_leaves_silence() {
    let mut server = with_done(1);
    let mut buffer = vec![9 as Sample; 32];
    server.fill(&mut buffer);
    assert_eq!(buffer, vec![0 as Sample; 32]);
    assert_eq!(server.len(), 0);
}

#[test]
fn push_hands_out_rising_handles() {
    let mut server = server();
    assert_eq!(server.push(440_000, UNIT as u32).id, 0);
    assert_eq!(server.push(880_000, 5).id, 1);
    assert_eq!(server.push(440_000, 0).id, 2);
    assert_eq!(server.len(), 3);
    assert_eq!(server.get(1).unwrap().freq(), 880_000);
    assert_eq!(server.get(1).unwrap().amp(), 5);
    assert!(!server.get(1).unwrap().released());
    assert!(!server.get(1).unwrap().done());
    assert_eq!(server.handle_at(2).unwrap().id, 2);
    assert!(server.get(3).is_none());
    assert!(server.handle_at(3).is_none());
}

#[test]
fn single_voice_overwrites_the_buffer() {
    let mut server = server();
    server.push(440_000, UNIT as u32);
    let mut buffer = vec![i64::MAX; 256];
    server.fill(&mut buffer);
    assert_eq!(buffer, alone(440_000, UNIT as u32, 0, 256));
    let mut buffer = vec![i64::MIN; 100];
    server.fill(&mut buffer);
    assert_eq!(buffer, alone(440_000, UNIT as u32, 256, 100));
}

#[test]
fn mix_is_the_sum_of_the_voices() {
    let voices: [(u32, u32); 5] = [
        (440_000, UNIT as u32),
        (880_000, (UNIT / 2) as u32),
        (261_626, (UNIT / 3) as u32),
        (12_543_854, UNIT as u32),
        (8_176, 12_345),
    ];
    let mut server = server();
    for (freq, amp) in voices.iter() {
        server.push(*freq, *amp);
    }
    let mut done: usize = 0;
    for n in [1usize, 3, 500, 4_096] {
        let mut buffer = vec![-7 as Sample; n];
        server.fill(&mut buffer);
        let mut sum = vec![0 as Sample; n];
        for (freq, amp) in voices.iter() {
            let part = alone(*freq, *amp, done, n);
            for t in 0..n {
                sum[t] += part[t];
            }
        }
        assert_eq!(buffer, sum);
        done += n;
    }
    assert!((voices.len() as u64) < HEADROOM);
}

#[test]
fn normalized_mix_is_the_mean_of_the_voices() {
    let mut plain = server();
    let mut normalized = server();
    for freq in [440_000u32, 554_365, 659_255] {
        plain.push(freq, UNIT as u32);
        normalized.push(freq, UNIT as u32);
    }
    let mut a = vec![0 as Sample; 1_000];
    let mut b = vec![0 as Sample; 1_000];
    plain.fill(&mut a);
    normalized.fill_normalized(&mut b);
    let mut below_zero = false;
    for t in 0..1_000 {
        assert_eq!(b[t], a[t] / 3);
        assert!(b[t].abs() <= UNIT);
        below_zero = below_zero || a[t] < 0;
    }
    assert!(below_zero);
    let mut single = server();
    single.push(440_000, UNIT as u32);
    let mut c = vec![0 as Sample; 100];
    single.fill_normalized(&mut c);
    assert_eq!(c, alone(440_000, UNIT as u32, 0, 100));
}

#[test]
fn release_by_frequency_takes_the_first_held_voice() {
    let mut server = server();
    server.push(440_000, 10);
    server.push(880_000, 20);
    server.push(440_000, 30);
    assert!(!server.release(Selector::Frequency(441_000)));
    assert!(server.release(Selector::Frequency(440_000)));
    assert!(server.get(0).unwrap().released());
    assert!(!server.get(1).unwrap().released());
    assert!(!server.get(2).unwrap().released());
    assert!(server.release(Selector::Frequency(440_000)));
    assert!(server.get(2).unwrap().released());
    assert!(!server.get(1).unwrap().released());
    assert!(!server.release(Selector::Frequency(440_000)));
    assert_eq!(server.len(), 3);
}

#[test]
fn release_by_handle_takes_that_voice() {
    let mut server = server();
    let first = server.push(440_000, 10);
    let second = server.push(440_000, 20);
    assert!(server.release(Selector::Handle(second)));
    assert!(!server.get(0).unwrap().released());
    assert!(server.get(1).unwrap().released());
    assert!(!server.release(Selector::Handle(second)));
    assert!(!server.release(Selector::Handle(VoiceHandle { id: 99 })));
    assert!(server.release(Selector::Handle(first)));
    assert!(server.get(0).unwrap().released());
}

#[test]
fn only_one_done_voice_leaves_per_call() {
    for k in 2..6usize {
        let mut server = with_done(k);
        let mut left = k;
        while left > 0 {
            let mut buffer = vec![5 as Sample; 16];
            server.fill(&mut buffer);
            left -= 1;
            assert_eq!(server.done_count(), left);
            assert_eq!(server.len(), left);
            assert_eq!(buffer, vec![0 as Sample; 16]);
        }
        let mut buffer = vec![5 as Sample; 16];
        server.fill(&mut buffer);
        assert_eq!(server.len(), 0);
    }
}

#[test]
fn done_voices_among_held_ones_leave_one_by_one() {
    let mut server = server();
    server.push(1_000, 0);
    server.push(440_000, UNIT as u32);
    server.push(2_000, 0);
    server.push(3_000, 0);
    server.release(Selector::Frequency(1_000));
    server.release(Selector::Frequency(2_000));
    server.release(Selector::Frequency(3_000));
    let mut buffer = vec![0 as Sample; 10];
    server.fill(&mut buffer);
    assert_eq!(server.done_count(), 3);
    assert_eq!(server.len(), 4);
    let mut played = 10;
    for left in [2usize, 1, 0, 0] {
        server.fill(&mut buffer);
        assert_eq!(server.done_count(), left);
        assert_eq!(server.len(), left + 1);
        // the done voices that wait add nothing to the mix
        assert_eq!(buffer, alone(440_000, UNIT as u32, played, 10));
        played += 10;
    }
}

#[test]
fn removal_puts_the_last_voice_in_the_gap() {
    let mut server = server();
    let a = server.push(1_000, 0);
    let b = server.push(2_000, 7);
    let c = server.push(3_000, 8);
    let d = server.push(4_000, 9);
    assert!(server.release(Selector::Handle(a)));
    let mut one = [0 as Sample; 1];
    server.fill(&mut one);
    assert!(server.get(0).unwrap().done());
    assert_eq!(server.len(), 4);
    server.fill(&mut one);
    assert_eq!(server.len(), 3);
    let order: Vec<u64> = (0..3).map(|i| server.handle_at(i).unwrap().id).collect();
    assert_eq!(order, vec![d.id, b.id, c.id]);
    let freqs: Vec<u32> = (0..3).map(|i| server.get(i).unwrap().freq()).collect();
    assert_eq!(freqs, vec![4_000, 2_000, 3_000]);
}

#[test]
fn voice_that_ends_within_a_call_stays_until_the_next() {
    let mut server = server();
    server.push(440_000, 14_055 * 4);
    server.release(Selector::Frequency(440_000));
    let mut buffer = vec![0 as Sample; 3];
    server.fill(&mut buffer);
    assert_eq!(server.done_count(), 0);
    assert_eq!(server.get(0).unwrap().amp(), 14_055);
    server.fill(&mut buffer);
    assert_eq!(server.done_count(), 1);
    assert_eq!(server.len(), 1);
    assert_eq!(server.get(0).unwrap().amp(), 0);
    server.fill(&mut buffer);
    assert_eq!(server.len(), 0);
    assert_eq!(buffer, vec![0 as Sample; 3]);
}

#[test]
fn two_voices_end_to_end() {
    let mut server = server();
    server.push(440_000, UNIT as u32);
    server.push(880_000, (UNIT / 2) as u32);
    assert!(server.release(Selector::Frequency(440_000)));
    let mut second = AudioEvent::new(880_000, (UNIT / 2) as u32, config());
    let mut first = AudioEvent::new(440_000, UNIT as u32, config());
    first.release();
    let mut calls = 0;
    let mut seen_done = false;
    while server.len() == 2 {
        let mut buffer = vec![0 as Sample; 512];
        let was_done = server.get(0).unwrap().done();
        server.fill(&mut buffer);
        if was_done {
            // the first voice has left: the second sounds on alone
            assert_eq!(server.len(), 1);
            let mut want = vec![0 as Sample; 512];
            second.write_to_buffer(&mut want, true);
            assert_eq!(buffer, want);
        } else {
            let mut want = vec![0 as Sample; 512];
            first.write_to_buffer(&mut want, true);
            second.write_to_buffer(&mut want, false);
            assert_eq!(buffer, want);
            assert_eq!(server.get(0).unwrap().amp(), first.amp());
            seen_done = server.get(0).unwrap().done();
        }
        calls += 1;
        assert!(calls < 1_000);
    }
    assert!(seen_done);
    // 76,396 samples of release are 150 buffers; the next call removes the voice
    assert_eq!(calls, 151);
    assert_eq!(server.len(), 1);
    assert_eq!(server.done_count(), 0);
    let left = server.get(0).unwrap();
    assert_eq!(left.freq(), 880_000);
    assert_eq!(left.amp(), (UNIT / 2) as u32);
    assert!(!left.released());
    let mut buffer = vec![0 as Sample; 512];
    let mut want = vec![0 as Sample; 512];
    server.fill(&mut buffer);
    second.write_to_buffer(&mut want, true);
    assert_eq!(buffer, want);
    assert_eq!(server.len(), 1);
}

#[test]
fn engine_plays_only_while_it_runs() {
    let mut engine = Engine::new(server());
    assert!(!engine.is_running());
    engine.audio_server_mut().push(440_000, UNIT as u32);
    engine.audio_server_mut().push(1_000, 0);
    assert!(engine.audio_server_mut().release(Selector::Frequency(1_000)));
    let mut buffer = vec![3 as Sample; 64];
    engine.fill(&mut buffer);
    assert_eq!(buffer, vec![0 as Sample; 64]);
    assert_eq!(engine.audio_server().len(), 2);
    assert_eq!(engine.audio_server().done_count(), 0);
    assert!(engine.start(true, true).is_ok());
    assert!(engine.is_running());
    engine.fill(&mut buffer);
    assert_eq!(buffer, alone(440_000, UNIT as u32, 0, 64));
    assert_eq!(engine.audio_server().done_count(), 1);
    engine.stop();
    assert!(!engine.is_running());
    engine.fill(&mut buffer);
    assert_eq!(buffer, vec![0 as Sample; 64]);
    assert_eq!(engine.audio_server().len(), 2);
    assert!(engine.start(true, true).is_ok());
    engine.fill(&mut buffer);
    assert_eq!(buffer, alone(440_000, UNIT as u32, 64, 64));
    assert_eq!(engine.audio_server().len(), 1);
}

#[test]
fn engine_does_not_run_on_a_stream_that_failed() {
    for (built, playing) in [(false, false), (false, true), (true, false)] {
        let mut engine = Engine::new(server());
        engine.audio_server_mut().push(440_000, UNIT as u32);
        assert!(matches!(engine.start(built, playing), Err(AudioError::StreamBuildFailure)));
        assert!(!engine.is_running());
        let mut buffer = vec![3 as Sample; 64];
        engine.fill(&mut buffer);
        assert_eq!(buffer, vec![0 as Sample; 64]);
        assert_eq!(engine.audio_server().len(), 1);
        assert_eq!(engine.audio_server().get(0).unwrap().amp(), UNIT as u32);
    }
    let mut engine = Engine::new(server());
    assert!(engine.start(true, true).is_ok());
    assert!(matches!(engine.start(true, false), Err(AudioError::StreamBuildFailure)));
    assert!(!engine.is_running());
}
