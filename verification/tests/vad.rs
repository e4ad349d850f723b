use thoth::vad::{leading_trim_range, should_trim, trim_frame_size, trim_min_samples, VadFrameDuration};

#[test]
fn test_frame_duration_samples() {
    assert_eq!(VadFrameDuration::Ms10.samples_at_16khz(), 160);
    assert_eq!(VadFrameDuration::Ms20.samples_at_16khz(), 320);
    assert_eq!(VadFrameDuration::Ms30.samples_at_16khz(), 480);
}

#[test]
fn recordings_under_twenty_seconds_are_not_trimmed() {
    assert_eq!(trim_min_samples(16_000), 320_000);
    assert!(!should_trim(160_000, 16_000));
    assert!(should_trim(320_000, 16_000));
    assert_eq!(trim_frame_size(48_000), 1_440);
}

#[test]
fn trimming_keeps_a_margin_before_the_first_speech() {
    assert_eq!(leading_trim_range(500_000, None, 480, 4_800), (0, 500_000));
    assert_eq!(leading_trim_range(500_000, Some(100), 480, 4_800), (43_200, 500_000));
    assert_eq!(leading_trim_range(500_000, Some(2), 480, 4_800), (0, 500_000));
}

use thoth::detector::{push_pcm, trim_silence_pcm, WebRtcDetector};
use thoth::speech_gate::{GateConfig, SpeechGate};

/// The float side of the trim, as the application does it: samples scaled to
/// 16-bit PCM and a half-second margin.
fn trim_silence(samples: &[f32], sample_rate: u32) -> (usize, usize) {
    let pcm: Vec<i16> = samples.iter().map(|&s| (s * 32767.0).clamp(-32768.0, 32767.0) as i16).collect();
    let margin = (0.5f32 * sample_rate as f32) as usize;
    trim_silence_pcm(&pcm, sample_rate, margin)
}

#[test]
fn test_trim_silence_short_recording_unchanged() {
    let samples = vec![0.0f32; 160_000];
    let (start, end) = trim_silence(&samples, 16_000);
    assert_eq!(start, 0);
    assert_eq!(end, samples.len());
}

#[test]
fn test_trim_silence_all_silence_returns_full_range() {
    let samples = vec![0.0f32; 480_000];
    let (start, end) = trim_silence(&samples, 16_000);
    assert_eq!(start, 0);
    assert_eq!(end, samples.len());
}

#[test]
fn test_trim_silence_trims_leading_only_and_keeps_tail() {
    let sample_rate = 16_000u32;
    let total_samples = 30 * sample_rate as usize;
    let mut samples = vec![0.0f32; total_samples];
    let speech_start = 10 * sample_rate as usize;
    let speech_end = 20 * sample_rate as usize;
    for (i, sample) in samples.iter_mut().enumerate().take(speech_end).skip(speech_start) {
        let t = i as f32 / sample_rate as f32;
        *sample = (t * 440.0 * 2.0 * std::f32::consts::PI).sin() * 0.5;
    }
    let (start, end) = trim_silence(&samples, sample_rate);
    assert!(start > 0, "Should trim leading silence");
    assert_eq!(end, total_samples, "Trailing edge must never be trimmed");
    let margin = (0.5f32 * sample_rate as f32) as usize;
    assert!(start <= speech_start + margin);
}

#[test]
fn test_trim_silence_non_16khz() {
    let sample_rate = 48_000u32;
    let total_samples = 30 * sample_rate as usize;
    let samples = vec![0.0f32; total_samples];
    let (start, end) = trim_silence(&samples, sample_rate);
    assert_eq!(start, 0);
    assert_eq!(end, samples.len());
}

#[test]
fn silence_is_never_speech() {
    let mut detector = WebRtcDetector::new(VadFrameDuration::Ms30);
    let mut gate: SpeechGate<i16> = SpeechGate::with_frame_samples(detector.frame_samples(), GateConfig::default());
    let changed = push_pcm(&mut gate, &mut detector, &vec![0i16; 48_000]);
    assert!(!changed);
    assert!(!gate.is_speaking());
    assert!(!gate.has_heard_speech());
    assert_eq!(gate.silence_ms_after_speech(), None);
}

#[test]
fn a_tone_opens_the_live_gate_and_silence_closes_it() {
    let mut detector = WebRtcDetector::new(VadFrameDuration::Ms30);
    assert_eq!(detector.frame_samples(), 480);
    let mut gate: SpeechGate<i16> = SpeechGate::with_frame_samples(480, GateConfig::default());
    let tone: Vec<i16> = (0..32_000)
        .map(|i| {
            let t = i as f32 / 16_000.0;
            ((t * 440.0 * 2.0 * std::f32::consts::PI).sin() * 0.5 * 32767.0) as i16
        })
        .collect();
    let mut silence_before = vec![0i16; 8_000];
    assert!(!push_pcm(&mut gate, &mut detector, &silence_before));
    for block in tone.chunks(1_000) {
        push_pcm(&mut gate, &mut detector, block);
    }
    assert!(gate.has_heard_speech());
    assert!(gate.first_speech_sample().unwrap() >= 7_000);
    silence_before.resize(32_000, 0);
    push_pcm(&mut gate, &mut detector, &silence_before);
    assert!(!gate.is_speaking());
    let after = gate.silence_ms_after_speech().unwrap();
    assert!((1_500..=2_100).contains(&after), "got {after}");
    detector.reset();
}

#[test]
fn a_frame_of_a_refused_length_is_never_speech() {
    let mut detector = WebRtcDetector::new(VadFrameDuration::Ms30);
    let tone: Vec<i16> = (0..100).map(|i| if i % 2 == 0 { 20_000 } else { -20_000 }).collect();
    assert!(!detector.is_speech(&tone));
    detector.reset();
    assert!(!detector.is_speech(&vec![0i16; 480]));
}
