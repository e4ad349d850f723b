use thoth::speech_gate::{GateConfig, SpeechActivity, SpeechGate};

/// Samples per frame of the scripted detector (30 ms at 16 kHz).
const FRAME: usize = 480;

/// `n` frames' worth of samples; their content is irrelevant to a script.
fn frames(n: usize) -> Vec<f32> {
    vec![0.0; n * FRAME]
}

/// Feed `samples` through the speech gate, taking each completed frame's verdict
/// from `script` (speech when the scripted probability is at least 0.5;
/// frames past the end of the script are silence).
fn push_scripted(gate: &mut SpeechGate<f32>, samples: &[f32], script: &mut std::vec::IntoIter<f32>) {
    for (_frame, end) in gate.split_frames(samples) {
        let p = script.next().unwrap_or(0.0);
        gate.classify(p >= 0.5, end);
    }
}

#[test]
fn one_speech_frame_does_not_open_the_gate() {
    let config = GateConfig { onset_frames: 3, ..GateConfig::default() };
    let mut gate = SpeechGate::with_frame_samples(FRAME, config);
    let mut script = vec![1.0, 0.0, 1.0, 1.0].into_iter();
    push_scripted(&mut gate, &frames(4), &mut script);
    assert!(!gate.is_speaking(), "runs of 1 and 2 frames must not satisfy an onset of 3");
    assert!(!gate.has_heard_speech());
}

#[test]
fn a_short_gap_does_not_close_the_gate() {
    let config = GateConfig { onset_frames: 2, hangover_frames: 5 };
    let mut gate = SpeechGate::with_frame_samples(FRAME, config);
    let mut script = vec![1.0, 1.0, 0.0, 0.0, 0.0, 0.0, 1.0, 1.0].into_iter();
    push_scripted(&mut gate, &frames(8), &mut script);
    assert!(gate.is_speaking(), "a gap shorter than the hangover must not end the utterance");
}

#[test]
fn a_long_gap_closes_the_gate() {
    let config = GateConfig { onset_frames: 2, hangover_frames: 5 };
    let mut gate = SpeechGate::with_frame_samples(FRAME, config);
    let mut script = vec![1.0, 1.0, 0.0, 0.0, 0.0, 0.0, 0.0].into_iter();
    push_scripted(&mut gate, &frames(7), &mut script);
    assert!(!gate.is_speaking());
    assert!(gate.has_heard_speech(), "the speech gate closing does not unsay what was said");
}

#[test]
fn first_speech_is_back_dated_to_the_start_of_the_run() {
    let config = GateConfig { onset_frames: 3, ..GateConfig::default() };
    let mut gate = SpeechGate::with_frame_samples(FRAME, config);
    let mut script = vec![0.0, 0.0, 1.0, 1.0, 1.0].into_iter();
    push_scripted(&mut gate, &frames(5), &mut script);
    assert_eq!(gate.first_speech_sample(), Some(2 * 480));
}

#[test]
fn framing_is_independent_of_block_size() {
    let signal: Vec<f32> = (0..48_000).map(|i| ((i * 37) % 101) as f32 / 101.0).collect();
    let mut whole = SpeechGate::with_frame_samples(FRAME, GateConfig::default());
    let all = whole.split_frames(&signal);
    let mut dribbled = SpeechGate::with_frame_samples(FRAME, GateConfig::default());
    let mut pieces: Vec<(Vec<f32>, u64)> = Vec::new();
    for block in signal.chunks(100) {
        pieces.extend(dribbled.split_frames(block));
    }
    assert_eq!(all, pieces);
    assert_eq!(all.len(), 100);
    assert_eq!(all[0].1, 480);
}

#[test]
fn silence_after_speech_is_measured_from_the_last_speech_frame() {
    let mut gate = SpeechGate::with_frame_samples(FRAME, GateConfig::default());
    let mut script = vec![1.0, 1.0, 1.0].into_iter();
    push_scripted(&mut gate, &frames(3), &mut script);
    assert_eq!(gate.silence_ms_after_speech(), Some(0));
    let mut rest = Vec::new().into_iter();
    push_scripted(&mut gate, &vec![0.0; 16_000], &mut rest);
    assert_eq!(gate.silence_ms_after_speech(), Some(1000));
}

#[test]
fn reset_clears_the_previous_recording() {
    let mut gate = SpeechGate::with_frame_samples(FRAME, GateConfig::default());
    let mut script = vec![1.0, 1.0, 1.0].into_iter();
    push_scripted(&mut gate, &frames(3), &mut script);
    assert!(gate.has_heard_speech());
    gate.reset();
    assert!(!gate.has_heard_speech());
    assert!(!gate.is_speaking());
    assert_eq!(gate.silence_ms_after_speech(), None);
    let mut silent = Vec::new().into_iter();
    push_scripted(&mut gate, &vec![0.0; 16_000], &mut silent);
    assert!(!gate.has_heard_speech(), "silence after a reset stays silent");
}

#[test]
fn activity_start_clears_the_previous_recording() {
    let mut activity = SpeechActivity::default();
    let mut gate = SpeechGate::with_frame_samples(FRAME, GateConfig::default());
    let mut script = vec![1.0, 1.0, 1.0].into_iter();
    push_scripted(&mut gate, &frames(3), &mut script);
    activity.start();
    activity.publish(&gate);
    assert!(activity.has_heard_speech());
    activity.start();
    assert!(!activity.has_heard_speech());
    assert_eq!(activity.silence_ms_after_speech(), None);
    assert!(activity.is_live());
    activity.stop();
    assert!(!activity.is_live());
}
