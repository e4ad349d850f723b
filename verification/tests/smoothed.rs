use thoth::smoothed::{FrameDecision, HangoverPolicy, SmoothedVad, SmoothingConfig, Transition};

/// Silero v5's frame size; the engine this smoothing actually runs on.
const FRAME_MS: usize = 32;

/// Push a sequence of raw decisions, returning one result per frame.
fn run(vad: &mut SmoothedVad, frames: &[bool]) -> Vec<FrameDecision> {
    frames.iter().map(|&f| vad.push(f)).collect()
}

#[test]
fn hangover_policies_match_their_documented_durations() {
    assert_eq!(HangoverPolicy::Offline.hangover_ms(), 450);
    assert_eq!(HangoverPolicy::Streaming.hangover_ms(), 1650);
    assert!(
        HangoverPolicy::Streaming.hangover_frames(FRAME_MS) > HangoverPolicy::Offline.hangover_frames(FRAME_MS),
        "streaming must tolerate longer pauses than offline"
    );
}

#[test]
fn a_single_noisy_frame_does_not_open_a_segment() {
    let mut vad = SmoothedVad::with_policy(HangoverPolicy::Offline, FRAME_MS);
    let out = run(&mut vad, &[false, false, true, false, false]);
    assert!(out.iter().all(|d| !d.active), "onset debounce must reject a single-frame transient");
    assert!(out.iter().all(|d| d.transition.is_none()));
}

#[test]
fn segment_opens_only_after_the_debounce_is_satisfied() {
    let mut vad = SmoothedVad::with_policy(HangoverPolicy::Offline, FRAME_MS);
    let out = run(&mut vad, &[false, true, true]);
    assert!(!out[1].active, "first speech frame is still unconfirmed");
    assert!(out[2].active, "second consecutive speech frame confirms onset");
    assert_eq!(out[2].transition, Some(Transition::SpeechStart));
}

#[test]
fn onset_hands_back_the_frames_the_debounce_withheld() {
    let mut vad = SmoothedVad::with_policy(HangoverPolicy::Offline, FRAME_MS);
    let out = run(&mut vad, &[false, false, false, true, true]);
    let onset = out[4];
    assert_eq!(onset.transition, Some(Transition::SpeechStart));
    assert_eq!(onset.preroll_frames, 4, "pre-roll must cover 3 silent frames plus the withheld speech frame");
}

#[test]
fn preroll_is_capped_at_the_configured_window() {
    let mut vad = SmoothedVad::with_policy(HangoverPolicy::Offline, FRAME_MS);
    let config = SmoothingConfig::for_policy(HangoverPolicy::Offline, FRAME_MS);
    let mut frames = vec![false; 200];
    frames.extend([true, true]);
    let out = run(&mut vad, &frames);
    let onset = *out.last().unwrap();
    assert_eq!(onset.preroll_frames, config.preroll_frames, "pre-roll must saturate at the window");
}

#[test]
fn preroll_cannot_exceed_the_frames_actually_seen() {
    let mut vad = SmoothedVad::with_policy(HangoverPolicy::Offline, FRAME_MS);
    let out = run(&mut vad, &[true, true]);
    let onset = out[1];
    assert_eq!(onset.preroll_frames, 1, "only the withheld frame exists to reach back to");
}

#[test]
fn a_short_pause_does_not_end_the_segment() {
    let mut vad = SmoothedVad::with_policy(HangoverPolicy::Offline, FRAME_MS);
    let hangover = HangoverPolicy::Offline.hangover_frames(FRAME_MS);
    run(&mut vad, &[true, true]);
    let pause = run(&mut vad, &vec![false; hangover]);
    assert!(pause.iter().all(|d| d.active), "a pause within the hangover must keep the segment open");
    assert!(pause.iter().all(|d| d.transition.is_none()), "no boundary may be reported inside the hangover");
    assert!(vad.is_active());
}

#[test]
fn segment_ends_one_frame_after_the_hangover_is_exhausted() {
    let mut vad = SmoothedVad::with_policy(HangoverPolicy::Offline, FRAME_MS);
    let hangover = HangoverPolicy::Offline.hangover_frames(FRAME_MS);
    run(&mut vad, &[true, true]);
    run(&mut vad, &vec![false; hangover]);
    let closing = vad.push(false);
    assert_eq!(closing.transition, Some(Transition::SpeechEnd));
    assert!(!closing.active, "the frame that closes the segment is silence and is not part of it");
    assert!(!vad.is_active());
}

#[test]
fn speech_resuming_inside_the_hangover_keeps_one_segment() {
    let mut vad = SmoothedVad::with_policy(HangoverPolicy::Offline, FRAME_MS);
    let hangover = HangoverPolicy::Offline.hangover_frames(FRAME_MS);
    run(&mut vad, &[true, true]);
    run(&mut vad, &vec![false; hangover - 1]);
    let resumed = run(&mut vad, &[true, true, true]);
    assert!(resumed.iter().all(|d| d.active));
    assert!(resumed.iter().all(|d| d.transition.is_none()), "resuming inside the tail must not split the utterance");
    let pause = run(&mut vad, &vec![false; hangover]);
    assert!(pause.iter().all(|d| d.active), "hangover must reset on resumed speech");
}

#[test]
fn streaming_policy_tolerates_a_pause_that_offline_would_cut() {
    let offline_tail = HangoverPolicy::Offline.hangover_frames(FRAME_MS);
    let pause = vec![false; offline_tail + 5];
    let mut offline = SmoothedVad::with_policy(HangoverPolicy::Offline, FRAME_MS);
    run(&mut offline, &[true, true]);
    let offline_out = run(&mut offline, &pause);
    let mut streaming = SmoothedVad::with_policy(HangoverPolicy::Streaming, FRAME_MS);
    run(&mut streaming, &[true, true]);
    let streaming_out = run(&mut streaming, &pause);
    assert!(
        offline_out.iter().any(|d| d.transition == Some(Transition::SpeechEnd)),
        "offline policy should close on a pause this long"
    );
    assert!(streaming_out.iter().all(|d| d.transition.is_none()), "streaming policy must hold the same pause open");
}

#[test]
fn a_second_utterance_gets_its_own_preroll() {
    let mut vad = SmoothedVad::with_policy(HangoverPolicy::Offline, FRAME_MS);
    let hangover = HangoverPolicy::Offline.hangover_frames(FRAME_MS);
    run(&mut vad, &[true, true]);
    run(&mut vad, &vec![false; hangover + 1]);
    assert!(!vad.is_active());
    run(&mut vad, &vec![false; 5]);
    let out = run(&mut vad, &[true, true]);
    let onset = out[1];
    assert_eq!(onset.transition, Some(Transition::SpeechStart));
    assert!(onset.preroll_frames > 0, "the second utterance must get its own pre-roll");
}

#[test]
fn frames_for_ms_rounds_up_to_whole_frames() {
    assert_eq!(thoth::smoothed::frames_for_ms(450, 32), 15);
    assert_eq!(thoth::smoothed::frames_for_ms(1, 32), 1);
    assert_eq!(thoth::smoothed::frames_for_ms(64, 32), 2);
}
