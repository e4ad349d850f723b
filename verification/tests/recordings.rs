use thoth::recordings::{
    audio_to_remove, is_wav_path, plan_orphan_sweep, plan_quarantine, plan_restore, purge_removes,
    tally_removals, trash_dest, FoundRecording, Transcription,
};

#[test]
fn test_transcription_new() {
    let t = Transcription::new("Hello world".to_string());
    assert!(!t.id.is_empty());
    assert_eq!(t.text, "Hello world");
    assert!(!t.is_enhanced);
    assert!(t.raw_text.is_none());
}

#[test]
fn test_transcription_with_details() {
    let t = Transcription::with_details(
        "Enhanced text".to_string(),
        Some("original text".to_string()),
        Some(5.5f64.to_bits()),
        Some("/path/to/audio.wav".to_string()),
        true,
        Some("grammar".to_string()),
        Some("ggml-large-v3-turbo".to_string()),
        Some(1.2f64.to_bits()),
        Some("llama3.2:3b".to_string()),
        Some(0.8f64.to_bits()),
    );
    assert_eq!(t.text, "Enhanced text");
    assert_eq!(t.raw_text, Some("original text".to_string()));
    assert_eq!(t.duration_seconds_bits.map(f64::from_bits), Some(5.5));
    assert!(t.is_enhanced);
    assert_eq!(t.enhancement_prompt, Some("grammar".to_string()));
    assert_eq!(t.transcription_model_name, Some("ggml-large-v3-turbo".to_string()));
    assert_eq!(t.transcription_duration_seconds_bits.map(f64::from_bits), Some(1.2));
    assert_eq!(t.enhancement_model_name, Some("llama3.2:3b".to_string()));
    assert_eq!(t.enhancement_duration_seconds_bits.map(f64::from_bits), Some(0.8));
}

#[test]
fn identifiers_are_fresh_uuids() {
    let a = Transcription::new(String::new());
    let b = Transcription::new(String::new());
    assert_eq!(a.id.len(), 36);
    assert_ne!(a.id, b.id);
}

#[test]
fn shared_audio_is_kept_until_its_last_reference_goes() {
    assert_eq!(audio_to_remove(Some("/r/a.wav".to_string()), 0), Some("/r/a.wav".to_string()));
    assert_eq!(audio_to_remove(Some("/r/a.wav".to_string()), 1), None);
    assert_eq!(audio_to_remove(None, 0), None);
}

#[test]
fn trashed_audio_is_named_after_its_transcription() {
    assert_eq!(trash_dest("/h/.thoth/Trash", "id1", "/r/rec.wav"), "/h/.thoth/Trash/id1__rec.wav");
    assert_eq!(trash_dest("/h/.thoth/Trash", "id1", "/r/.."), "/h/.thoth/Trash/id1__audio.wav");
}

#[test]
fn quarantine_moves_only_unshared_audio() {
    let p = plan_quarantine("/t", "x", Some("/r/a.wav".to_string()), 0);
    assert!(p.will_move);
    assert_eq!(p.trash_location.as_deref(), Some("/t/x__a.wav"));
    let p = plan_quarantine("/t", "x", Some("/r/a.wav".to_string()), 2);
    assert!(!p.will_move);
    assert_eq!(p.trash_location.as_deref(), Some("/r/a.wav"));
    let p = plan_quarantine("/t", "x", None, 0);
    assert!(!p.will_move);
    assert_eq!(p.trash_location, None);
}

#[test]
fn quarantine_and_restore_round_trip_the_audio_path() {
    let q = plan_quarantine("/t", "x", Some("/r/a.wav".to_string()), 0);
    let r = plan_restore(q.will_move, Some("/r/a.wav".to_string()), q.trash_location.clone(), false, true);
    assert_eq!(r.audio_path.as_deref(), Some("/r/a.wav"));
    assert_eq!(r.move_back, Some(("/t/x__a.wav".to_string(), "/r/a.wav".to_string())));
    let r = plan_restore(true, Some("/r/a.wav".to_string()), q.trash_location.clone(), true, true);
    assert_eq!(r.move_back, None);
    let r = plan_restore(true, Some("/r/a.wav".to_string()), q.trash_location, false, false);
    assert_eq!(r.move_back, None);
    assert_eq!(r.audio_path.as_deref(), Some("/r/a.wav"));
    let r = plan_restore(false, Some("/r/a.wav".to_string()), Some("/r/a.wav".to_string()), true, true);
    assert_eq!(r.audio_path.as_deref(), Some("/r/a.wav"));
    assert_eq!(r.move_back, None);
}

#[test]
fn purge_deletes_only_moved_audio() {
    assert_eq!(purge_removes(true, Some("/t/x.wav".to_string())), Some("/t/x.wav".to_string()));
    assert_eq!(purge_removes(false, Some("/r/x.wav".to_string())), None);
}

#[test]
fn wav_files_are_recognised_in_any_case() {
    assert!(is_wav_path("/r/a.wav"));
    assert!(is_wav_path("/r/a.WaV"));
    assert!(!is_wav_path("/r/a.mp3"));
    assert!(!is_wav_path("/r/wav"));
    assert!(!is_wav_path("/r/a.wave"));
}

#[test]
fn unreferenced_recordings_are_orphans() {
    let f = |p: &str, is_file: bool, c: Option<&str>| FoundRecording {
        path: p.to_string(),
        is_file,
        canonical: c.map(|c| c.to_string()),
    };
    let found = vec![
        f("/r/a.wav", true, Some("/real/a.wav")),
        f("/r/b.WAV", true, Some("/real/b.WAV")),
        f("/r/c.wav", true, Some("/real/c.wav")),
        f("/r/notes.txt", true, Some("/real/notes.txt")),
        f("/r/dir.wav", false, Some("/real/dir.wav")),
        f("/r/broken.wav", true, None),
    ];
    let referenced = vec!["/real/c.wav".to_string()];
    assert_eq!(plan_orphan_sweep(&found, &referenced), vec!["/r/a.wav".to_string(), "/r/b.WAV".to_string()]);
    let all = vec!["/real/a.wav".to_string(), "/real/b.WAV".to_string(), "/real/c.wav".to_string()];
    assert!(plan_orphan_sweep(&found, &all).is_empty());
}

#[test]
fn tally_counts_only_removed_files() {
    let r = tally_removals(&vec![(true, 1000), (false, 5000), (true, 24)]);
    assert_eq!(r.removed_count, 2);
    assert_eq!(r.bytes_freed, 1024);
}

#[test]
fn tally_of_nothing_is_zero() {
    let r = tally_removals(&vec![]);
    assert_eq!(r.removed_count, 0);
    assert_eq!(r.bytes_freed, 0);
    let r = tally_removals(&vec![(false, 7), (false, 9)]);
    assert_eq!(r.removed_count, 0);
    assert_eq!(r.bytes_freed, 0);
}
