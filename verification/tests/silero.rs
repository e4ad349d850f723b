use thoth::silero::{is_available, model_path, unavailable_reason, unavailable_reason_for, MODEL_FILE_NAME, MODEL_ID, SAMPLE_RATE, WINDOW_SAMPLES};

#[test]
fn window_is_the_size_silero_requires() {
    assert_eq!(WINDOW_SAMPLES, 512);
    assert_eq!(SAMPLE_RATE, 16_000);
}

#[test]
fn model_path_lives_under_the_shared_model_directory() {
    let path = model_path();
    assert!(path.ends_with(&format!("{MODEL_ID}/{MODEL_FILE_NAME}")), "{path:?}");
}

#[test]
fn availability_requires_both_an_engine_and_a_model() {
    let available = is_available();
    let reason = unavailable_reason();
    assert_eq!(available, reason.is_none(), "is_available and unavailable_reason must agree; reason={reason:?}");
    let reason = reason.expect("a build without the engine must give a reason");
    assert!(reason.contains("no ONNX runtime"), "{reason}");
}

#[test]
fn a_missing_model_is_named_in_the_reason() {
    let reason = unavailable_reason_for(true, false, "/m/silero_vad.onnx").unwrap();
    assert_eq!(reason, "Silero model not downloaded to /m/silero_vad.onnx; falling back to WebRTC VAD");
    assert_eq!(unavailable_reason_for(true, true, "/m/silero_vad.onnx"), None);
}
