use thoth::recorder::{
    choose_recording_device, find_device_named, AudioDevice, DeviceChoice, FallbackNotice,
    RecorderLifecycle,
};

#[test]
fn test_recorder_new() {
    let recorder = RecorderLifecycle::new();
    assert!(!recorder.is_recording());
    assert!(!recorder.is_warm());
}

#[test]
fn test_arm_requires_warm() {
    let mut recorder = RecorderLifecycle::new();
    assert!(recorder.arm().is_err());
    assert_eq!(recorder.arm().unwrap_err(), "Cannot arm: stream is not warm. Call warm_up() first.");
}

#[test]
fn test_disarm_without_arm_returns_error() {
    let mut recorder = RecorderLifecycle::new();
    assert!(recorder.disarm().is_err());
    assert_eq!(recorder.disarm().unwrap_err(), "Not armed / no recording in progress");
}

#[test]
fn a_recording_round_keeps_the_stream_warm() {
    let mut r = RecorderLifecycle::new();
    assert!(r.needs_stream());
    assert!(r.check_start().is_ok());
    r.stream_opened();
    assert!(!r.needs_stream());
    assert_eq!(r.check_start().unwrap_err(), "Recording already in progress");
    assert!(r.arm().is_ok());
    assert!(r.is_recording());
    assert_eq!(r.arm().unwrap_err(), "Already armed / recording in progress");
    assert!(!r.cool_down(), "a recording in progress must not be torn down");
    assert!(r.is_warm() && r.is_recording());
    assert!(r.disarm().is_ok());
    assert!(r.is_warm() && !r.is_recording());
    assert!(r.cool_down());
    assert!(!r.is_warm());
}

#[test]
fn the_configured_device_wins_then_the_builtin_over_bluetooth() {
    assert_eq!(choose_recording_device(true, true, true), DeviceChoice::Configured);
    assert_eq!(choose_recording_device(false, true, true), DeviceChoice::BuiltIn);
    assert_eq!(choose_recording_device(false, true, false), DeviceChoice::Default);
    assert_eq!(choose_recording_device(false, false, true), DeviceChoice::Default);
}

#[test]
fn a_missing_device_is_reported_once_per_id() {
    let mut n = FallbackNotice::new();
    assert!(n.should_notify("mic-a"));
    assert!(!n.should_notify("mic-a"));
    assert!(n.should_notify("mic-b"));
    assert!(n.should_notify("mic-a"));
}

#[test]
fn listed_device_is_default_only_when_ids_match() {
    let d = AudioDevice::listed("dev-1".to_string(), "MacBook Pro Microphone".to_string(), Some("dev-1"));
    assert_eq!(d.id, "dev-1");
    assert_eq!(d.name, "MacBook Pro Microphone");
    assert!(d.is_default);
    let d = AudioDevice::listed("dev-2".to_string(), "USB Mic".to_string(), Some("dev-1"));
    assert!(!d.is_default);
    let d = AudioDevice::listed("dev-1".to_string(), "USB Mic".to_string(), None);
    assert!(!d.is_default);
}

#[test]
fn built_in_microphone_is_found_by_name() {
    let names = vec![
        "AirPods".to_string(),
        "MacBook Pro Microphone".to_string(),
        "MacBook Pro Microphone".to_string(),
    ];
    assert_eq!(find_device_named(&names, "MacBook Pro Microphone"), Some(1));
    assert_eq!(find_device_named(&names, "Studio Display"), None);
    assert_eq!(find_device_named(&vec![], "AirPods"), None);
}
