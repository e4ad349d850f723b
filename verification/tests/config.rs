use thoth::config::{
    apply_migration, migrate_config, preserve_stored_settings, read_logging_config_early, set_enhancement_api_key,
    set_prompt_config, AudioConfig, Config, EnhancementConfig, GeneralConfig, LoggingConfig, LokiAuth, RecorderConfig,
    RecorderPosition, RecordingMode, ShortcutConfig, TranscriptionConfig, CURRENT_VERSION, LOKI_AUTH_MASK,
};
use thoth::paths::get_config_path;

#[test]
fn test_default_config_has_current_version() {
    let config = Config::default();
    assert_eq!(config.version, CURRENT_VERSION);
}

#[test]
fn test_audio_config_defaults() {
    let audio = AudioConfig::default();
    assert_eq!(audio.device_id, None);
    assert_eq!(audio.sample_rate, 16000);
    assert!(audio.play_sounds);
}

#[test]
fn test_transcription_config_defaults() {
    let transcription = TranscriptionConfig::default();
    assert_eq!(transcription.language, "en");
    assert!(!transcription.auto_copy);
    assert!(transcription.auto_paste);
    assert!(!transcription.add_leading_space);
}

#[test]
fn test_shortcut_config_defaults() {
    let shortcuts = ShortcutConfig::default();
    assert_eq!(shortcuts.toggle_recording, "F13");
    assert_eq!(shortcuts.toggle_recording_alt, Some("ShiftRight".to_string()));
    assert_eq!(shortcuts.copy_last, Some("F14".to_string()));
    assert_eq!(shortcuts.toggle_enhancement, None);
    assert_eq!(shortcuts.recording_mode, RecordingMode::Toggle);
}

#[test]
fn test_enhancement_config_defaults() {
    let enhancement = EnhancementConfig::default();
    assert!(!enhancement.enabled);
    assert_eq!(enhancement.model, "llama3.2");
    assert_eq!(enhancement.prompt_id, "fix-grammar");
    assert_eq!(enhancement.ollama_url, "http://localhost:11434");
}

#[test]
fn test_general_config_defaults() {
    let general = GeneralConfig::default();
    assert!(!general.launch_at_login);
    assert!(general.show_in_menu_bar);
    assert!(!general.show_in_dock);
}

#[test]
fn test_recorder_config_defaults() {
    let recorder = RecorderConfig::default();
    assert_eq!(recorder.position, RecorderPosition::TopRight);
    assert_eq!(recorder.offset_x, -20);
    assert_eq!(recorder.offset_y, 20);
}

#[test]
fn test_migration_from_version_0() {
    let old_config = Config { version: 0, ..Default::default() };
    let migrated = migrate_config(old_config).unwrap();
    assert_eq!(migrated.version, CURRENT_VERSION);
}

#[test]
fn test_config_path_format() {
    let path_str = get_config_path();
    assert!(path_str.contains(".thoth"));
    assert!(path_str.ends_with("config.json"));
}

#[test]
fn test_apply_migration_unknown_version() {
    let future_config = Config { version: 999, ..Default::default() };
    let result = apply_migration(future_config);
    assert!(result.is_err());
    assert!(result.err().unwrap().contains("Unknown config version"));
}

#[test]
fn test_audio_config_custom_values() {
    let audio = AudioConfig {
        device_id: Some("custom-mic".to_string()),
        sample_rate: 48000,
        play_sounds: false,
        warm_stream: false,
    };
    assert_eq!(audio.device_id, Some("custom-mic".to_string()));
    assert_eq!(audio.sample_rate, 48000);
    assert!(!audio.play_sounds);
}

#[test]
fn test_enhancement_config_custom_ollama_url() {
    let enhancement = EnhancementConfig {
        enabled: true,
        model: "custom-model".to_string(),
        prompt_id: "summarise".to_string(),
        ollama_url: "http://192.168.1.100:11434".to_string(),
        ..Default::default()
    };
    assert!(enhancement.enabled);
    assert_eq!(enhancement.ollama_url, "http://192.168.1.100:11434");
}

#[test]
fn test_set_config_null_api_key_preserves_cached() {
    let mut current = Config::default();
    current.enhancement.api_key = Some("stored-key".to_string());
    let incoming = Config::default();
    assert!(incoming.enhancement.api_key.is_none());
    let incoming = preserve_stored_settings(incoming, &current);
    assert_eq!(incoming.enhancement.api_key, Some("stored-key".to_string()));
}

#[test]
fn test_set_enhancement_api_key_sets_and_clears() {
    let mut cached = Config::default();
    set_enhancement_api_key(&mut cached, Some("my-api-key".to_string()));
    assert_eq!(cached.enhancement.api_key, Some("my-api-key".to_string()));
    set_enhancement_api_key(&mut cached, None);
    assert_eq!(cached.enhancement.api_key, None);
}

#[test]
fn test_set_config_with_unrelated_change_preserves_api_key() {
    let mut current = Config::default();
    current.enhancement.api_key = Some("keep-me".to_string());
    let mut incoming = Config::default();
    incoming.enhancement.model = "different-model".to_string();
    let incoming = preserve_stored_settings(incoming, &current);
    assert_eq!(incoming.enhancement.api_key, Some("keep-me".to_string()));
    assert_eq!(incoming.enhancement.model, "different-model".to_string());
}

#[test]
fn test_logging_config_defaults() {
    let cfg = LoggingConfig::default();
    assert_eq!(cfg.local_retention_days, 7);
    assert!(!cfg.remote_enabled);
    assert!(cfg.loki_url.is_empty());
    assert!(cfg.loki_auth.0.is_empty());
    assert!(cfg.loki_tenant.is_none());
    assert!(cfg.loki_labels.is_empty());
    assert_eq!(cfg.telemetry_level, "info");
}

#[test]
fn test_loki_auth_debug_is_redacted() {
    let auth = LokiAuth("super_secret_glsa_token_xyz".to_string());
    let debug_str = auth.debug_string();
    assert!(!debug_str.contains("super_secret_glsa_token_xyz"), "got: {debug_str}");
    assert!(debug_str.contains("redacted"), "got: {debug_str}");
}

#[test]
fn test_loki_auth_debug_empty_is_not_redacted() {
    let auth = LokiAuth(String::new());
    let debug_str = auth.debug_string();
    assert!(!debug_str.contains("redacted"), "got: {debug_str}");
}

#[test]
fn test_logging_config_debug_redacts_auth() {
    let cfg = LoggingConfig { loki_auth: LokiAuth("top_secret_token_abc".to_string()), ..Default::default() };
    let debug_str = cfg.debug_string();
    assert!(!debug_str.contains("top_secret_token_abc"), "got: {debug_str}");
}

#[test]
fn test_telemetry_filter_allows_telemetry_target() {
    let target = "telemetry";
    let passes = target == "telemetry";
    assert!(passes, "telemetry target must pass the filter");
}

#[test]
fn test_telemetry_filter_blocks_other_targets() {
    for target in &["thoth::pipeline", "thoth::audio", "tracing", "info"] {
        let passes = *target == "telemetry";
        assert!(!passes, "target '{target}' must be blocked by the telemetry filter");
    }
}

#[test]
fn test_config_with_masked_loki_auth_masks_set_token() {
    let config = Config {
        logging: LoggingConfig { loki_auth: LokiAuth("real_secret_token".to_string()), ..LoggingConfig::default() },
        ..Config::default()
    };
    let masked = config.with_masked_loki_auth();
    assert_eq!(masked.logging.loki_auth.0, LOKI_AUTH_MASK);
}

#[test]
fn test_config_with_masked_loki_auth_leaves_empty_token_alone() {
    let config = Config::default();
    let masked = config.with_masked_loki_auth();
    assert!(masked.logging.loki_auth.0.is_empty());
}

#[test]
fn test_loki_auth_is_masked_or_empty() {
    assert!(LokiAuth(String::new()).is_masked_or_empty());
    assert!(LokiAuth(LOKI_AUTH_MASK.to_string()).is_masked_or_empty());
    assert!(!LokiAuth("real_token".to_string()).is_masked_or_empty());
}

#[test]
fn test_set_config_preserves_loki_auth_on_empty_incoming() {
    let mut current = Config::default();
    current.logging.loki_auth = LokiAuth("stored_token".to_string());
    let incoming = Config::default();
    assert!(incoming.logging.loki_auth.0.is_empty());
    let incoming = preserve_stored_settings(incoming, &current);
    assert_eq!(incoming.logging.loki_auth.0, "stored_token");
}

#[test]
fn test_set_config_preserves_loki_auth_on_mask_sentinel_incoming() {
    let mut current = Config::default();
    current.logging.loki_auth = LokiAuth("stored_token_xyz".to_string());
    let mut incoming = Config::default();
    incoming.logging.loki_auth = LokiAuth(LOKI_AUTH_MASK.to_string());
    let incoming = preserve_stored_settings(incoming, &current);
    assert_eq!(incoming.logging.loki_auth.0, "stored_token_xyz");
}

#[test]
fn an_explicit_new_token_replaces_the_stored_one() {
    let mut current = Config::default();
    current.logging.loki_auth = LokiAuth("old".to_string());
    let mut incoming = Config::default();
    incoming.logging.loki_auth = LokiAuth("new".to_string());
    let incoming = preserve_stored_settings(incoming, &current);
    assert_eq!(incoming.logging.loki_auth.0, "new");
}

#[test]
fn a_tray_chosen_prompt_survives_a_generic_save_of_the_default() {
    let mut current = Config::default();
    set_prompt_config(&mut current, "summarise".to_string());
    let incoming = preserve_stored_settings(Config::default(), &current);
    assert_eq!(incoming.enhancement.prompt_id, "summarise");
}

#[test]
fn early_logging_falls_back_to_the_defaults() {
    let cfg = read_logging_config_early(None);
    assert_eq!(cfg.local_retention_days, 7);
    let mut stored = Config::default();
    stored.logging.local_retention_days = 30;
    assert_eq!(read_logging_config_early(Some(stored)).local_retention_days, 30);
}

#[test]
fn setting_the_loki_token_touches_nothing_else() {
    let mut cfg = thoth::config::Config::default();
    cfg.logging.loki_url = "https://loki.example".to_string();
    thoth::config::set_loki_auth_config(&mut cfg, Some("secret".to_string()));
    assert_eq!(cfg.logging.loki_auth.0, "secret");
    assert_eq!(cfg.logging.loki_url, "https://loki.example");
    thoth::config::set_loki_auth_config(&mut cfg, None);
    assert_eq!(cfg.logging.loki_auth.0, "");
}

#[test]
fn logging_config_debug_lists_every_field_in_order() {
    let cfg = LoggingConfig {
        local_retention_days: 7,
        remote_enabled: false,
        loki_url: "http://loki:3100".to_string(),
        loki_auth: LokiAuth("tok".to_string()),
        loki_tenant: Some("te\"am".to_string()),
        loki_labels: vec![["app".to_string(), "thoth".to_string()], ["env".to_string(), "dev".to_string()]],
        telemetry_level: "info".to_string(),
    };
    assert_eq!(
        cfg.debug_string(),
        "LoggingConfig { local_retention_days: 7, remote_enabled: false, loki_url: \"http://loki:3100\", \
         loki_auth: \"***redacted***\", loki_tenant: Some(\"te\\\"am\"), loki_labels: [[\"app\", \"thoth\"], \
         [\"env\", \"dev\"]], telemetry_level: \"info\" }"
    );
    let cfg = LoggingConfig { loki_tenant: None, loki_labels: vec![], remote_enabled: true, ..cfg };
    let s = cfg.debug_string();
    assert!(s.contains("remote_enabled: true, "), "got: {s}");
    assert!(s.contains("loki_tenant: None, loki_labels: [], "), "got: {s}");
}
