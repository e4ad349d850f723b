use thoth::enhancement::{chat_completions_url, first_choice, models_url, request_failure, status_failure};
use thoth::enhancement::{
    after_failure, build_context, clipboard_text, configure_backend, exhausted_error, is_retryable,
    render_prompt, retry_delay_ms, validate_enhance_request, BackendType, EnhancementBackend,
    OpenAiCompatClient, OpenAiCompatError, RetryDecision,
};

#[test]
fn test_build_context_with_clipboard() {
    let result = build_context("Hello world", Some("Some context"));
    assert!(result.contains("[Context from clipboard]"));
    assert!(result.contains("Some context"));
    assert!(result.contains("[Transcription to enhance]"));
    assert!(result.contains("Hello world"));
    assert_eq!(
        result,
        "[Context from clipboard]\nSome context\n\n[Transcription to enhance]\nHello world"
    );
}

#[test]
fn test_build_context_without_clipboard() {
    let result = build_context("Hello world", None);
    assert_eq!(result, "Hello world");
    assert!(!result.contains("[Context from clipboard]"));
}

#[test]
fn test_build_context_with_empty_clipboard() {
    let result = build_context("Hello world", Some(""));
    assert_eq!(result, "Hello world");
    assert!(!result.contains("[Context from clipboard]"));
}

#[test]
fn an_empty_clipboard_read_contributes_nothing() {
    assert_eq!(clipboard_text(Some(String::new())), None);
    assert_eq!(clipboard_text(None), None);
    assert_eq!(clipboard_text(Some("x".to_string())), Some("x".to_string()));
}

#[test]
fn test_backend_initialises_as_ollama() {
    let mut state = EnhancementBackend::new();
    assert_eq!(state.backend_type, BackendType::Ollama);
    let bt = configure_backend(&mut state, "ollama", "http://localhost:11434", "http://localhost:1234", None);
    assert_eq!(bt, BackendType::Ollama);
    assert_eq!(state.ollama_url.as_deref(), Some("http://localhost:11434"));
}

#[test]
fn test_configure_backend_switches_to_openai_compat() {
    let mut state = EnhancementBackend::new();
    let bt = configure_backend(&mut state, "openai_compat", "http://localhost:11434", "http://localhost:1234", None);
    assert_eq!(bt, BackendType::OpenAiCompat);
    let client = state.openai_compat_client().unwrap();
    assert_eq!(client.base_url, "http://localhost:1234");
    assert_eq!(client.api_key, None);
}

#[test]
fn test_configure_backend_invalid_url_falls_back_to_ollama() {
    let mut state = EnhancementBackend::new();
    let bt = configure_backend(&mut state, "openai_compat", "http://localhost:11434", "file:///bad-scheme", None);
    assert_eq!(bt, BackendType::Ollama);
    assert!(state.openai_compat.is_none());
}

#[test]
fn test_configure_backend_unknown_backend_defaults_to_ollama() {
    let mut state = EnhancementBackend::new();
    let bt = configure_backend(&mut state, "unknown_backend", "http://localhost:11434", "http://localhost:1234", None);
    assert_eq!(bt, BackendType::Ollama);
}

#[test]
fn switching_back_to_ollama_drops_the_compat_client() {
    let mut state = EnhancementBackend::new();
    configure_backend(&mut state, "openai_compat", "http://a", "https://b/", Some("k"));
    assert_eq!(state.openai_compat.as_ref().unwrap().api_key.as_deref(), Some("k"));
    configure_backend(&mut state, "ollama", "http://a", "https://b/", None);
    assert!(state.openai_compat.is_none());
    assert_eq!(
        state.openai_compat_client().err().unwrap(),
        "OpenAI-compatible backend not configured"
    );
}

#[test]
fn test_client_accepts_http_url() {
    let client = OpenAiCompatClient::new("http://localhost:1234".to_string(), None);
    assert!(client.is_ok());
}

#[test]
fn test_client_accepts_https_url() {
    let client = OpenAiCompatClient::new("https://my-server.local:8080".to_string(), None);
    assert!(client.is_ok());
}

#[test]
fn client_scheme_check_ignores_letter_case() {
    assert!(OpenAiCompatClient::new("HTTPS://Host".to_string(), None).is_ok());
}

#[test]
fn test_client_rejects_file_scheme() {
    let client = OpenAiCompatClient::new("file:///etc/passwd".to_string(), None);
    assert!(matches!(client, Err(OpenAiCompatError::InvalidUrl(_))));
}

#[test]
fn test_client_rejects_ssh_scheme() {
    let client = OpenAiCompatClient::new("ssh://host".to_string(), None);
    assert!(matches!(client, Err(OpenAiCompatError::InvalidUrl(_))));
    if let Err(e) = client {
        assert_eq!(e.to_string(), "Invalid base URL: Base URL must use http:// or https://, got: ssh://host");
    }
}

#[test]
fn test_trailing_slash_stripped() {
    let client = OpenAiCompatClient::new("http://localhost:1234/".to_string(), None).unwrap();
    assert_eq!(client.base_url, "http://localhost:1234");
    let client = OpenAiCompatClient::new("http://localhost:1234///".to_string(), None).unwrap();
    assert_eq!(client.base_url, "http://localhost:1234");
    assert_eq!(client.timeout_secs, 30);
}

#[test]
fn test_error_display() {
    let err = OpenAiCompatError::ConnectionFailed("connection refused".to_string());
    assert_eq!(err.to_string(), "Connection failed: connection refused");

    let err = OpenAiCompatError::Timeout(30);
    assert_eq!(err.to_string(), "Request timeout after 30 seconds");

    let err = OpenAiCompatError::ServerError { status: 500, message: "Internal error".to_string() };
    assert_eq!(err.to_string(), "Server error (500): Internal error");

    let err = OpenAiCompatError::EmptyChoices;
    assert_eq!(err.to_string(), "Empty response: no choices returned");

    let err = OpenAiCompatError::RetriesExhausted { attempts: 3, last_error: "timeout".to_string() };
    assert_eq!(err.to_string(), "All 3 retry attempts failed: timeout");

    let err = OpenAiCompatError::ParseError("bad".to_string());
    assert_eq!(err.to_string(), "Failed to parse response: bad");
}

#[test]
fn only_transient_failures_are_retried() {
    assert!(is_retryable(&OpenAiCompatError::ConnectionFailed("x".to_string())));
    assert!(is_retryable(&OpenAiCompatError::Timeout(1)));
    assert!(is_retryable(&OpenAiCompatError::ServerError { status: 503, message: String::new() }));
    assert!(!is_retryable(&OpenAiCompatError::ServerError { status: 404, message: String::new() }));
    assert!(!is_retryable(&OpenAiCompatError::EmptyChoices));
    assert!(!is_retryable(&OpenAiCompatError::ParseError("x".to_string())));
}

#[test]
fn backoff_doubles_from_one_hundred_milliseconds() {
    assert_eq!(retry_delay_ms(0), 100);
    assert_eq!(retry_delay_ms(1), 200);
    assert_eq!(retry_delay_ms(2), 400);
}

#[test]
fn the_last_attempt_gives_up() {
    let e = OpenAiCompatError::Timeout(30);
    assert_eq!(after_failure(0, &e), RetryDecision::Retry { delay_ms: 100 });
    assert_eq!(after_failure(1, &e), RetryDecision::Retry { delay_ms: 200 });
    assert_eq!(after_failure(2, &e), RetryDecision::GiveUp);
    assert_eq!(after_failure(0, &OpenAiCompatError::EmptyChoices), RetryDecision::GiveUp);
    let done = exhausted_error(Some(e));
    assert_eq!(done.to_string(), "All 3 retry attempts failed: Request timeout after 30 seconds");
    assert_eq!(exhausted_error(None).to_string(), "All 3 retry attempts failed: unknown");
}

#[test]
fn the_placeholder_is_substituted_in_the_user_message() {
    assert_eq!(render_prompt("Fix: {text}", "hi"), "Fix: hi");
    assert_eq!(validate_enhance_request("", "m").unwrap_err(), "Text cannot be empty");
    assert_eq!(validate_enhance_request("t", "").unwrap_err(), "Model cannot be empty");
    assert!(validate_enhance_request("t", "m").is_ok());
}

#[test]
fn endpoints_hang_off_the_base_url() {
    assert_eq!(chat_completions_url("http://localhost:1234"), "http://localhost:1234/v1/chat/completions");
    assert_eq!(models_url("https://h"), "https://h/v1/models");
}

#[test]
fn responses_map_to_their_errors() {
    assert_eq!(request_failure(true, 30, "x".to_string()).to_string(), "Request timeout after 30 seconds");
    assert_eq!(request_failure(false, 30, "refused".to_string()).to_string(), "Connection failed: refused");
    assert_eq!(status_failure(502, Some("bad gateway".to_string())).to_string(), "Server error (502): bad gateway");
    assert_eq!(status_failure(500, None).to_string(), "Server error (500): unknown error");
    assert_eq!(first_choice(vec!["a".to_string(), "b".to_string()]).unwrap(), "a");
    assert!(matches!(first_choice(vec![]), Err(OpenAiCompatError::EmptyChoices)));
}
