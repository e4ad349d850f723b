//! Text enhancement: which backend is active, the settings of an
//! OpenAI-compatible endpoint, its error texts and retry policy, and the
//! text that is sent for enhancement.
use vstd::prelude::*;
use vstd::string::StringExecFns;
use vstd::arithmetic::power2::pow2;
use crate::text::{decimal, replace_all, spec_to_lowercase, starts_with, str_chars, str_eq, str_replace, to_lowercase, u64_to_decimal};

verus! {

broadcast use vstd::string::group_string_axioms;

/// Default timeout for API requests, in seconds.
pub const DEFAULT_TIMEOUT_SECS: u64 = 30;

/// Maximum number of attempts at one request.
pub const MAX_RETRY_ATTEMPTS: u32 = 3;

/// Base delay for exponential backoff, in milliseconds.
pub const BASE_RETRY_DELAY_MS: u64 = 100;

/// The enhancement context: clipboard content, when there is some, framed
/// before the transcription; otherwise the transcription alone.
pub open spec fn spec_build_context(transcription: Seq<char>, clipboard: Option<Seq<char>>) -> Seq<char> {
    match clipboard {
        Some(clip) => if clip.len() > 0 {
            "[Context from clipboard]\n"@ + clip + "\n\n[Transcription to enhance]\n"@ + transcription
        } else {
            transcription
        },
        None => transcription,
    }
}

/// Build the text handed to enhancement from a transcription and optional
/// clipboard content.
pub fn build_context(transcription: &str, clipboard: Option<&str>) -> (r: String)
    ensures
        r@ == spec_build_context(transcription@, match clipboard {
            Some(c) => Some(c@),
            None => None,
        }),
{
    match clipboard {
        Some(clip) => {
            if clip.unicode_len() > 0 {
                proof {
                    reveal_strlit("[Context from clipboard]\n");
                    reveal_strlit("\n\n[Transcription to enhance]\n");
                }
                let mut r = String::from_str("[Context from clipboard]\n");
                r.append(clip);
                r.append("\n\n[Transcription to enhance]\n");
                r.append(transcription);
                r
            } else {
                String::from_str(transcription)
            }
        },
        None => String::from_str(transcription),
    }
}

/// What a clipboard read contributes: its text, unless it is empty.
pub fn clipboard_text(read: Option<String>) -> (r: Option<String>)
    ensures
        match read {
            Some(t) => if t@.len() > 0 { r == Some(t) } else { r is None },
            None => r is None,
        },
{
    match read {
        Some(t) => if t.as_str().unicode_len() > 0 { Some(t) } else { None },
        None => None,
    }
}

/// Error types for operations against an OpenAI-compatible endpoint.
#[derive(Debug)]
pub enum OpenAiCompatError {
    /// The base URL was refused.
    InvalidUrl(String),
    /// The connection failed.
    ConnectionFailed(String),
    /// The request timed out after this many seconds.
    Timeout(u64),
    /// The server answered with an error status.
    ServerError { status: u16, message: String },
    /// The response held no choices.
    EmptyChoices,
    /// The response could not be parsed.
    ParseError(String),
    /// Every attempt failed.
    RetriesExhausted { attempts: u32, last_error: String },
}

/// The text of an error.
pub open spec fn error_text(e: OpenAiCompatError) -> Seq<char> {
    match e {
        OpenAiCompatError::InvalidUrl(s) => "Invalid base URL: "@ + s@,
        OpenAiCompatError::ConnectionFailed(s) => "Connection failed: "@ + s@,
        OpenAiCompatError::Timeout(n) => "Request timeout after "@ + decimal(n as nat) + " seconds"@,
        OpenAiCompatError::ServerError { status, message } => "Server error ("@ + decimal(status as nat) + "): "@
            + message@,
        OpenAiCompatError::EmptyChoices => "Empty response: no choices returned"@,
        OpenAiCompatError::ParseError(s) => "Failed to parse response: "@ + s@,
        OpenAiCompatError::RetriesExhausted { attempts, last_error } => "All "@ + decimal(attempts as nat)
            + " retry attempts failed: "@ + last_error@,
    }
}

impl OpenAiCompatError {
    /// The error's text.
    pub fn to_string(&self) -> (r: String)
        ensures
            r@ == error_text(*self),
    {
        match self {
            OpenAiCompatError::InvalidUrl(s) => {
                proof { reveal_strlit("Invalid base URL: "); }
                let mut r = String::from_str("Invalid base URL: ");
                r.append(s.as_str());
                r
            },
            OpenAiCompatError::ConnectionFailed(s) => {
                proof { reveal_strlit("Connection failed: "); }
                let mut r = String::from_str("Connection failed: ");
                r.append(s.as_str());
                r
            },
            OpenAiCompatError::Timeout(n) => {
                proof {
                    reveal_strlit("Request timeout after ");
                    reveal_strlit(" seconds");
                }
                let mut r = String::from_str("Request timeout after ");
                let d = u64_to_decimal(*n);
                r.append(d.as_str());
                r.append(" seconds");
                r
            },
            OpenAiCompatError::ServerError { status, message } => {
                proof {
                    reveal_strlit("Server error (");
                    reveal_strlit("): ");
                }
                let mut r = String::from_str("Server error (");
                let d = u64_to_decimal(*status as u64);
                r.append(d.as_str());
                r.append("): ");
                r.append(message.as_str());
                r
            },
            OpenAiCompatError::EmptyChoices => {
                proof { reveal_strlit("Empty response: no choices returned"); }
                String::from_str("Empty response: no choices returned")
            },
            OpenAiCompatError::ParseError(s) => {
                proof { reveal_strlit("Failed to parse response: "); }
                let mut r = String::from_str("Failed to parse response: ");
                r.append(s.as_str());
                r
            },
            OpenAiCompatError::RetriesExhausted { attempts, last_error } => {
                proof {
                    reveal_strlit("All ");
                    reveal_strlit(" retry attempts failed: ");
                }
                let mut r = String::from_str("All ");
                let d = u64_to_decimal(*attempts as u64);
                r.append(d.as_str());
                r.append(" retry attempts failed: ");
                r.append(last_error.as_str());
                r
            },
        }
    }
}

/// A lowercased URL begins with a supported scheme.
pub open spec fn scheme_supported(lower: Seq<char>) -> bool {
    starts_with(lower, "http://"@) || starts_with(lower, "https://"@)
}

/// Whether an already lowercased URL begins with `http://` or `https://`.
pub fn scheme_is_supported(lower: &str) -> (r: bool)
    ensures
        r == scheme_supported(lower@),
{
    proof {
        reveal_strlit("http://");
        reveal_strlit("https://");
    }
    let l = str_chars(lower);
    let a = str_chars("http://");
    let b = str_chars("https://");
    crate::text::chars_start_with(l.as_slice(), a.as_slice()) || crate::text::chars_start_with(
        l.as_slice(),
        b.as_slice(),
    )
}

/// `s` without its trailing `/` characters.
pub open spec fn trim_trailing_slashes(s: Seq<char>) -> Seq<char>
    decreases s.len(),
{
    if s.len() > 0 && s.last() == '/' {
        trim_trailing_slashes(s.drop_last())
    } else {
        s
    }
}

/// Remove every trailing `/`.
pub fn strip_trailing_slashes(s: &str) -> (r: String)
    ensures
        r@ == trim_trailing_slashes(s@),
{
    let mut v = str_chars(s);
    let mut n = v.len();
    assert(v@.take(n as int) =~= s@);
    while n > 0 && v[n - 1] == '/'
        invariant
            n <= v@.len(),
            trim_trailing_slashes(v@.take(n as int)) == trim_trailing_slashes(s@),
            v@ == s@,
        decreases n,
    {
        assert(v@.take(n as int).drop_last() =~= v@.take(n - 1));
        n = n - 1;
    }
    assert(trim_trailing_slashes(v@.take(n as int)) == v@.take(n as int));
    v.truncate(n);
    assert(v@ =~= trim_trailing_slashes(s@));
    crate::text::chars_to_string(v.as_slice())
}

/// The message of the error for a refused base URL.
pub open spec fn invalid_url_detail(base_url: Seq<char>) -> Seq<char> {
    "Base URL must use http:// or https://, got: "@ + base_url
}

/// Settings of a client for an OpenAI-compatible `/v1/chat/completions`
/// endpoint: the base URL (without trailing slashes), an optional API key sent
/// as a bearer token, and the request timeout.
pub struct OpenAiCompatClient {
    /// Base URL, without trailing `/`.
    pub base_url: String,
    /// Optional API key.
    pub api_key: Option<String>,
    /// Request timeout, in seconds.
    pub timeout_secs: u64,
}

impl OpenAiCompatClient {
    /// Create a client with the default timeout.
    pub fn new(base_url: String, api_key: Option<String>) -> (r: Result<Self, OpenAiCompatError>)
        ensures
            scheme_supported(spec_to_lowercase(base_url@)) ==> (r matches Ok(c) && c.base_url@
                == trim_trailing_slashes(base_url@) && c.api_key == api_key && c.timeout_secs
                == DEFAULT_TIMEOUT_SECS),
            !scheme_supported(spec_to_lowercase(base_url@)) ==> (r matches Err(OpenAiCompatError::InvalidUrl(m))
                && m@ == invalid_url_detail(base_url@)),
    {
        Self::with_timeout(base_url, api_key, DEFAULT_TIMEOUT_SECS)
    }

    /// Create a client with an explicit timeout. Only `http://` and
    /// `https://` base URLs, in any letter case, are accepted.
    pub fn with_timeout(base_url: String, api_key: Option<String>, timeout_secs: u64) -> (r: Result<
        Self,
        OpenAiCompatError,
    >)
        ensures
            scheme_supported(spec_to_lowercase(base_url@)) ==> (r matches Ok(c) && c.base_url@
                == trim_trailing_slashes(base_url@) && c.api_key == api_key && c.timeout_secs == timeout_secs),
            !scheme_supported(spec_to_lowercase(base_url@)) ==> (r matches Err(OpenAiCompatError::InvalidUrl(m))
                && m@ == invalid_url_detail(base_url@)),
    {
        let lower = to_lowercase(base_url.as_str());
        if !scheme_is_supported(lower.as_str()) {
            proof {
                reveal_strlit("Base URL must use http:// or https://, got: ");
            }
            let mut m = String::from_str("Base URL must use http:// or https://, got: ");
            m.append(base_url.as_str());
            return Err(OpenAiCompatError::InvalidUrl(m));
        }
        Ok(OpenAiCompatClient { base_url: strip_trailing_slashes(base_url.as_str()), api_key, timeout_secs })
    }
}

/// The chat-completions endpoint under a base URL.
pub fn chat_completions_url(base_url: &str) -> (r: String)
    ensures
        r@ == base_url@ + "/v1/chat/completions"@,
{
    let mut r = String::from_str(base_url);
    r.append("/v1/chat/completions");
    r
}

/// The model-listing endpoint under a base URL, also used to probe
/// availability.
pub fn models_url(base_url: &str) -> (r: String)
    ensures
        r@ == base_url@ + "/v1/models"@,
{
    let mut r = String::from_str(base_url);
    r.append("/v1/models");
    r
}

/// The error for a request that got no response: a timeout, reported with
/// the client's timeout in seconds, or else a connection failure with its
/// text.
pub fn request_failure(timed_out: bool, timeout_secs: u64, detail: String) -> (r: OpenAiCompatError)
    ensures
        timed_out ==> r == OpenAiCompatError::Timeout(timeout_secs),
        !timed_out ==> r == OpenAiCompatError::ConnectionFailed(detail),
{
    if timed_out {
        OpenAiCompatError::Timeout(timeout_secs)
    } else {
        OpenAiCompatError::ConnectionFailed(detail)
    }
}

/// The error for a response with a non-success status: the status with the
/// body's text, or `unknown error` when the body could not be read.
pub fn status_failure(status: u16, body: Option<String>) -> (r: OpenAiCompatError)
    ensures
        r matches OpenAiCompatError::ServerError { status: s, message } && s == status && message@ == match body {
            Some(b) => b@,
            None => "unknown error"@,
        },
{
    let message = match body {
        Some(b) => b,
        None => String::from_str("unknown error"),
    };
    OpenAiCompatError::ServerError { status, message }
}

/// The reply: the content of the first choice, or `EmptyChoices` when the
/// response held none.
pub fn first_choice(contents: Vec<String>) -> (r: Result<String, OpenAiCompatError>)
    ensures
        contents@.len() > 0 ==> r == Ok::<String, OpenAiCompatError>(contents@[0]),
        contents@.len() == 0 ==> r == Err::<String, OpenAiCompatError>(OpenAiCompatError::EmptyChoices),
{
    let mut contents = contents;
    if contents.len() == 0 {
        return Err(OpenAiCompatError::EmptyChoices);
    }
    Ok(contents.swap_remove(0))
}

/// Whether a failed attempt is worth repeating: connection failures,
/// timeouts and server errors with a status of 500 or more are.
pub open spec fn spec_is_retryable(e: OpenAiCompatError) -> bool {
    match e {
        OpenAiCompatError::ConnectionFailed(_) => true,
        OpenAiCompatError::Timeout(_) => true,
        OpenAiCompatError::ServerError { status, .. } => status >= 500,
        _ => false,
    }
}

/// Whether a failed attempt is worth repeating.
pub fn is_retryable(e: &OpenAiCompatError) -> (r: bool)
    ensures
        r == spec_is_retryable(*e),
{
    match e {
        OpenAiCompatError::ConnectionFailed(_) => true,
        OpenAiCompatError::Timeout(_) => true,
        OpenAiCompatError::ServerError { status, .. } => *status >= 500,
        _ => false,
    }
}

/// The backoff before attempt `attempt + 1`: 100 ms doubled per attempt.
pub open spec fn spec_retry_delay_ms(attempt: nat) -> int {
    BASE_RETRY_DELAY_MS * pow2(attempt)
}

/// The backoff, in milliseconds, after failed attempt `attempt` (counted from
/// zero).
pub fn retry_delay_ms(attempt: u32) -> (r: u64)
    requires
        spec_retry_delay_ms(attempt as nat) <= u64::MAX,
    ensures
        r == spec_retry_delay_ms(attempt as nat),
{
    let mut d: u64 = BASE_RETRY_DELAY_MS;
    let mut i: u32 = 0;
    proof {
        vstd::arithmetic::power2::lemma2_to64();
    }
    while i < attempt
        invariant
            i <= attempt,
            d == spec_retry_delay_ms(i as nat),
            spec_retry_delay_ms(attempt as nat) <= u64::MAX,
        decreases attempt - i,
    {
        proof {
            vstd::arithmetic::power2::lemma_pow2_unfold((i + 1) as nat);
            if i + 1 < attempt {
                vstd::arithmetic::power2::lemma_pow2_strictly_increases((i + 1) as nat, attempt as nat);
            }
        }
        d = d * 2;
        i = i + 1;
    }
    d
}

/// What to do after a failed attempt.
#[derive(Debug, Clone, Copy, PartialEq, Eq, Structural)]
pub enum RetryDecision {
    /// Wait this many milliseconds, then try again.
    Retry { delay_ms: u64 },
    /// Stop trying.
    GiveUp,
}

/// After failed attempt `attempt` (from zero) with error `e`: give up when
/// the error is not worth repeating or this was the last attempt, else wait
/// out the backoff.
pub fn after_failure(attempt: u32, e: &OpenAiCompatError) -> (r: RetryDecision)
    requires
        attempt < MAX_RETRY_ATTEMPTS,
    ensures
        (!spec_is_retryable(*e) || attempt == MAX_RETRY_ATTEMPTS - 1) ==> r == RetryDecision::GiveUp,
        (spec_is_retryable(*e) && attempt < MAX_RETRY_ATTEMPTS - 1) ==> r == (RetryDecision::Retry {
            delay_ms: spec_retry_delay_ms(attempt as nat) as u64,
        }),
{
    if !is_retryable(e) || attempt == MAX_RETRY_ATTEMPTS - 1 {
        RetryDecision::GiveUp
    } else {
        proof {
            vstd::arithmetic::power2::lemma2_to64();
        }
        RetryDecision::Retry { delay_ms: retry_delay_ms(attempt) }
    }
}

/// The error reported once attempts stop: it counts every allowed attempt
/// and carries the text of the last error, or `unknown`.
pub fn exhausted_error(last: Option<OpenAiCompatError>) -> (r: OpenAiCompatError)
    ensures
        r matches OpenAiCompatError::RetriesExhausted { attempts, last_error } && attempts == MAX_RETRY_ATTEMPTS
            && last_error@ == match last {
            Some(e) => error_text(e),
            None => "unknown"@,
        },
{
    let last_error = match &last {
        Some(e) => e.to_string(),
        None => String::from_str("unknown"),
    };
    OpenAiCompatError::RetriesExhausted { attempts: MAX_RETRY_ATTEMPTS, last_error }
}

/// The user message sent for enhancement: the template with every `{text}`
/// replaced by the transcript.
pub fn render_prompt(prompt_template: &str, text: &str) -> (r: String)
    ensures
        r@ == replace_all(prompt_template@, "{text}"@, text@),
{
    proof {
        reveal_strlit("{text}");
    }
    str_replace(prompt_template, "{text}", text)
}

/// Check an enhancement request: the text and the model must be non-empty,
/// checked in that order.
pub fn validate_enhance_request(text: &str, model: &str) -> (r: Result<(), String>)
    ensures
        text@.len() == 0 ==> (r matches Err(e) && e@ == "Text cannot be empty"@),
        text@.len() > 0 && model@.len() == 0 ==> (r matches Err(e) && e@ == "Model cannot be empty"@),
        text@.len() > 0 && model@.len() > 0 ==> r is Ok,
{
    if text.unicode_len() == 0 {
        return Err(String::from_str("Text cannot be empty"));
    }
    if model.unicode_len() == 0 {
        return Err(String::from_str("Model cannot be empty"));
    }
    Ok(())
}

/// Which enhancement backend is active.
#[derive(Debug, Clone, Copy, PartialEq, Eq, Structural)]
pub enum BackendType {
    /// A local Ollama server.
    Ollama,
    /// Any OpenAI-compatible endpoint.
    OpenAiCompat,
}

/// The active backend configuration.
pub struct EnhancementBackend {
    /// Which backend is active.
    pub backend_type: BackendType,
    /// The Ollama base URL, once one has been configured.
    pub ollama_url: Option<String>,
    /// The OpenAI-compatible client, when that backend is active.
    pub openai_compat: Option<OpenAiCompatClient>,
}

impl EnhancementBackend {
    /// Ollama, at its client's default URL, with no OpenAI-compatible client.
    pub fn new() -> (r: Self)
        ensures
            r.backend_type == BackendType::Ollama,
            r.ollama_url is None,
            r.openai_compat is None,
    {
        EnhancementBackend { backend_type: BackendType::Ollama, ollama_url: None, openai_compat: None }
    }

    /// The OpenAI-compatible client, or the error text when it is not
    /// configured.
    pub fn openai_compat_client(&self) -> (r: Result<&OpenAiCompatClient, String>)
        ensures
            match self.openai_compat {
                Some(c) => r == Ok::<&OpenAiCompatClient, String>(&c),
                None => r matches Err(e) && e@ == "OpenAI-compatible backend not configured"@,
            },
    {
        match &self.openai_compat {
            Some(c) => Ok(c),
            None => Err(String::from_str("OpenAI-compatible backend not configured")),
        }
    }
}

/// Configure the active enhancement backend and return the backend that was
/// activated. The Ollama URL is always updated. `"openai_compat"` activates an
/// OpenAI-compatible client when its URL is accepted and falls back to Ollama
/// when it is not; any other name activates Ollama.
pub fn configure_backend(
    state: &mut EnhancementBackend,
    backend: &str,
    ollama_url: &str,
    openai_compat_url: &str,
    api_key: Option<&str>,
) -> (r: BackendType)
    ensures
        r == final(state).backend_type,
        final(state).ollama_url matches Some(u) && u@ == ollama_url@,
        (backend@ == "openai_compat"@ && scheme_supported(spec_to_lowercase(openai_compat_url@))) ==> (r
            == BackendType::OpenAiCompat && (final(state).openai_compat matches Some(c) && (c.base_url@
            == trim_trailing_slashes(openai_compat_url@) && c.timeout_secs == DEFAULT_TIMEOUT_SECS && match api_key {
            Some(k) => (c.api_key matches Some(ck) && ck@ == k@),
            None => c.api_key is None,
        }))),
        !(backend@ == "openai_compat"@ && scheme_supported(spec_to_lowercase(openai_compat_url@))) ==> (r
            == BackendType::Ollama && final(state).openai_compat is None),
{
    state.ollama_url = Some(String::from_str(ollama_url));
    proof {
        reveal_strlit("openai_compat");
    }
    if str_eq(backend, "openai_compat") {
        let key = match api_key {
            Some(k) => Some(String::from_str(k)),
            None => None,
        };
        match OpenAiCompatClient::new(String::from_str(openai_compat_url), key) {
            Ok(client) => {
                state.backend_type = BackendType::OpenAiCompat;
                state.openai_compat = Some(client);
            },
            Err(_) => {
                state.backend_type = BackendType::Ollama;
                state.openai_compat = None;
            },
        }
    } else {
        state.backend_type = BackendType::Ollama;
        state.openai_compat = None;
    }
    state.backend_type
}

} // verus!
