//! Configuration model for Thoth: the settings structure with its defaults,
//! schema migration, the token mask used when settings leave the process,
//! and the rule by which a generic settings save keeps values the caller did
//! not mean to clear.
use vstd::prelude::*;
use crate::text::{u64_to_decimal, decimal, str_eq};
use vstd::string::StringExecFns;

verus! {

broadcast use vstd::string::group_string_axioms;

/// Current config schema version.
pub const CURRENT_VERSION: u32 = 1;

/// Integrations configuration (Local Control API, MCP server).
#[derive(Debug, Clone)]
pub struct IntegrationsConfig {
    /// Whether the Local Control API HTTP server is enabled.
    pub api_enabled: bool,
    /// Port for the Local Control API.
    pub api_port: u16,
    /// Whether the MCP server is enabled.
    pub mcp_enabled: bool,
}

/// Default port for the Local Control API.
pub fn default_api_port() -> (r: u16)
    ensures
        r == 8765,
{
    8765
}

impl Default for IntegrationsConfig {
    fn default() -> (r: Self)
        ensures
            r.api_enabled,
            r.api_port == 8765,
            r.mcp_enabled,
    {
        IntegrationsConfig { api_enabled: true, api_port: default_api_port(), mcp_enabled: true }
    }
}

/// The mask returned in place of a stored Loki token.
pub const LOKI_AUTH_MASK: &'static str = "***";

/// The mask's characters.
pub open spec fn mask_chars() -> Seq<char> {
    seq!['*', '*', '*']
}

/// Wrapper for the Loki authorization token, kept out of debug output.
#[derive(Clone)]
pub struct LokiAuth(pub String);

impl LokiAuth {
    /// An empty token.
    pub fn empty() -> (r: Self)
        ensures
            r.0@ == Seq::<char>::empty(),
    {
        LokiAuth(String::new())
    }

    /// Whether the value is the mask sentinel or empty.
    pub fn is_masked_or_empty(&self) -> (r: bool)
        ensures
            r == (self.0@.len() == 0 || self.0@ == mask_chars()),
    {
        proof {
            reveal_strlit("***");
        }
        let lit = "***";
        assert(lit@ =~= mask_chars());
        let mask = String::from_str(lit);
        assert(mask@ == mask_chars());
        self.0.as_str().is_empty() || self.0 == mask
    }

    /// The debug rendering: `""` when empty, a redaction marker otherwise;
    /// never the token itself.
    pub fn debug_string(&self) -> (r: String)
        ensures
            self.0@.len() == 0 ==> r@ == seq!['"', '"'],
            self.0@.len() != 0 ==> r@ == "\"***redacted***\""@,
    {
        proof {
            reveal_strlit("\"\"");
            reveal_strlit("\"***redacted***\"");
        }
        if self.0.as_str().is_empty() {
            String::from_str("\"\"")
        } else {
            String::from_str("\"***redacted***\"")
        }
    }
}

} // verus!

verus! {

/// Logging and telemetry configuration.
#[derive(Clone)]
pub struct LoggingConfig {
    /// Number of daily rolling log files to retain locally.
    pub local_retention_days: u32,
    /// Whether to forward telemetry events to a remote Loki instance.
    pub remote_enabled: bool,
    /// Loki push endpoint URL.
    pub loki_url: String,
    /// Authorization header value; stored locally, never logged.
    pub loki_auth: LokiAuth,
    /// Optional X-Scope-OrgID tenant header value.
    pub loki_tenant: Option<String>,
    /// Additional Loki stream labels.
    pub loki_labels: Vec<[String; 2]>,
    /// Minimum tracing level for telemetry events.
    pub telemetry_level: String,
}

/// Default number of days of local logs kept.
pub fn default_local_retention_days() -> (r: u32)
    ensures
        r == 7,
{
    7
}

/// Default telemetry level.
pub fn default_telemetry_level() -> (r: String)
    ensures
        r@ == "info"@,
{
    "info".to_string()
}

impl Default for LoggingConfig {
    fn default() -> (r: Self)
        ensures
            r.local_retention_days == 7,
            !r.remote_enabled,
            r.loki_url@.len() == 0,
            r.loki_auth.0@.len() == 0,
            r.loki_tenant is None,
            r.loki_labels@.len() == 0,
            r.telemetry_level@ == "info"@,
    {
        LoggingConfig {
            local_retention_days: default_local_retention_days(),
            remote_enabled: false,
            loki_url: String::new(),
            loki_auth: LokiAuth::empty(),
            loki_tenant: None,
            loki_labels: Vec::new(),
            telemetry_level: default_telemetry_level(),
        }
    }
}

/// std's `Debug` rendering of a string: the text in double quotes, with
/// quotes, backslashes and control characters escaped.
pub uninterp spec fn spec_debug_text(s: Seq<char>) -> Seq<char>;

/// The `Debug` rendering of a string.
///
/// Wraps `format!("{:?}", s)`, that is `<str as Debug>::fmt`, which `String`
/// uses too. The result depends on the text alone, which the contract names.
#[verifier::external_body]
fn debug_text(s: &str) -> (r: String)
    ensures
        r@ == spec_debug_text(s@),
{
    format!("{:?}", s)
}

/// An optional string by its characters.
pub open spec fn opt_string_view(o: Option<String>) -> Option<Seq<char>> {
    match o {
        Some(s) => Some(s@),
        None => None,
    }
}

/// Label pairs by their characters.
pub open spec fn labels_view(v: Vec<[String; 2]>) -> Seq<(Seq<char>, Seq<char>)> {
    Seq::new(v@.len(), |i: int| (v@[i][0]@, v@[i][1]@))
}

/// `true` or `false`.
pub open spec fn bool_text(b: bool) -> Seq<char> {
    if b {
        "true"@
    } else {
        "false"@
    }
}

/// The rendering of an optional string: `None`, or `Some(..)` around the
/// string's rendering.
pub open spec fn debug_opt_text(o: Option<Seq<char>>) -> Seq<char> {
    match o {
        None => "None"@,
        Some(t) => "Some("@ + spec_debug_text(t) + ")"@,
    }
}

/// The rendering of one label pair: `[name, value]`.
pub open spec fn debug_pair(p: (Seq<char>, Seq<char>)) -> Seq<char> {
    "["@ + spec_debug_text(p.0) + ", "@ + spec_debug_text(p.1) + "]"@
}

/// The renderings of the label pairs, separated by `, `.
pub open spec fn join_pairs(l: Seq<(Seq<char>, Seq<char>)>) -> Seq<char>
    decreases l.len(),
{
    if l.len() == 0 {
        Seq::empty()
    } else if l.len() == 1 {
        debug_pair(l[0])
    } else {
        join_pairs(l.drop_last()) + ", "@ + debug_pair(l.last())
    }
}

/// The rendering of the label list: its pairs in square brackets.
pub open spec fn debug_labels(l: Seq<(Seq<char>, Seq<char>)>) -> Seq<char> {
    "["@ + join_pairs(l) + "]"@
}

/// The debug text of a logging configuration, `auth` being the token's
/// (redacted) rendering: the struct's name and each field, in order, as
/// `name: value` between `{ ` and ` }`.
pub open spec fn spec_logging_debug(
    days: u32,
    remote: bool,
    url: Seq<char>,
    auth: Seq<char>,
    tenant: Option<Seq<char>>,
    labels: Seq<(Seq<char>, Seq<char>)>,
    level: Seq<char>,
) -> Seq<char> {
    "LoggingConfig { local_retention_days: "@ + decimal(days as nat) + ", remote_enabled: "@ + bool_text(remote)
        + ", loki_url: "@ + spec_debug_text(url) + ", loki_auth: "@ + auth + ", loki_tenant: "@ + debug_opt_text(
        tenant,
    ) + ", loki_labels: "@ + debug_labels(labels) + ", telemetry_level: "@ + spec_debug_text(level) + " }"@
}

fn render_labels(labels: &Vec<[String; 2]>) -> (r: String)
    ensures
        r@ == debug_labels(labels_view(*labels)),
{
    let ghost lv = labels_view(*labels);
    let mut inner = String::new();
    let mut i: usize = 0;
    assert(lv.take(0) =~= Seq::<(Seq<char>, Seq<char>)>::empty());
    while i < labels.len()
        invariant
            i <= labels@.len(),
            lv == labels_view(*labels),
            lv.len() == labels@.len(),
            inner@ == join_pairs(lv.take(i as int)),
        decreases labels@.len() - i,
    {
        let mut pair = String::from_str("[");
        pair.append(debug_text(labels[i][0].as_str()).as_str());
        pair.append(", ");
        pair.append(debug_text(labels[i][1].as_str()).as_str());
        pair.append("]");
        assert(lv[i as int] == (labels@[i as int][0]@, labels@[i as int][1]@));
        assert(pair@ == debug_pair(lv[i as int]));
        assert(lv.take(i + 1).drop_last() =~= lv.take(i as int));
        assert(lv.take(i + 1).last() == lv[i as int]);
        if i > 0 {
            inner.append(", ");
        }
        inner.append(pair.as_str());
        proof {
            if i == 0 {
                assert(inner@ =~= pair@);
                assert(lv.take(1).len() == 1);
                assert(lv.take(1)[0] == lv[0]);
            }
        }
        i = i + 1;
    }
    assert(lv.take(labels@.len() as int) =~= lv);
    let mut r = String::from_str("[");
    r.append(inner.as_str());
    r.append("]");
    r
}

impl LoggingConfig {
    /// Debug rendering with the Loki token redacted: the struct's name and
    /// each field in order, the token as `""` when empty and as a
    /// redaction marker otherwise, never the token itself.
    pub fn debug_string(&self) -> (r: String)
        ensures
            r@ == spec_logging_debug(
                self.local_retention_days,
                self.remote_enabled,
                self.loki_url@,
                if self.loki_auth.0@.len() == 0 {
                    seq!['"', '"']
                } else {
                    "\"***redacted***\""@
                },
                opt_string_view(self.loki_tenant),
                labels_view(self.loki_labels),
                self.telemetry_level@,
            ),
    {
        let auth = self.loki_auth.debug_string();
        let mut r = String::from_str("LoggingConfig { local_retention_days: ");
        r.append(u64_to_decimal(self.local_retention_days as u64).as_str());
        r.append(", remote_enabled: ");
        if self.remote_enabled {
            r.append("true");
        } else {
            r.append("false");
        }
        r.append(", loki_url: ");
        r.append(debug_text(self.loki_url.as_str()).as_str());
        r.append(", loki_auth: ");
        r.append(auth.as_str());
        r.append(", loki_tenant: ");
        match &self.loki_tenant {
            None => r.append("None"),
            Some(t) => {
                r.append("Some(");
                r.append(debug_text(t.as_str()).as_str());
                r.append(")");
            },
        }
        r.append(", loki_labels: ");
        r.append(render_labels(&self.loki_labels).as_str());
        r.append(", telemetry_level: ");
        r.append(debug_text(self.telemetry_level.as_str()).as_str());
        r.append(" }");
        r
    }
}

/// Audio recording configuration.
#[derive(Debug, Clone)]
pub struct AudioConfig {
    /// Selected audio input device ID (None for system default).
    pub device_id: Option<String>,
    /// Sample rate in Hz.
    pub sample_rate: u32,
    /// Whether to play audio feedback sounds.
    pub play_sounds: bool,
    /// Keep the input stream open between recordings.
    pub warm_stream: bool,
}

impl Default for AudioConfig {
    fn default() -> (r: Self)
        ensures
            r.device_id is None,
            r.sample_rate == 16000,
            r.play_sounds,
            r.warm_stream,
    {
        AudioConfig { device_id: None, sample_rate: 16000, play_sounds: true, warm_stream: true }
    }
}

/// `true`, the default of several switches.
pub fn default_true() -> (r: bool)
    ensures
        r,
{
    true
}

/// Transcription engine configuration.
#[derive(Debug, Clone)]
pub struct TranscriptionConfig {
    /// Selected model ID; None uses the recommended model.
    pub model_id: Option<String>,
    /// Transcription language code.
    pub language: String,
    /// Whether to automatically copy transcription to clipboard.
    pub auto_copy: bool,
    /// Whether to automatically paste transcription at cursor.
    pub auto_paste: bool,
    /// Whether to add space before pasted text.
    pub add_leading_space: bool,
    /// Whether to remove hesitation sounds.
    pub remove_fillers: bool,
    /// Whether to convert US spellings to Australian/British equivalents.
    pub australian_spelling: bool,
    /// Whether to convert spoken number words to digits.
    pub spoken_numbers_to_digits: bool,
    /// Whether to collapse runs of whitespace.
    pub normalise_whitespace: bool,
    /// Whether to fix spacing around punctuation marks.
    pub cleanup_punctuation: bool,
    /// Whether to capitalise the first word of each sentence.
    pub sentence_case: bool,
    /// Whether to convert spoken formatting commands into line breaks.
    pub voice_formatting_commands: bool,
}

impl Default for TranscriptionConfig {
    fn default() -> (r: Self)
        ensures
            r.model_id is None,
            r.language@ == "en"@,
            !r.auto_copy,
            r.auto_paste,
            !r.add_leading_space,
            r.remove_fillers,
            r.australian_spelling,
            !r.spoken_numbers_to_digits,
            r.normalise_whitespace,
            r.cleanup_punctuation,
            !r.sentence_case,
            r.voice_formatting_commands,
    {
        TranscriptionConfig {
            model_id: None,
            language: "en".to_string(),
            auto_copy: false,
            auto_paste: true,
            add_leading_space: false,
            remove_fillers: true,
            australian_spelling: true,
            spoken_numbers_to_digits: false,
            normalise_whitespace: true,
            cleanup_punctuation: true,
            sentence_case: false,
            voice_formatting_commands: true,
        }
    }
}

/// Recording mode options.
#[derive(Debug, Clone, Copy, PartialEq, Eq, Structural)]
pub enum RecordingMode {
    /// Press to start, press again to stop.
    Toggle,
}

impl Default for RecordingMode {
    fn default() -> (r: Self)
        ensures
            r == RecordingMode::Toggle,
    {
        RecordingMode::Toggle
    }
}

/// Keyboard shortcut configuration.
#[derive(Debug, Clone)]
pub struct ShortcutConfig {
    /// Toggle recording shortcut.
    pub toggle_recording: String,
    /// Alternative toggle recording shortcut.
    pub toggle_recording_alt: Option<String>,
    /// Copy last transcription shortcut.
    pub copy_last: Option<String>,
    /// Toggle AI enhancement shortcut.
    pub toggle_enhancement: Option<String>,
    /// Recording mode.
    pub recording_mode: RecordingMode,
}

/// The default alternative recording shortcut.
pub open spec fn default_toggle_alt() -> Seq<char> {
    "ShiftRight"@
}

impl Default for ShortcutConfig {
    fn default() -> (r: Self)
        ensures
            r.toggle_recording@ == "F13"@,
            opt_string_view(r.toggle_recording_alt) == Some("ShiftRight"@),
            opt_string_view(r.copy_last) == Some("F14"@),
            r.toggle_enhancement is None,
            r.recording_mode == RecordingMode::Toggle,
    {
        ShortcutConfig {
            toggle_recording: "F13".to_string(),
            toggle_recording_alt: Some("ShiftRight".to_string()),
            copy_last: Some("F14".to_string()),
            toggle_enhancement: None,
            recording_mode: RecordingMode::default(),
        }
    }
}

/// AI enhancement configuration.
#[derive(Clone)]
pub struct EnhancementConfig {
    /// Whether AI enhancement is enabled.
    pub enabled: bool,
    /// Model name.
    pub model: String,
    /// Selected prompt template ID.
    pub prompt_id: String,
    /// Ollama server URL.
    pub ollama_url: String,
    /// Active backend: "ollama" or "openai_compat".
    pub backend: String,
    /// OpenAI-compatible server base URL.
    pub openai_compat_url: String,
    /// Optional API key for the OpenAI-compatible endpoint.
    pub api_key: Option<String>,
}

/// Default enhancement backend name.
pub fn default_backend() -> (r: String)
    ensures
        r@ == "ollama"@,
{
    "ollama".to_string()
}

/// Default OpenAI-compatible server URL.
pub fn default_openai_compat_url() -> (r: String)
    ensures
        r@ == "http://localhost:1234"@,
{
    "http://localhost:1234".to_string()
}

/// The default prompt id.
pub open spec fn default_prompt_id() -> Seq<char> {
    "fix-grammar"@
}

impl Default for EnhancementConfig {
    fn default() -> (r: Self)
        ensures
            !r.enabled,
            r.model@ == "llama3.2"@,
            r.prompt_id@ == default_prompt_id(),
            r.ollama_url@ == "http://localhost:11434"@,
            r.backend@ == "ollama"@,
            r.openai_compat_url@ == "http://localhost:1234"@,
            r.api_key is None,
    {
        EnhancementConfig {
            enabled: false,
            model: "llama3.2".to_string(),
            prompt_id: "fix-grammar".to_string(),
            ollama_url: "http://localhost:11434".to_string(),
            backend: default_backend(),
            openai_compat_url: default_openai_compat_url(),
            api_key: None,
        }
    }
}

/// Recording indicator visual style.
#[derive(Debug, Clone, Copy, PartialEq, Eq, Structural)]
pub enum IndicatorStyle {
    /// Small dot that follows the mouse cursor.
    CursorDot,
    /// Small stationary window at a fixed screen position.
    FixedFloat,
    /// Elongated bar with waveform visualisation.
    Pill,
}

impl Default for IndicatorStyle {
    fn default() -> (r: Self)
        ensures
            r == IndicatorStyle::CursorDot,
    {
        IndicatorStyle::CursorDot
    }
}

/// General application settings.
#[derive(Debug, Clone)]
pub struct GeneralConfig {
    /// Launch application on system startup.
    pub launch_at_login: bool,
    /// Show menu bar icon.
    pub show_in_menu_bar: bool,
    /// Show dock icon.
    pub show_in_dock: bool,
    /// Automatically check for updates on launch.
    pub check_for_updates: bool,
    /// Show the floating recording indicator during recording.
    pub show_recording_indicator: bool,
    /// Visual style for the recording indicator.
    pub indicator_style: IndicatorStyle,
    /// Show native window decorations.
    pub window_decorations: bool,
    /// App version recorded on the most recent run.
    pub last_run_version: Option<String>,
}

impl Default for GeneralConfig {
    fn default() -> (r: Self)
        ensures
            !r.launch_at_login,
            r.show_in_menu_bar,
            !r.show_in_dock,
            r.check_for_updates,
            r.show_recording_indicator,
            r.indicator_style == IndicatorStyle::CursorDot,
            r.window_decorations,
            r.last_run_version is None,
    {
        GeneralConfig {
            launch_at_login: false,
            show_in_menu_bar: true,
            show_in_dock: false,
            check_for_updates: true,
            show_recording_indicator: true,
            indicator_style: IndicatorStyle::default(),
            window_decorations: true,
            last_run_version: None,
        }
    }
}

/// Recorder window position options.
#[derive(Debug, Clone, Copy, PartialEq, Eq, Structural)]
pub enum RecorderPosition {
    /// Near the cursor when recording starts.
    Cursor,
    /// Near the tray icon.
    TrayIcon,
    /// Top-left corner of the screen.
    TopLeft,
    /// Top-right corner of the screen.
    TopRight,
    /// Bottom-left corner of the screen.
    BottomLeft,
    /// Bottom-right corner of the screen.
    BottomRight,
    /// Centre of the screen.
    Centre,
}

impl Default for RecorderPosition {
    fn default() -> (r: Self)
        ensures
            r == RecorderPosition::TopRight,
    {
        RecorderPosition::TopRight
    }
}

/// Recorder window configuration.
#[derive(Debug, Clone, Copy, PartialEq, Eq, Structural)]
pub struct RecorderConfig {
    /// Window position preference.
    pub position: RecorderPosition,
    /// Horizontal offset from the position anchor, in pixels.
    pub offset_x: i32,
    /// Vertical offset from the position anchor, in pixels.
    pub offset_y: i32,
    /// Auto-hide delay in milliseconds (0 = no auto-hide).
    pub auto_hide_delay: u32,
}

impl Default for RecorderConfig {
    fn default() -> (r: Self)
        ensures
            r == (RecorderConfig {
                position: RecorderPosition::TopRight,
                offset_x: -20i32,
                offset_y: 20i32,
                auto_hide_delay: 3000,
            }),
    {
        RecorderConfig { position: RecorderPosition::default(), offset_x: -20, offset_y: 20, auto_hide_delay: 3000 }
    }
}

/// Main configuration structure.
#[derive(Clone)]
pub struct Config {
    /// Schema version for migrations.
    pub version: u32,
    /// Audio recording settings.
    pub audio: AudioConfig,
    /// Transcription settings.
    pub transcription: TranscriptionConfig,
    /// Keyboard shortcut settings.
    pub shortcuts: ShortcutConfig,
    /// AI enhancement settings.
    pub enhancement: EnhancementConfig,
    /// General application settings.
    pub general: GeneralConfig,
    /// Recorder window settings.
    pub recorder: RecorderConfig,
    /// Integrations settings.
    pub integrations: IntegrationsConfig,
    /// Logging and telemetry settings.
    pub logging: LoggingConfig,
}

impl Default for Config {
    fn default() -> (r: Self)
        ensures
            r.version == CURRENT_VERSION,
            r.audio.device_id is None,
            r.audio.sample_rate == 16000,
            r.transcription.model_id is None,
            r.transcription.language@ == "en"@,
            r.shortcuts.toggle_recording@ == "F13"@,
            opt_string_view(r.shortcuts.toggle_recording_alt) == Some("ShiftRight"@),
            opt_string_view(r.shortcuts.copy_last) == Some("F14"@),
            r.shortcuts.toggle_enhancement is None,
            r.enhancement.prompt_id@ == default_prompt_id(),
            r.enhancement.model@ == "llama3.2"@,
            r.enhancement.api_key is None,
            r.recorder.position == RecorderPosition::TopRight,
            r.logging.loki_auth.0@.len() == 0,
            r.logging.local_retention_days == 7,
            r.integrations.api_port == 8765,
    {
        Config {
            version: CURRENT_VERSION,
            audio: AudioConfig::default(),
            transcription: TranscriptionConfig::default(),
            shortcuts: ShortcutConfig::default(),
            enhancement: EnhancementConfig::default(),
            general: GeneralConfig::default(),
            recorder: RecorderConfig::default(),
            integrations: IntegrationsConfig::default(),
            logging: LoggingConfig::default(),
        }
    }
}

} // verus!

verus! {

/// `a` and `b` agree on everything but the Loki token.
pub open spec fn same_but_loki_auth(a: Config, b: Config) -> bool {
    &&& a.version == b.version
    &&& a.audio == b.audio
    &&& a.transcription == b.transcription
    &&& a.shortcuts == b.shortcuts
    &&& a.enhancement == b.enhancement
    &&& a.general == b.general
    &&& a.recorder == b.recorder
    &&& a.integrations == b.integrations
    &&& a.logging == LoggingConfig { loki_auth: a.logging.loki_auth, ..b.logging }
}

impl Config {
    /// This config with a stored Loki token replaced by the mask, so the real
    /// value never leaves the process. An empty token is left alone.
    pub fn with_masked_loki_auth(self) -> (r: Self)
        ensures
            same_but_loki_auth(r, self),
            self.logging.loki_auth.0@.len() == 0 ==> r.logging.loki_auth == self.logging.loki_auth,
            self.logging.loki_auth.0@.len() != 0 ==> r.logging.loki_auth.0@ == mask_chars(),
    {
        let mut s = self;
        if !s.logging.loki_auth.0.as_str().is_empty() {
            proof {
                reveal_strlit("***");
            }
            let lit = "***";
            assert(lit@ =~= mask_chars());
            s.logging.loki_auth = LokiAuth(String::from_str(lit));
        }
        s
    }
}

/// The error text for a config version with no known migration.
pub open spec fn unknown_version_message(v: u32) -> Seq<char> {
    "Unknown config version: "@ + decimal(v as nat)
}

/// Apply a single migration step: version 0 becomes version 1; any other
/// version has no migration and is refused.
pub fn apply_migration(config: Config) -> (r: Result<Config, String>)
    ensures
        config.version == 0 ==> (r matches Ok(c) && c == (Config { version: 1, ..config })),
        config.version != 0 ==> (r matches Err(e) && e@ == unknown_version_message(config.version)),
{
    if config.version == 0 {
        let mut migrated = config;
        migrated.version = 1;
        Ok(migrated)
    } else {
        let mut msg = String::from_str("Unknown config version: ");
        let digits = u64_to_decimal(config.version as u64);
        msg.append(digits.as_str());
        Err(msg)
    }
}

/// Bring a config up to the current schema by applying migrations in order.
/// A config already at (or past) the current version is returned as is.
pub fn migrate_config(config: Config) -> (r: Result<Config, String>)
    ensures
        config.version < CURRENT_VERSION ==> (r matches Ok(c) && c == (Config { version: CURRENT_VERSION, ..config })),
        config.version >= CURRENT_VERSION ==> (r matches Ok(c) && c == config),
{
    let mut c = config;
    while c.version < CURRENT_VERSION
        invariant
            c == (Config { version: c.version, ..config }),
            config.version < CURRENT_VERSION ==> c.version <= CURRENT_VERSION,
            config.version >= CURRENT_VERSION ==> c == config,
        decreases CURRENT_VERSION - c.version,
    {
        match apply_migration(c) {
            Ok(next) => {
                c = next;
            },
            Err(e) => {
                return Err(e);
            },
        }
    }
    Ok(c)
}

/// The settings a generic save must not clear by omission, by their text.
pub struct GuardedFields {
    pub device_id: Option<Seq<char>>,
    pub model_id: Option<Seq<char>>,
    pub prompt_id: Seq<char>,
    pub toggle_recording_alt: Option<Seq<char>>,
    pub toggle_enhancement: Option<Seq<char>>,
    pub copy_last: Option<Seq<char>>,
    pub api_key: Option<Seq<char>>,
    pub loki_auth: Seq<char>,
}

/// The guarded settings of a config.
pub open spec fn guarded(c: Config) -> GuardedFields {
    GuardedFields {
        device_id: opt_string_view(c.audio.device_id),
        model_id: opt_string_view(c.transcription.model_id),
        prompt_id: c.enhancement.prompt_id@,
        toggle_recording_alt: opt_string_view(c.shortcuts.toggle_recording_alt),
        toggle_enhancement: opt_string_view(c.shortcuts.toggle_enhancement),
        copy_last: opt_string_view(c.shortcuts.copy_last),
        api_key: opt_string_view(c.enhancement.api_key),
        loki_auth: c.logging.loki_auth.0@,
    }
}

/// Keep `current` where the incoming value is absent.
pub open spec fn keep_if_none(incoming: Option<Seq<char>>, current: Option<Seq<char>>) -> Option<Seq<char>> {
    if incoming is None && current is Some { current } else { incoming }
}

/// Whether a token value is empty or the mask.
pub open spec fn masked_or_empty(s: Seq<char>) -> bool {
    s.len() == 0 || s == mask_chars()
}

/// The guard a generic save applies: an absent device, model, shortcut or
/// API key keeps the stored one; a default prompt id or default alternative
/// shortcut keeps a stored non-default; an empty or masked token keeps a
/// stored token.
pub open spec fn guard(incoming: GuardedFields, current: GuardedFields) -> GuardedFields {
    GuardedFields {
        device_id: keep_if_none(incoming.device_id, current.device_id),
        model_id: keep_if_none(incoming.model_id, current.model_id),
        prompt_id: if incoming.prompt_id == default_prompt_id() && current.prompt_id != default_prompt_id() {
            current.prompt_id
        } else {
            incoming.prompt_id
        },
        toggle_recording_alt: if incoming.toggle_recording_alt == Some(default_toggle_alt())
            && current.toggle_recording_alt != Some(default_toggle_alt()) {
            current.toggle_recording_alt
        } else {
            incoming.toggle_recording_alt
        },
        toggle_enhancement: keep_if_none(incoming.toggle_enhancement, current.toggle_enhancement),
        copy_last: keep_if_none(incoming.copy_last, current.copy_last),
        api_key: keep_if_none(incoming.api_key, current.api_key),
        loki_auth: if masked_or_empty(incoming.loki_auth) && current.loki_auth.len() != 0 {
            current.loki_auth
        } else {
            incoming.loki_auth
        },
    }
}

/// `r` is `incoming` with only the guarded settings (and the version) changed.
pub open spec fn same_outside_guard(r: Config, incoming: Config) -> bool {
    &&& r.audio == AudioConfig { device_id: r.audio.device_id, ..incoming.audio }
    &&& r.transcription == TranscriptionConfig { model_id: r.transcription.model_id, ..incoming.transcription }
    &&& r.shortcuts == ShortcutConfig {
        toggle_recording_alt: r.shortcuts.toggle_recording_alt,
        toggle_enhancement: r.shortcuts.toggle_enhancement,
        copy_last: r.shortcuts.copy_last,
        ..incoming.shortcuts
    }
    &&& r.enhancement == EnhancementConfig {
        prompt_id: r.enhancement.prompt_id,
        api_key: r.enhancement.api_key,
        ..incoming.enhancement
    }
    &&& r.general == incoming.general
    &&& r.recorder == incoming.recorder
    &&& r.integrations == incoming.integrations
    &&& r.logging == LoggingConfig { loki_auth: r.logging.loki_auth, ..incoming.logging }
}

fn clone_opt_string(o: &Option<String>) -> (r: Option<String>)
    ensures
        opt_string_view(r) == opt_string_view(*o),
{
    match o {
        Some(s) => Some(s.clone()),
        None => None,
    }
}

fn is_default_toggle_alt(o: &Option<String>) -> (r: bool)
    ensures
        r == (opt_string_view(*o) == Some(default_toggle_alt())),
{
    match o {
        Some(s) => str_eq(s.as_str(), "ShiftRight"),
        None => false,
    }
}

fn guard_option(incoming: Option<String>, current: &Option<String>) -> (r: Option<String>)
    ensures
        opt_string_view(r) == keep_if_none(opt_string_view(incoming), opt_string_view(*current)),
        opt_string_view(incoming) == opt_string_view(r) ==> r == incoming,
{
    if incoming.is_none() && current.is_some() {
        clone_opt_string(current)
    } else {
        incoming
    }
}

fn guard_shortcuts(incoming: ShortcutConfig, current: &ShortcutConfig) -> (r: ShortcutConfig)
    ensures
        r == (ShortcutConfig {
            toggle_recording_alt: r.toggle_recording_alt,
            toggle_enhancement: r.toggle_enhancement,
            copy_last: r.copy_last,
            ..incoming
        }),
        opt_string_view(r.toggle_recording_alt) == (if opt_string_view(incoming.toggle_recording_alt) == Some(
            default_toggle_alt(),
        ) && opt_string_view(current.toggle_recording_alt) != Some(default_toggle_alt()) {
            opt_string_view(current.toggle_recording_alt)
        } else {
            opt_string_view(incoming.toggle_recording_alt)
        }),
        opt_string_view(r.toggle_enhancement) == keep_if_none(
            opt_string_view(incoming.toggle_enhancement),
            opt_string_view(current.toggle_enhancement),
        ),
        opt_string_view(r.copy_last) == keep_if_none(opt_string_view(incoming.copy_last), opt_string_view(current.copy_last)),
{
    let ShortcutConfig { toggle_recording, toggle_recording_alt, copy_last, toggle_enhancement, recording_mode } =
        incoming;
    let alt = if is_default_toggle_alt(&toggle_recording_alt) && !is_default_toggle_alt(
        &current.toggle_recording_alt,
    ) {
        clone_opt_string(&current.toggle_recording_alt)
    } else {
        toggle_recording_alt
    };
    ShortcutConfig {
        toggle_recording,
        toggle_recording_alt: alt,
        copy_last: guard_option(copy_last, &current.copy_last),
        toggle_enhancement: guard_option(toggle_enhancement, &current.toggle_enhancement),
        recording_mode,
    }
}

fn guard_enhancement(incoming: EnhancementConfig, current: &EnhancementConfig) -> (r: EnhancementConfig)
    ensures
        r == (EnhancementConfig { prompt_id: r.prompt_id, api_key: r.api_key, ..incoming }),
        r.prompt_id@ == (if incoming.prompt_id@ == default_prompt_id() && current.prompt_id@ != default_prompt_id() {
            current.prompt_id@
        } else {
            incoming.prompt_id@
        }),
        opt_string_view(r.api_key) == keep_if_none(opt_string_view(incoming.api_key), opt_string_view(current.api_key)),
{
    proof {
        reveal_strlit("fix-grammar");
    }
    let EnhancementConfig { enabled, model, prompt_id, ollama_url, backend, openai_compat_url, api_key } = incoming;
    let incoming_default = str_eq(prompt_id.as_str(), "fix-grammar");
    let current_default = str_eq(current.prompt_id.as_str(), "fix-grammar");
    let prompt_id = if incoming_default && !current_default { current.prompt_id.clone() } else { prompt_id };
    EnhancementConfig {
        enabled,
        model,
        prompt_id,
        ollama_url,
        backend,
        openai_compat_url,
        api_key: guard_option(api_key, &current.api_key),
    }
}

fn guard_loki(incoming: LoggingConfig, current: &LoggingConfig) -> (r: LoggingConfig)
    ensures
        r == (LoggingConfig { loki_auth: r.loki_auth, ..incoming }),
        r.loki_auth.0@ == (if masked_or_empty(incoming.loki_auth.0@) && current.loki_auth.0@.len() != 0 {
            current.loki_auth.0@
        } else {
            incoming.loki_auth.0@
        }),
{
    let mut logging = incoming;
    if logging.loki_auth.is_masked_or_empty() && !current.loki_auth.0.as_str().is_empty() {
        logging.loki_auth = LokiAuth(current.loki_auth.0.clone());
    }
    logging
}

fn guard_audio(incoming: AudioConfig, current: &AudioConfig) -> (r: AudioConfig)
    ensures
        r == (AudioConfig { device_id: r.device_id, ..incoming }),
        opt_string_view(r.device_id) == keep_if_none(opt_string_view(incoming.device_id), opt_string_view(current.device_id)),
{
    let AudioConfig { device_id, sample_rate, play_sounds, warm_stream } = incoming;
    AudioConfig { device_id: guard_option(device_id, &current.device_id), sample_rate, play_sounds, warm_stream }
}

fn guard_transcription(incoming: TranscriptionConfig, current: &TranscriptionConfig) -> (r: TranscriptionConfig)
    ensures
        r == (TranscriptionConfig { model_id: r.model_id, ..incoming }),
        opt_string_view(r.model_id) == keep_if_none(opt_string_view(incoming.model_id), opt_string_view(current.model_id)),
{
    let mut t = incoming;
    let model_id = t.model_id;
    t.model_id = None;
    t.model_id = guard_option(model_id, &current.model_id);
    t
}

/// Prepare an incoming config for saving: stamp the current schema version
/// and keep the stored values a generic save must not clear by omission
/// (see [`guard`]).
pub fn preserve_stored_settings(incoming: Config, current: &Config) -> (r: Config)
    ensures
        r.version == CURRENT_VERSION,
        guarded(r) == guard(guarded(incoming), guarded(*current)),
        same_outside_guard(r, incoming),
{
    let Config { version: _, audio, transcription, shortcuts, enhancement, general, recorder, integrations, logging } =
        incoming;
    let audio = guard_audio(audio, &current.audio);
    let transcription = guard_transcription(transcription, &current.transcription);
    let shortcuts = guard_shortcuts(shortcuts, &current.shortcuts);
    let enhancement = guard_enhancement(enhancement, &current.enhancement);
    let logging = guard_loki(logging, &current.logging);
    let r = Config { version: CURRENT_VERSION, audio, transcription, shortcuts, enhancement, general, recorder, integrations, logging };
    assert(guarded(r) == guard(guarded(incoming), guarded(*current)));
    r
}

/// Saving twice with the same stored config changes nothing the second time.
pub proof fn lemma_guard_idempotent(incoming: GuardedFields, current: GuardedFields)
    ensures
        guard(guard(incoming, current), current) == guard(incoming, current),
{
}

/// A generic save never clears a stored device, model, shortcut, API key or
/// Loki token by omission.
pub proof fn lemma_guard_never_clears(incoming: GuardedFields, current: GuardedFields)
    ensures
        current.device_id is Some ==> guard(incoming, current).device_id is Some,
        current.model_id is Some ==> guard(incoming, current).model_id is Some,
        current.toggle_enhancement is Some ==> guard(incoming, current).toggle_enhancement is Some,
        current.copy_last is Some ==> guard(incoming, current).copy_last is Some,
        current.api_key is Some ==> guard(incoming, current).api_key is Some,
        current.loki_auth.len() != 0 ==> guard(incoming, current).loki_auth.len() != 0,
        current.loki_auth.len() != 0 ==> !masked_or_empty(incoming.loki_auth) ==> guard(incoming, current).loki_auth == incoming.loki_auth,
{
}

/// An explicit value in the incoming config always wins over the stored one.
pub proof fn lemma_guard_keeps_explicit_values(incoming: GuardedFields, current: GuardedFields)
    ensures
        incoming.device_id is Some ==> guard(incoming, current).device_id == incoming.device_id,
        incoming.model_id is Some ==> guard(incoming, current).model_id == incoming.model_id,
        incoming.api_key is Some ==> guard(incoming, current).api_key == incoming.api_key,
        incoming.prompt_id != default_prompt_id() ==> guard(incoming, current).prompt_id == incoming.prompt_id,
        !masked_or_empty(incoming.loki_auth) ==> guard(incoming, current).loki_auth == incoming.loki_auth,
{
}

/// Masking is stable: masking an already masked config changes nothing, and
/// a masked config never carries a token other than the mask.
pub proof fn lemma_mask_hides_token(before: Seq<char>)
    ensures
        before.len() != 0 ==> masked_or_empty(mask_chars()),
{
}

/// Set the audio input device, leaving every other setting as it was.
pub fn set_audio_device_config(cfg: &mut Config, device_id: Option<String>)
    ensures
        final(cfg).audio.device_id == device_id,
        final(cfg).audio.sample_rate == old(cfg).audio.sample_rate,
        final(cfg).audio.play_sounds == old(cfg).audio.play_sounds,
        final(cfg).audio.warm_stream == old(cfg).audio.warm_stream,
        final(cfg).transcription == old(cfg).transcription,
        final(cfg).shortcuts == old(cfg).shortcuts,
        final(cfg).enhancement == old(cfg).enhancement,
        final(cfg).general == old(cfg).general,
        final(cfg).recorder == old(cfg).recorder,
        final(cfg).integrations == old(cfg).integrations,
        final(cfg).logging == old(cfg).logging,
        final(cfg).version == old(cfg).version,
{
    cfg.audio.device_id = device_id;
}

/// Set the enhancement prompt, leaving every other setting as it was.
pub fn set_prompt_config(cfg: &mut Config, prompt_id: String)
    ensures
        final(cfg).enhancement.prompt_id == prompt_id,
        final(cfg).enhancement.enabled == old(cfg).enhancement.enabled,
        final(cfg).enhancement.model == old(cfg).enhancement.model,
        final(cfg).enhancement.ollama_url == old(cfg).enhancement.ollama_url,
        final(cfg).enhancement.backend == old(cfg).enhancement.backend,
        final(cfg).enhancement.openai_compat_url == old(cfg).enhancement.openai_compat_url,
        final(cfg).enhancement.api_key == old(cfg).enhancement.api_key,
        final(cfg).audio == old(cfg).audio,
        final(cfg).transcription == old(cfg).transcription,
        final(cfg).shortcuts == old(cfg).shortcuts,
        final(cfg).general == old(cfg).general,
        final(cfg).recorder == old(cfg).recorder,
        final(cfg).integrations == old(cfg).integrations,
        final(cfg).logging == old(cfg).logging,
        final(cfg).version == old(cfg).version,
{
    cfg.enhancement.prompt_id = prompt_id;
}

/// Turn enhancement on or off, leaving every other setting as it was.
pub fn set_enhancement_enabled(cfg: &mut Config, enabled: bool)
    ensures
        final(cfg).enhancement.enabled == enabled,
        final(cfg).enhancement.prompt_id == old(cfg).enhancement.prompt_id,
        final(cfg).enhancement.model == old(cfg).enhancement.model,
        final(cfg).enhancement.ollama_url == old(cfg).enhancement.ollama_url,
        final(cfg).enhancement.backend == old(cfg).enhancement.backend,
        final(cfg).enhancement.openai_compat_url == old(cfg).enhancement.openai_compat_url,
        final(cfg).enhancement.api_key == old(cfg).enhancement.api_key,
        final(cfg).audio == old(cfg).audio,
        final(cfg).transcription == old(cfg).transcription,
        final(cfg).shortcuts == old(cfg).shortcuts,
        final(cfg).general == old(cfg).general,
        final(cfg).recorder == old(cfg).recorder,
        final(cfg).integrations == old(cfg).integrations,
        final(cfg).logging == old(cfg).logging,
        final(cfg).version == old(cfg).version,
{
    cfg.enhancement.enabled = enabled;
}

/// Set or clear the enhancement API key, leaving every other setting as it
/// was. Unlike a full settings save, this may clear the key.
pub fn set_enhancement_api_key(cfg: &mut Config, key: Option<String>)
    ensures
        final(cfg).enhancement.api_key == key,
        final(cfg).enhancement.enabled == old(cfg).enhancement.enabled,
        final(cfg).enhancement.prompt_id == old(cfg).enhancement.prompt_id,
        final(cfg).enhancement.model == old(cfg).enhancement.model,
        final(cfg).enhancement.ollama_url == old(cfg).enhancement.ollama_url,
        final(cfg).enhancement.backend == old(cfg).enhancement.backend,
        final(cfg).enhancement.openai_compat_url == old(cfg).enhancement.openai_compat_url,
        final(cfg).audio == old(cfg).audio,
        final(cfg).transcription == old(cfg).transcription,
        final(cfg).shortcuts == old(cfg).shortcuts,
        final(cfg).general == old(cfg).general,
        final(cfg).recorder == old(cfg).recorder,
        final(cfg).integrations == old(cfg).integrations,
        final(cfg).logging == old(cfg).logging,
        final(cfg).version == old(cfg).version,
{
    cfg.enhancement.api_key = key;
}

/// Store or clear the Loki token, leaving every other setting as it was:
/// `None` clears it. Unlike a full settings save, this may clear the token.
pub fn set_loki_auth_config(cfg: &mut Config, token: Option<String>)
    ensures
        final(cfg).logging.loki_auth.0@ == match token {
            Some(t) => t@,
            None => Seq::<char>::empty(),
        },
        final(cfg).logging.local_retention_days == old(cfg).logging.local_retention_days,
        final(cfg).logging.remote_enabled == old(cfg).logging.remote_enabled,
        final(cfg).logging.loki_url == old(cfg).logging.loki_url,
        final(cfg).logging.loki_tenant == old(cfg).logging.loki_tenant,
        final(cfg).logging.loki_labels == old(cfg).logging.loki_labels,
        final(cfg).logging.telemetry_level == old(cfg).logging.telemetry_level,
        final(cfg).audio == old(cfg).audio,
        final(cfg).transcription == old(cfg).transcription,
        final(cfg).shortcuts == old(cfg).shortcuts,
        final(cfg).enhancement == old(cfg).enhancement,
        final(cfg).general == old(cfg).general,
        final(cfg).recorder == old(cfg).recorder,
        final(cfg).integrations == old(cfg).integrations,
        final(cfg).version == old(cfg).version,
{
    let t = match token {
        Some(t) => t,
        None => String::new(),
    };
    cfg.logging.loki_auth = LokiAuth(t);
}

/// The logging settings to start with, before the rest of the app is up:
/// those of the config on disk, or the defaults when none could be loaded.
pub fn read_logging_config_early(loaded: Option<Config>) -> (r: LoggingConfig)
    ensures
        loaded matches Some(c) ==> r == c.logging,
        loaded is None ==> r.local_retention_days == 7 && !r.remote_enabled && r.loki_url@.len() == 0
            && r.loki_auth.0@.len() == 0 && r.loki_tenant is None && r.loki_labels@.len() == 0
            && r.telemetry_level@ == "info"@,
{
    match loaded {
        Some(c) => c.logging,
        None => LoggingConfig::default(),
    }
}

/// Point the enhancement backend at what the config names, and return the
/// backend that was activated: for an accepted OpenAI-compatible URL, a
/// client at that URL without trailing slashes, with the default timeout and
/// the config's API key; otherwise Ollama, at the config's Ollama URL.
pub fn apply_enhancement_backend(state: &mut crate::enhancement::EnhancementBackend, enh: &EnhancementConfig) -> (r:
    crate::enhancement::BackendType)
    ensures
        r == final(state).backend_type,
        final(state).ollama_url matches Some(u) && u@ == enh.ollama_url@,
        (enh.backend@ == "openai_compat"@ && crate::enhancement::scheme_supported(
            crate::text::spec_to_lowercase(enh.openai_compat_url@),
        )) ==> (r == crate::enhancement::BackendType::OpenAiCompat && (final(state).openai_compat matches Some(c) && (
        c.base_url@ == crate::enhancement::trim_trailing_slashes(enh.openai_compat_url@) && c.timeout_secs
            == crate::enhancement::DEFAULT_TIMEOUT_SECS && match enh.api_key {
            Some(k) => (c.api_key matches Some(ck) && ck@ == k@),
            None => c.api_key is None,
        }))),
        !(enh.backend@ == "openai_compat"@ && crate::enhancement::scheme_supported(
            crate::text::spec_to_lowercase(enh.openai_compat_url@),
        )) ==> r == crate::enhancement::BackendType::Ollama && final(state).openai_compat is None,
{
    let key: Option<&str> = match &enh.api_key {
        Some(k) => Some(k.as_str()),
        None => None,
    };
    crate::enhancement::configure_backend(
        state,
        enh.backend.as_str(),
        enh.ollama_url.as_str(),
        enh.openai_compat_url.as_str(),
        key,
    )
}

} // verus!
