//! Clipboard state: settings, a most-recent-first history capped at
//! [`MAX_HISTORY_SIZE`] entries, and content preserved for restoring the
//! clipboard after a paste.
use vstd::prelude::*;
use vstd::string::StringExecFns;

verus! {

broadcast use vstd::string::group_string_axioms;

/// Maximum number of items kept in clipboard history.
pub const MAX_HISTORY_SIZE: usize = 50;

/// Clipboard format options for copying transcriptions.
#[derive(Debug, Clone, Copy, PartialEq, Eq, Structural)]
pub enum ClipboardFormat {
    /// Plain text (default).
    PlainText,
    /// Rich text with basic formatting preserved.
    RichText,
    /// Markdown.
    Markdown,
}

impl Default for ClipboardFormat {
    fn default() -> (r: Self)
        ensures
            r == ClipboardFormat::PlainText,
    {
        ClipboardFormat::PlainText
    }
}

/// Clipboard settings for auto-copy behaviour.
#[derive(Debug, Clone, Copy, PartialEq, Eq, Structural)]
pub struct ClipboardSettings {
    /// Whether to copy a transcription automatically on completion.
    pub auto_copy_enabled: bool,
    /// Format to use when copying.
    pub format: ClipboardFormat,
    /// Whether to show a notification on copy.
    pub show_notification: bool,
    /// Whether to restore the original clipboard content after a paste.
    pub preserve_clipboard: bool,
    /// Delay in milliseconds before restoring the clipboard.
    pub restore_delay_ms: u64,
    /// Whether to keep a clipboard history.
    pub history_enabled: bool,
}

impl Default for ClipboardSettings {
    fn default() -> (r: Self)
        ensures
            r == (ClipboardSettings {
                auto_copy_enabled: false,
                format: ClipboardFormat::PlainText,
                show_notification: false,
                preserve_clipboard: true,
                restore_delay_ms: 1000,
                history_enabled: true,
            }),
    {
        ClipboardSettings {
            auto_copy_enabled: false,
            format: ClipboardFormat::PlainText,
            show_notification: false,
            preserve_clipboard: true,
            restore_delay_ms: 1000,
            history_enabled: true,
        }
    }
}

/// An entry in the clipboard history.
#[derive(Debug, Clone)]
pub struct ClipboardHistoryEntry {
    /// Unique identifier for the entry.
    pub id: String,
    /// The text content.
    pub text: String,
    /// Timestamp when the entry was created (ISO 8601).
    pub timestamp: String,
    /// Source description, such as "transcription".
    pub source: String,
}

/// A history entry by its text: `(id, text, timestamp, source)`.
pub open spec fn entry_text(e: ClipboardHistoryEntry) -> (Seq<char>, Seq<char>, Seq<char>, Seq<char>) {
    (e.id@, e.text@, e.timestamp@, e.source@)
}

/// The history after recording `e`: it goes first, and the oldest entries
/// beyond the cap are dropped.
pub open spec fn spec_push_history<T>(history: Seq<T>, e: T) -> Seq<T> {
    let h = seq![e] + history;
    if h.len() > MAX_HISTORY_SIZE { h.take(MAX_HISTORY_SIZE as int) } else { h }
}

/// A fresh unique identifier.
///
/// Wraps `uuid::Uuid::new_v4` rendered with `to_string`. The value is
/// random; what holds of every value is that `Display` writes the hyphenated
/// lower-case form, thirty-six characters long.
#[verifier::external_body]
pub(crate) fn new_entry_id() -> (r: String)
    ensures
        r@.len() == 36,
{
    uuid::Uuid::new_v4().to_string()
}

/// The current time in RFC 3339 form.
///
/// Wraps `chrono::Utc::now` and `to_rfc3339`; the value depends on the clock,
/// so nothing is claimed of it.
#[verifier::external_body]
pub(crate) fn now_rfc3339() -> String {
    chrono::Utc::now().to_rfc3339()
}

/// Manages clipboard settings, history and preserved content.
pub struct ClipboardManager {
    /// Current settings.
    pub settings: ClipboardSettings,
    /// History, most recent first.
    pub history: Vec<ClipboardHistoryEntry>,
    /// Preserved clipboard content for restore after paste.
    pub preserved_content: Option<String>,
}

fn clone_entry(e: &ClipboardHistoryEntry) -> (r: ClipboardHistoryEntry)
    ensures
        r == *e,
{
    ClipboardHistoryEntry { id: e.id.clone(), text: e.text.clone(), timestamp: e.timestamp.clone(), source: e.source.clone() }
}

impl ClipboardManager {
    /// The history, most recent first.
    pub open spec fn history_spec(&self) -> Seq<ClipboardHistoryEntry> {
        self.history@
    }

    /// The current settings.
    pub open spec fn settings_spec(&self) -> ClipboardSettings {
        self.settings
    }

    /// The history never holds more than the cap.
    pub open spec fn wf(&self) -> bool {
        self.history@.len() <= MAX_HISTORY_SIZE
    }

    /// Create a new clipboard manager with default settings.
    pub fn new() -> (r: Self)
        ensures
            r.wf(),
            r.settings_spec() == ClipboardSettings::spec_default(),
            r.history_spec().len() == 0,
            r.preserved_content is None,
    {
        ClipboardManager { settings: ClipboardSettings::default(), history: Vec::new(), preserved_content: None }
    }

    /// Get current settings.
    pub fn settings(&self) -> (r: &ClipboardSettings)
        ensures
            *r == self.settings_spec(),
    {
        &self.settings
    }

    /// Update settings; turning history off clears it.
    pub fn update_settings(&mut self, settings: ClipboardSettings)
        requires
            old(self).wf(),
        ensures
            final(self).wf(),
            final(self).settings_spec() == settings,
            final(self).history_spec() == if settings.history_enabled {
                old(self).history_spec()
            } else {
                Seq::empty()
            },
            final(self).preserved_content == old(self).preserved_content,
    {
        self.settings = settings;
        if !self.settings.history_enabled {
            self.history.clear();
        }
    }

    /// Record an entry at the front of the history, dropping the oldest beyond
    /// the cap. Does nothing while history is disabled.
    pub fn push_history_entry(&mut self, entry: ClipboardHistoryEntry)
        requires
            old(self).wf(),
        ensures
            final(self).wf(),
            final(self).settings_spec() == old(self).settings_spec(),
            final(self).history_spec() == if old(self).settings_spec().history_enabled {
                spec_push_history(old(self).history_spec(), entry)
            } else {
                old(self).history_spec()
            },
            final(self).preserved_content == old(self).preserved_content,
    {
        if !self.settings.history_enabled {
            return;
        }
        self.history.insert(0, entry);
        assert(self.history@ =~= seq![entry] + old(self).history@);
        if self.history.len() > MAX_HISTORY_SIZE {
            self.history.pop();
            assert(self.history@ =~= (seq![entry] + old(self).history@).take(MAX_HISTORY_SIZE as int));
        }
    }

    /// Add text to the history under a fresh identifier (a UUID in its
    /// 36-character hyphenated form) and the current time.
    pub fn add_to_history(&mut self, text: String, source: &str)
        requires
            old(self).wf(),
        ensures
            final(self).wf(),
            final(self).settings_spec() == old(self).settings_spec(),
            final(self).preserved_content == old(self).preserved_content,
            !old(self).settings_spec().history_enabled ==> final(self).history_spec() == old(self).history_spec(),
            old(self).settings_spec().history_enabled ==> exists|e: ClipboardHistoryEntry|
                e.text@ == text@ && e.source@ == source@ && e.id@.len() == 36 && final(self).history_spec() == spec_push_history(
                    old(self).history_spec(),
                    e,
                ),
    {
        if !self.settings.history_enabled {
            return;
        }
        let entry = ClipboardHistoryEntry {
            id: new_entry_id(),
            text,
            timestamp: now_rfc3339(),
            source: String::from_str(source),
        };
        self.push_history_entry(entry);
    }

    /// The clipboard history, most recent first.
    pub fn get_history(&self) -> (r: Vec<ClipboardHistoryEntry>)
        ensures
            r@ == self.history_spec(),
    {
        let mut out: Vec<ClipboardHistoryEntry> = Vec::new();
        let mut i: usize = 0;
        while i < self.history.len()
            invariant
                i <= self.history@.len(),
                out@ == self.history@.take(i as int),
            decreases self.history@.len() - i,
        {
            out.push(clone_entry(&self.history[i]));
            assert(out@ =~= self.history@.take(i + 1));
            i = i + 1;
        }
        assert(self.history@.take(self.history@.len() as int) =~= self.history@);
        out
    }

    /// Clear clipboard history.
    pub fn clear_history(&mut self)
        requires
            old(self).wf(),
        ensures
            final(self).wf(),
            final(self).history_spec() == Seq::<ClipboardHistoryEntry>::empty(),
            final(self).settings_spec() == old(self).settings_spec(),
            final(self).preserved_content == old(self).preserved_content,
    {
        self.history.clear();
    }

    /// Remove the first history entry with identifier `id`; returns whether
    /// one was found.
    pub fn remove_from_history(&mut self, id: &str) -> (found: bool)
        requires
            old(self).wf(),
        ensures
            final(self).wf(),
            final(self).settings_spec() == old(self).settings_spec(),
            final(self).preserved_content == old(self).preserved_content,
            found == exists|i: int| 0 <= i < old(self).history_spec().len() && #[trigger] old(self).history_spec()[i].id@ == id@,
            !found ==> final(self).history_spec() == old(self).history_spec(),
            found ==> exists|i: int|
                0 <= i < old(self).history_spec().len() && old(self).history_spec()[i].id@ == id@ && (forall|j: int|
                    0 <= j < i ==> #[trigger] old(self).history_spec()[j].id@ != id@) && final(self).history_spec()
                    == old(self).history_spec().remove(i),
    {
        let mut i: usize = 0;
        while i < self.history.len()
            invariant
                i <= self.history@.len(),
                self.history@ == old(self).history@,
                old(self).history@.len() <= MAX_HISTORY_SIZE,
                self.settings == old(self).settings,
                self.preserved_content == old(self).preserved_content,
                forall|j: int| 0 <= j < i ==> #[trigger] self.history@[j].id@ != id@,
            decreases self.history@.len() - i,
        {
            if crate::text::str_eq(self.history[i].id.as_str(), id) {
                let ghost before = self.history@;
                let _removed = self.history.remove(i);
                proof {
                    assert(old(self).history_spec()[i as int].id@ == id@);
                    assert(self.history@ == before.remove(i as int));
                }
                return true;
            }
            i = i + 1;
        }
        false
    }

    /// Preserve content for later restoration.
    pub fn preserve_content(&mut self, content: String)
        requires
            old(self).wf(),
        ensures
            final(self).wf(),
            final(self).preserved_content == Some(content),
            final(self).history_spec() == old(self).history_spec(),
            final(self).settings_spec() == old(self).settings_spec(),
    {
        self.preserved_content = Some(content);
    }

    /// Take the preserved content, leaving none.
    pub fn take_preserved_content(&mut self) -> (r: Option<String>)
        requires
            old(self).wf(),
        ensures
            final(self).wf(),
            r == old(self).preserved_content,
            final(self).preserved_content is None,
            final(self).history_spec() == old(self).history_spec(),
            final(self).settings_spec() == old(self).settings_spec(),
    {
        self.preserved_content.take()
    }
}

impl ClipboardSettings {
    /// The default settings.
    pub open spec fn spec_default() -> ClipboardSettings {
        ClipboardSettings {
            auto_copy_enabled: false,
            format: ClipboardFormat::PlainText,
            show_notification: false,
            preserve_clipboard: true,
            restore_delay_ms: 1000,
            history_enabled: true,
        }
    }
}

/// Recording an entry puts it first, keeps the previous entries after it in
/// order (up to the cap), and never exceeds the cap.
pub proof fn lemma_push_history_is_bounded_recency<T>(history: Seq<T>, e: T)
    requires
        history.len() <= MAX_HISTORY_SIZE,
    ensures
        spec_push_history(history, e).len() <= MAX_HISTORY_SIZE,
        spec_push_history(history, e)[0] == e,
        forall|i: int| 0 <= i < spec_push_history(history, e).len() - 1 ==> #[trigger] spec_push_history(history, e)[i + 1] == history[i],
        history.len() < MAX_HISTORY_SIZE ==> spec_push_history(history, e).len() == history.len() + 1,
{
}

} // verus!
