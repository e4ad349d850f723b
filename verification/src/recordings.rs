//! Transcription records and the decisions around their audio files: a
//! recording's audio is removed or moved to the trash only when no other
//! live transcription still references it, a trashed file gets a name of
//! its own in the trash directory, and restoring puts it back where it came
//! from.
use vstd::prelude::*;
use vstd::string::StringExecFns;
use crate::paths::{extension, file_name, join, opt_text, path_join, spec_extension, spec_file_name};

verus! {

broadcast use vstd::string::group_string_axioms;

/// Trash entries older than this many days are purged on startup.
pub const TRASH_RETENTION_DAYS: i64 = 30;

/// A transcription record. Durations, in seconds, are kept as the IEEE-754
/// bit patterns of their `f64` values.
#[derive(Debug, Clone)]
pub struct Transcription {
    /// Unique identifier (a UUID).
    pub id: String,
    /// The transcribed text, possibly enhanced.
    pub text: String,
    /// The text before enhancement, if any.
    pub raw_text: Option<String>,
    /// Duration of the audio.
    pub duration_seconds_bits: Option<u64>,
    /// When it was created (RFC 3339).
    pub created_at: String,
    /// Path to the audio file, if retained.
    pub audio_path: Option<String>,
    /// Whether the text has been enhanced.
    pub is_enhanced: bool,
    /// The enhancement prompt used, if enhanced.
    pub enhancement_prompt: Option<String>,
    /// Name of the transcription model used.
    pub transcription_model_name: Option<String>,
    /// Time taken to transcribe.
    pub transcription_duration_seconds_bits: Option<u64>,
    /// Name of the enhancement model used.
    pub enhancement_model_name: Option<String>,
    /// Time taken to enhance.
    pub enhancement_duration_seconds_bits: Option<u64>,
}

impl Transcription {
    /// A new, unenhanced transcription of `text`, with a fresh identifier
    /// and the current time.
    pub fn new(text: String) -> (r: Self)
        ensures
            r.text == text,
            r.id@.len() == 36,
            r.raw_text is None,
            r.duration_seconds_bits is None,
            r.audio_path is None,
            !r.is_enhanced,
            r.enhancement_prompt is None,
            r.transcription_model_name is None,
            r.transcription_duration_seconds_bits is None,
            r.enhancement_model_name is None,
            r.enhancement_duration_seconds_bits is None,
    {
        Transcription {
            id: crate::clipboard::new_entry_id(),
            text,
            raw_text: None,
            duration_seconds_bits: None,
            created_at: crate::clipboard::now_rfc3339(),
            audio_path: None,
            is_enhanced: false,
            enhancement_prompt: None,
            transcription_model_name: None,
            transcription_duration_seconds_bits: None,
            enhancement_model_name: None,
            enhancement_duration_seconds_bits: None,
        }
    }

    /// A new transcription with every detail given, a fresh identifier and
    /// the current time.
    pub fn with_details(
        text: String,
        raw_text: Option<String>,
        duration_seconds_bits: Option<u64>,
        audio_path: Option<String>,
        is_enhanced: bool,
        enhancement_prompt: Option<String>,
        transcription_model_name: Option<String>,
        transcription_duration_seconds_bits: Option<u64>,
        enhancement_model_name: Option<String>,
        enhancement_duration_seconds_bits: Option<u64>,
    ) -> (r: Self)
        ensures
            r.id@.len() == 36,
            r.text == text,
            r.raw_text == raw_text,
            r.duration_seconds_bits == duration_seconds_bits,
            r.audio_path == audio_path,
            r.is_enhanced == is_enhanced,
            r.enhancement_prompt == enhancement_prompt,
            r.transcription_model_name == transcription_model_name,
            r.transcription_duration_seconds_bits == transcription_duration_seconds_bits,
            r.enhancement_model_name == enhancement_model_name,
            r.enhancement_duration_seconds_bits == enhancement_duration_seconds_bits,
    {
        Transcription {
            id: crate::clipboard::new_entry_id(),
            text,
            raw_text,
            duration_seconds_bits,
            created_at: crate::clipboard::now_rfc3339(),
            audio_path,
            is_enhanced,
            enhancement_prompt,
            transcription_model_name,
            transcription_duration_seconds_bits,
            enhancement_model_name,
            enhancement_duration_seconds_bits,
        }
    }
}

/// The audio file to remove once a transcription is deleted: its audio,
/// when it had one and no remaining transcription references that path.
pub fn audio_to_remove(audio_path: Option<String>, remaining_refs: i64) -> (r: Option<String>)
    ensures
        r == (if remaining_refs == 0 { audio_path } else { None::<String> }),
{
    if remaining_refs == 0 {
        audio_path
    } else {
        None
    }
}

/// The name a recording's audio gets in the trash: the transcription's
/// identifier, two underscores, and the audio's file name (`audio.wav`
/// when the path has none).
pub open spec fn spec_trash_file_name(id: Seq<char>, original: Seq<char>) -> Seq<char> {
    id + "__"@ + match spec_file_name(original) {
        Some(n) => n,
        None => "audio.wav"@,
    }
}

/// Where a recording's audio goes in the trash directory `trash_dir`.
pub fn trash_dest(trash_dir: &str, id: &str, original: &str) -> (r: String)
    ensures
        r@ == join(trash_dir@, spec_trash_file_name(id@, original@)),
{
    let mut name = String::from_str(id);
    proof {
        reveal_strlit("__");
        reveal_strlit("audio.wav");
    }
    name.append("__");
    match file_name(original) {
        Some(n) => name.append(n.as_str()),
        None => name.append("audio.wav"),
    }
    path_join(trash_dir, name.as_str())
}

/// Whether quarantining moves the audio: only when there is audio and no
/// other live transcription references it.
pub open spec fn spec_will_move(audio_path: Option<Seq<char>>, remaining_refs: int) -> bool {
    remaining_refs == 0 && audio_path is Some
}

/// Where the trash entry records the audio: in the trash when it moves,
/// else where it already is.
pub open spec fn spec_trash_location(
    trash_dir: Seq<char>,
    id: Seq<char>,
    audio_path: Option<Seq<char>>,
    remaining_refs: int,
) -> Option<Seq<char>> {
    if spec_will_move(audio_path, remaining_refs) {
        Some(join(trash_dir, spec_trash_file_name(id, audio_path->0)))
    } else {
        audio_path
    }
}

/// The audio path a restored transcription references.
pub open spec fn spec_restored_path(
    audio_moved: bool,
    original_path: Option<Seq<char>>,
    in_trash: Option<Seq<char>>,
) -> Option<Seq<char>> {
    if audio_moved {
        original_path
    } else {
        in_trash
    }
}

/// Restoring undoes quarantining: a transcription restored from the entry
/// its quarantine wrote references the audio path it had before.
pub proof fn lemma_restore_undoes_quarantine(
    trash_dir: Seq<char>,
    id: Seq<char>,
    audio_path: Option<Seq<char>>,
    remaining_refs: int,
)
    ensures
        spec_restored_path(
            spec_will_move(audio_path, remaining_refs),
            audio_path,
            spec_trash_location(trash_dir, id, audio_path, remaining_refs),
        ) == audio_path,
{
}

/// What quarantining a transcription does with its audio: whether the file
/// moves into the trash, and the location the trash entry records for it.
#[derive(Debug, Clone)]
pub struct QuarantinePlan {
    /// Whether the audio file is moved into the trash.
    pub will_move: bool,
    /// Where the trash entry says the audio is.
    pub trash_location: Option<String>,
}

/// Plan the quarantine of transcription `id`, whose audio is at
/// `audio_path`, once `remaining_refs` other live transcriptions are left
/// referencing that path. The file moves only when it exists in the record
/// and nothing else references it; the trash entry then records its place
/// in the trash, and otherwise where it already is.
pub fn plan_quarantine(trash_dir: &str, id: &str, audio_path: Option<String>, remaining_refs: i64) -> (r:
    QuarantinePlan)
    ensures
        r.will_move == spec_will_move(opt_text(audio_path), remaining_refs as int),
        opt_text(r.trash_location) == spec_trash_location(trash_dir@, id@, opt_text(audio_path), remaining_refs as int),
        !r.will_move ==> r.trash_location == audio_path,
{
    match audio_path {
        Some(p) => {
            if remaining_refs == 0 {
                let dest = trash_dest(trash_dir, id, p.as_str());
                QuarantinePlan { will_move: true, trash_location: Some(dest) }
            } else {
                QuarantinePlan { will_move: false, trash_location: Some(p) }
            }
        },
        None => QuarantinePlan { will_move: false, trash_location: None },
    }
}

/// What restoring a trashed transcription does with its audio.
#[derive(Debug, Clone)]
pub struct RestorePlan {
    /// The audio path the restored transcription references.
    pub audio_path: Option<String>,
    /// Move the file from the trash (first) back to where it came from
    /// (second), when that is to be done.
    pub move_back: Option<(String, String)>,
}

/// Plan the restore of a trash entry. A file that was moved into the trash
/// is referenced at its original path again, and is moved back there
/// unless something already stands at that path or the trash copy is
/// missing (a move that never completed); a file that was never moved is
/// referenced where the entry recorded it.
pub fn plan_restore(
    audio_moved: bool,
    original_path: Option<String>,
    in_trash: Option<String>,
    original_exists: bool,
    trash_copy_exists: bool,
) -> (r: RestorePlan)
    ensures
        r.audio_path == (if audio_moved { original_path } else { in_trash }),
        opt_text(r.audio_path) == spec_restored_path(audio_moved, opt_text(original_path), opt_text(in_trash)),
        r.move_back is Some <==> (audio_moved && original_path is Some && !original_exists && in_trash is Some
            && trash_copy_exists),
        r.move_back matches Some((from, to)) ==> Some(from) == in_trash && Some(to) == original_path,
{
    if audio_moved {
        let mv = match (&original_path, &in_trash) {
            (Some(orig), Some(src)) => {
                if !original_exists && trash_copy_exists {
                    Some((src.clone(), orig.clone()))
                } else {
                    None
                }
            },
            _ => None,
        };
        RestorePlan { audio_path: original_path, move_back: mv }
    } else {
        RestorePlan { audio_path: in_trash, move_back: None }
    }
}

/// The file to delete when a trash entry is purged: its audio, when it was
/// moved into the trash.
pub fn purge_removes(audio_moved: bool, audio_path: Option<String>) -> (r: Option<String>)
    ensures
        r == (if audio_moved { audio_path } else { None::<String> }),
{
    if audio_moved {
        audio_path
    } else {
        None
    }
}

/// A path's extension is `wav`, in any letter case.
pub open spec fn spec_is_wav(path: Seq<char>) -> bool {
    match spec_extension(path) {
        Some(e) => e.len() == 3 && (e[0] == 'w' || e[0] == 'W') && (e[1] == 'a' || e[1] == 'A') && (e[2] == 'v'
            || e[2] == 'V'),
        None => false,
    }
}

/// Whether a path names a WAV file by its extension.
pub fn is_wav_path(path: &str) -> (r: bool)
    ensures
        r == spec_is_wav(path@),
{
    match extension(path) {
        Some(e) => {
            let v = crate::text::str_chars(e.as_str());
            v.len() == 3 && (v[0] == 'w' || v[0] == 'W') && (v[1] == 'a' || v[1] == 'A') && (v[2] == 'v' || v[2]
                == 'V')
        },
        None => false,
    }
}

/// What a sweep of orphaned recordings removed.
#[derive(Debug, Clone, Copy, PartialEq, Eq, Structural)]
pub struct ReconcileResult {
    /// Number of orphaned WAV files removed.
    pub removed_count: u32,
    /// Total bytes freed.
    pub bytes_freed: u64,
}

/// How many of the removal attempts succeeded.
pub open spec fn removed_of(outcomes: Seq<(bool, u64)>) -> nat
    decreases outcomes.len(),
{
    if outcomes.len() == 0 {
        0
    } else {
        removed_of(outcomes.drop_last()) + if outcomes.last().0 {
            1nat
        } else {
            0nat
        }
    }
}

/// The bytes of the files whose removal succeeded.
pub open spec fn freed_of(outcomes: Seq<(bool, u64)>) -> nat
    decreases outcomes.len(),
{
    if outcomes.len() == 0 {
        0
    } else {
        freed_of(outcomes.drop_last()) + if outcomes.last().0 {
            outcomes.last().1 as nat
        } else {
            0nat
        }
    }
}

/// The count and byte totals only grow along the attempts.
proof fn lemma_tally_prefix_bounded(outcomes: Seq<(bool, u64)>, i: int)
    requires
        0 <= i <= outcomes.len(),
    ensures
        removed_of(outcomes.take(i)) <= removed_of(outcomes),
        freed_of(outcomes.take(i)) <= freed_of(outcomes),
    decreases outcomes.len() - i,
{
    if i < outcomes.len() {
        lemma_tally_prefix_bounded(outcomes, i + 1);
        assert(outcomes.take(i + 1).drop_last() =~= outcomes.take(i));
    } else {
        assert(outcomes.take(i) =~= outcomes);
    }
}

/// Sum up a sweep: each attempt is whether the orphan's removal succeeded
/// and its size in bytes; only removed files count, and only their bytes
/// are freed.
pub fn tally_removals(outcomes: &Vec<(bool, u64)>) -> (r: ReconcileResult)
    requires
        removed_of(outcomes@) <= u32::MAX,
        freed_of(outcomes@) <= u64::MAX,
    ensures
        r.removed_count == removed_of(outcomes@),
        r.bytes_freed == freed_of(outcomes@),
{
    let mut removed_count: u32 = 0;
    let mut bytes_freed: u64 = 0;
    let mut i: usize = 0;
    assert(outcomes@.take(0) =~= Seq::<(bool, u64)>::empty());
    while i < outcomes.len()
        invariant
            i <= outcomes@.len(),
            removed_of(outcomes@) <= u32::MAX,
            freed_of(outcomes@) <= u64::MAX,
            removed_count == removed_of(outcomes@.take(i as int)),
            bytes_freed == freed_of(outcomes@.take(i as int)),
        decreases outcomes@.len() - i,
    {
        proof {
            assert(outcomes@.take(i + 1).drop_last() =~= outcomes@.take(i as int));
            lemma_tally_prefix_bounded(outcomes@, i + 1);
        }
        let (ok, size) = outcomes[i];
        if ok {
            removed_count = removed_count + 1;
            bytes_freed = bytes_freed + size;
        }
        i = i + 1;
    }
    assert(outcomes@.take(outcomes@.len() as int) =~= outcomes@);
    ReconcileResult { removed_count, bytes_freed }
}

/// One entry found in the recordings directory: its path, whether it is a
/// regular file, and its canonical path (`None` when that cannot be
/// resolved, as for a broken link).
#[derive(Debug, Clone)]
pub struct FoundRecording {
    /// The entry's path as listed.
    pub path: String,
    /// Whether it is a regular file.
    pub is_file: bool,
    /// Its canonical path, if it resolves.
    pub canonical: Option<String>,
}

/// An entry by its values.
pub open spec fn found_view(f: FoundRecording) -> (Seq<char>, bool, Option<Seq<char>>) {
    (
        f.path@,
        f.is_file,
        match f.canonical {
            Some(c) => Some(c@),
            None => None,
        },
    )
}

/// Whether the sweep removes an entry: a WAV file (by extension, in any
/// case) whose canonical path resolves and is not one the database
/// references. An entry whose path does not resolve is never removed.
pub open spec fn is_orphan(f: (Seq<char>, bool, Option<Seq<char>>), referenced: Seq<Seq<char>>) -> bool {
    &&& spec_is_wav(f.0)
    &&& f.1
    &&& f.2 matches Some(c) && !referenced.contains(c)
}

/// The paths the sweep removes, in the order found.
pub open spec fn orphan_paths(found: Seq<(Seq<char>, bool, Option<Seq<char>>)>, referenced: Seq<Seq<char>>) -> Seq<
    Seq<char>,
>
    decreases found.len(),
{
    if found.len() == 0 {
        Seq::empty()
    } else {
        let prev = orphan_paths(found.drop_last(), referenced);
        if is_orphan(found.last(), referenced) {
            prev.push(found.last().0)
        } else {
            prev
        }
    }
}

/// The recordings the orphan sweep removes from what the directory listing
/// found, given the canonical paths the database references: WAV files that
/// resolve to a path nobody references, in the order found.
pub fn plan_orphan_sweep(found: &Vec<FoundRecording>, referenced: &Vec<String>) -> (r: Vec<String>)
    ensures
        r@.map_values(|s: String| s@) == orphan_paths(
            found@.map_values(|f: FoundRecording| found_view(f)),
            referenced@.map_values(|s: String| s@),
        ),
{
    let ghost fv = found@.map_values(|f: FoundRecording| found_view(f));
    let ghost rv = referenced@.map_values(|s: String| s@);
    let mut out: Vec<String> = Vec::new();
    let mut i: usize = 0;
    assert(fv.take(0) =~= Seq::<(Seq<char>, bool, Option<Seq<char>>)>::empty());
    while i < found.len()
        invariant
            i <= found@.len(),
            fv == found@.map_values(|f: FoundRecording| found_view(f)),
            rv == referenced@.map_values(|s: String| s@),
            out@.map_values(|s: String| s@) == orphan_paths(fv.take(i as int), rv),
        decreases found@.len() - i,
    {
        let f = &found[i];
        assert(fv[i as int] == found_view(*f));
        let mut take = false;
        if is_wav_path(f.path.as_str()) && f.is_file {
            match &f.canonical {
                Some(c) => {
                    let mut hit = false;
                    let mut j: usize = 0;
                    while j < referenced.len()
                        invariant
                            j <= referenced@.len(),
                            rv == referenced@.map_values(|s: String| s@),
                            hit <==> exists|k: int| 0 <= k < j && rv[k] == c@,
                        decreases referenced@.len() - j,
                    {
                        assert(rv[j as int] == referenced@[j as int]@);
                        if crate::text::str_eq(referenced[j].as_str(), c.as_str()) {
                            hit = true;
                        }
                        j = j + 1;
                    }
                    proof {
                        if rv.contains(c@) {
                            let k = choose|k: int| 0 <= k < rv.len() && rv[k] == c@;
                            assert(0 <= k < j);
                        }
                    }
                    take = !hit;
                },
                None => {},
            }
        }
        assert(take == is_orphan(fv[i as int], rv));
        assert(fv.take(i + 1).drop_last() =~= fv.take(i as int));
        assert(fv.take(i + 1).last() == fv[i as int]);
        let ghost before = out@.map_values(|s: String| s@);
        if take {
            out.push(f.path.clone());
            assert(out@.map_values(|s: String| s@) =~= before.push(f.path@));
        }
        i = i + 1;
    }
    assert(fv.take(found@.len() as int) =~= fv);
    out
}

} // verus!
