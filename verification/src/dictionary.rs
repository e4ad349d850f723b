//! Dictionary of word replacements: validation, lookup by the `from` text,
//! editing, import, and applying the replacements to a transcription.
//!
//! Entries are matched case-insensitively on their whole `from` value; two
//! entries with the same lowercase `from` are duplicates.
use vstd::prelude::*;
use vstd::string::StringExecFns;
use crate::text::{spec_to_lowercase, is_blank, decimal, str_is_blank, to_lowercase};

verus! {

broadcast use vstd::string::group_string_axioms;

/// A dictionary entry for word replacement.
#[derive(Debug, Clone)]
pub struct DictionaryEntry {
    /// The text to search for and replace.
    pub from: String,
    /// The replacement text.
    pub to: String,
    /// Whether the match should be case-sensitive.
    pub case_sensitive: bool,
}

/// The dictionary storage structure.
#[derive(Debug)]
pub struct Dictionary {
    /// The dictionary entries.
    pub entries: Vec<DictionaryEntry>,
}

impl Default for Dictionary {
    fn default() -> (r: Self)
        ensures
            r.entries@.len() == 0,
    {
        Dictionary { entries: Vec::new() }
    }
}

/// An entry by its text: `(from, to, case_sensitive)`.
pub open spec fn entry_view(e: DictionaryEntry) -> (Seq<char>, Seq<char>, bool) {
    (e.from@, e.to@, e.case_sensitive)
}

/// The entries by their text.
pub open spec fn entries_view(v: Seq<DictionaryEntry>) -> Seq<(Seq<char>, Seq<char>, bool)> {
    v.map_values(|e: DictionaryEntry| entry_view(e))
}

/// The key an entry is matched by: its lowercase `from`.
pub open spec fn entry_key(e: DictionaryEntry) -> Seq<char> {
    spec_to_lowercase(e.from@)
}

/// Indices among the first `n` entries whose key is `needle`, in order.
pub open spec fn match_indices(entries: Seq<DictionaryEntry>, needle: Seq<char>, n: int) -> Seq<int>
    decreases n,
{
    if n <= 0 {
        Seq::empty()
    } else {
        let prev = match_indices(entries, needle, n - 1);
        if entry_key(entries[n - 1]) == needle {
            prev.push(n - 1)
        } else {
            prev
        }
    }
}

/// Every reported match is an in-range index whose key is the needle.
pub proof fn lemma_match_indices_valid(entries: Seq<DictionaryEntry>, needle: Seq<char>, n: int)
    requires
        n <= entries.len(),
    ensures
        forall|k: int| 0 <= k < match_indices(entries, needle, n).len() ==> 0 <= #[trigger] match_indices(entries, needle, n)[k] < n
            && entry_key(entries[match_indices(entries, needle, n)[k]]) == needle,
    decreases n,
{
    if n > 0 {
        lemma_match_indices_valid(entries, needle, n - 1);
        let prev = match_indices(entries, needle, n - 1);
        let m = match_indices(entries, needle, n);
        assert forall|k: int| 0 <= k < m.len() implies 0 <= #[trigger] m[k] < n && entry_key(entries[m[k]]) == needle by {
            if k < prev.len() {
                assert(m[k] == prev[k]);
            }
        }
    }
}

/// Whether some entry other than `skip` has key `needle`.
pub open spec fn key_taken(entries: Seq<DictionaryEntry>, needle: Seq<char>, skip: int) -> bool {
    exists|i: int| 0 <= i < entries.len() && i != skip && #[trigger] entry_key(entries[i]) == needle
}

/// Error text for an empty `from`.
pub open spec fn empty_from_message() -> Seq<char> {
    "The 'from' field cannot be empty"@
}

/// Error text for an empty `to`.
pub open spec fn empty_to_message() -> Seq<char> {
    "The 'to' field cannot be empty"@
}

/// Error text for a duplicate `from`.
pub open spec fn duplicate_message(from: Seq<char>) -> Seq<char> {
    "An entry for '"@ + from + "' already exists"@
}

/// Error text for an index past the end.
pub open spec fn invalid_index_message(index: nat) -> Seq<char> {
    "Invalid entry index: "@ + decimal(index)
}

/// Error text when no entry has the key.
pub open spec fn no_entry_message(key: Seq<char>) -> Seq<char> {
    "No dictionary entry has a 'from' of '"@ + key + "'"@
}

/// The indices written out, separated by `", "`.
pub open spec fn join_indices(v: Seq<int>) -> Seq<char>
    decreases v.len(),
{
    if v.len() == 0 {
        Seq::empty()
    } else if v.len() == 1 {
        decimal(v[0] as nat)
    } else {
        join_indices(v.drop_last()) + ", "@ + decimal(v.last() as nat)
    }
}

/// Error text when several entries have the key.
pub open spec fn ambiguous_message(key: Seq<char>, matches: Seq<int>) -> Seq<char> {
    "'"@ + key + "' matches "@ + decimal(matches.len()) + " entries (indices "@ + join_indices(matches)
        + "); refusing to guess — pass an explicit 'index' to pick one"@
}

/// `t` occurs in `s` as a run of consecutive characters.
pub open spec fn occurs_in(t: Seq<char>, s: Seq<char>) -> bool {
    exists|p: int| 0 <= p && p + t.len() <= s.len() && #[trigger] s.subrange(p, p + t.len()) == t
}

/// A run found in `s` is found in `a + s + b` as well.
proof fn lemma_occurs_in_context(t: Seq<char>, a: Seq<char>, s: Seq<char>, b: Seq<char>)
    requires
        occurs_in(t, s),
    ensures
        occurs_in(t, a + s + b),
{
    let p = choose|p: int| 0 <= p && p + t.len() <= s.len() && #[trigger] s.subrange(p, p + t.len()) == t;
    let w = a + s + b;
    let q = a.len() + p;
    assert(w.subrange(q, q + t.len()) =~= s.subrange(p, p + t.len()));
}

/// Every index of the list is written out in it.
proof fn lemma_join_indices_names_all(v: Seq<int>)
    ensures
        forall|k: int| 0 <= k < v.len() ==> occurs_in(decimal(#[trigger] v[k] as nat), join_indices(v)),
    decreases v.len(),
{
    if v.len() == 1 {
        let d = decimal(v[0] as nat);
        assert(join_indices(v) == d);
        assert(join_indices(v).subrange(0, 0 + d.len() as int) =~= d);
        assert(occurs_in(d, join_indices(v)));
    } else if v.len() > 1 {
        let pre = v.drop_last();
        lemma_join_indices_names_all(pre);
        let j = join_indices(pre);
        let last = decimal(v.last() as nat);
        assert(join_indices(v) == j + ", "@ + last);
        assert forall|k: int| 0 <= k < v.len() implies occurs_in(decimal(#[trigger] v[k] as nat), join_indices(v)) by {
            if k < pre.len() {
                assert(pre[k] == v[k]);
                lemma_occurs_in_context(decimal(v[k] as nat), Seq::empty(), j, ", "@ + last);
                assert(Seq::<char>::empty() + j + (", "@ + last) =~= join_indices(v));
            } else {
                let q: int = j.len() as int + 2;
                reveal_strlit(", ");
                assert(join_indices(v).subrange(q, q + last.len()) =~= last);
            }
        }
    }
}

/// The refusal for a missing entry says so.
proof fn lemma_no_entry_message_says_so(key: Seq<char>)
    ensures
        occurs_in("No dictionary entry"@, no_entry_message(key)),
{
    reveal_strlit("No dictionary entry has a 'from' of '");
    reveal_strlit("No dictionary entry");
    let m = no_entry_message(key);
    assert(m.subrange(0int, 0int + "No dictionary entry"@.len()) =~= "No dictionary entry"@);
}

/// When several entries share the key, the refusal names every one of
/// their indices and says that it will not guess.
pub proof fn lemma_ambiguous_message_names_every_index(key: Seq<char>, matches: Seq<int>)
    ensures
        forall|k: int| 0 <= k < matches.len() ==> occurs_in(
            decimal(#[trigger] matches[k] as nat),
            ambiguous_message(key, matches),
        ),
        occurs_in("refusing to guess"@, ambiguous_message(key, matches)),
{
    lemma_join_indices_names_all(matches);
    let a = "'"@ + key + "' matches "@ + decimal(matches.len()) + " entries (indices "@;
    let tail = "); refusing to guess — pass an explicit 'index' to pick one"@;
    let j = join_indices(matches);
    assert(ambiguous_message(key, matches) == a + j + tail);
    assert forall|k: int| 0 <= k < matches.len() implies occurs_in(
        decimal(#[trigger] matches[k] as nat),
        ambiguous_message(key, matches),
    ) by {
        lemma_occurs_in_context(decimal(matches[k] as nat), a, j, tail);
    }
    reveal_strlit("); refusing to guess — pass an explicit 'index' to pick one");
    reveal_strlit("refusing to guess");
    let m = ambiguous_message(key, matches);
    let q: int = (a + j).len() as int + 3;
    assert(m.subrange(q, q + 17) =~= "refusing to guess"@);
}

/// The validation error of an entry, if any: an empty (all-whitespace) `from`
/// is reported first, then an empty `to`.
pub open spec fn validation_error(from: Seq<char>, to: Seq<char>) -> Option<Seq<char>> {
    if is_blank(from) {
        Some(empty_from_message())
    } else if is_blank(to) {
        Some(empty_to_message())
    } else {
        None
    }
}

/// Check that neither side of an entry is empty once trimmed.
pub fn validate_entry(entry: &DictionaryEntry) -> (r: Result<(), String>)
    ensures
        match validation_error(entry.from@, entry.to@) {
            None => r is Ok,
            Some(m) => r matches Err(e) && e@ == m,
        },
{
    if str_is_blank(entry.from.as_str()) {
        proof {
            reveal_strlit("The 'from' field cannot be empty");
        }
        return Err(String::from_str("The 'from' field cannot be empty"));
    }
    if str_is_blank(entry.to.as_str()) {
        proof {
            reveal_strlit("The 'to' field cannot be empty");
        }
        return Err(String::from_str("The 'to' field cannot be empty"));
    }
    Ok(())
}

fn message3(a: &str, b: &str, c: &str) -> (r: String)
    ensures
        r@ == a@ + b@ + c@,
{
    let mut s = String::from_str(a);
    s.append(b);
    s.append(c);
    s
}

/// Index of some entry other than `skip` whose key is `needle`, if any.
fn find_key(entries: &Vec<DictionaryEntry>, needle: &String, skip: Option<usize>) -> (r: bool)
    ensures
        r == key_taken(entries@, needle@, match skip { Some(s) => s as int, None => -1 }),
{
    let ghost sk: int = match skip { Some(s) => s as int, None => -1 };
    let mut i: usize = 0;
    while i < entries.len()
        invariant
            i <= entries@.len(),
            forall|j: int| 0 <= j < i && j != sk ==> #[trigger] entry_key(entries@[j]) != needle@,
            sk == match skip { Some(s) => s as int, None => -1 },
        decreases entries@.len() - i,
    {
        let skipped = match skip { Some(s) => s == i, None => false };
        if !skipped {
            let k = to_lowercase(entries[i].from.as_str());
            assert(k@ == entry_key(entries@[i as int]));
            if k == *needle {
                return true;
            }
            assert(entry_key(entries@[i as int]) != needle@);
        } else {
            assert(i == sk);
        }
        i = i + 1;
    }
    false
}

/// Add an entry: refused when either side is empty or an entry with the same
/// lowercase `from` exists; otherwise appended.
pub fn add_entry_locked(dictionary: &mut Dictionary, entry: DictionaryEntry) -> (r: Result<(), String>)
    ensures
        match validation_error(entry.from@, entry.to@) {
            Some(m) => r matches Err(e) && e@ == m && final(dictionary).entries@ == old(dictionary).entries@,
            None => if key_taken(old(dictionary).entries@, entry_key(entry), -1) {
                r matches Err(e) && e@ == duplicate_message(entry.from@) && final(dictionary).entries@ == old(
                    dictionary,
                ).entries@
            } else {
                r is Ok && final(dictionary).entries@ == old(dictionary).entries@.push(entry)
            },
        },
{
    match validate_entry(&entry) {
        Err(e) => {
            return Err(e);
        },
        Ok(()) => {},
    }
    let key = to_lowercase(entry.from.as_str());
    if find_key(&dictionary.entries, &key, None) {
        proof {
            reveal_strlit("An entry for '");
            reveal_strlit("' already exists");
            assert(key_taken(old(dictionary).entries@, entry_key(entry), -1));
        }
        return Err(message3("An entry for '", entry.from.as_str(), "' already exists"));
    }
    dictionary.entries.push(entry);
    Ok(())
}

} // verus!

verus! {

fn clone_entry(e: &DictionaryEntry) -> (r: DictionaryEntry)
    ensures
        r == *e,
{
    DictionaryEntry { from: e.from.clone(), to: e.to.clone(), case_sensitive: e.case_sensitive }
}

fn join_index_list(m: &Vec<usize>) -> (s: String)
    ensures
        s@ == join_indices(m@.map_values(|i: usize| i as int)),
{
    let ghost mi = m@.map_values(|i: usize| i as int);
    let mut s = String::new();
    let mut i: usize = 0;
    proof {
        reveal_strlit(", ");
        assert(mi.take(0) =~= Seq::<int>::empty());
    }
    while i < m.len()
        invariant
            i <= m@.len(),
            mi == m@.map_values(|i: usize| i as int),
            s@ == join_indices(mi.take(i as int)),
        decreases m@.len() - i,
    {
        let d = crate::text::u64_to_decimal(m[i] as u64);
        assert(mi.take(i + 1).drop_last() =~= mi.take(i as int));
        if i > 0 {
            s.append(", ");
        } else {
            assert(s@ =~= Seq::<char>::empty());
        }
        s.append(d.as_str());
        assert(s@ =~= join_indices(mi.take(i + 1)));
        i = i + 1;
    }
    assert(mi.take(m@.len() as int) =~= mi);
    s
}

/// Resolve the one entry whose `from` matches `key` case-insensitively on
/// the whole value, or refuse: zero matches and several matches are errors.
pub fn resolve_unique_from(entries: &Vec<DictionaryEntry>, key: &str) -> (r: Result<usize, String>)
    ensures
        ({
            let m = match_indices(entries@, spec_to_lowercase(key@), entries@.len() as int);
            &&& m.len() == 1 ==> r == Ok::<usize, String>(m[0] as usize)
            &&& m.len() == 0 ==> (r matches Err(e) && e@ == no_entry_message(key@))
            &&& m.len() > 1 ==> (r matches Err(e) && e@ == ambiguous_message(key@, m))
            &&& r matches Ok(i) ==> i < entries@.len()
            &&& m.len() == 0 ==> (r matches Err(e) && occurs_in("No dictionary entry"@, e@))
            &&& m.len() > 1 ==> (r matches Err(e) && occurs_in("refusing to guess"@, e@) && forall|k: int|
                0 <= k < m.len() ==> occurs_in(decimal(#[trigger] m[k] as nat), e@))
        }),
{
    proof {
        let m = match_indices(entries@, spec_to_lowercase(key@), entries@.len() as int);
        lemma_ambiguous_message_names_every_index(key@, m);
        lemma_no_entry_message_says_so(key@);
    }
    proof {
        lemma_match_indices_valid(entries@, spec_to_lowercase(key@), entries@.len() as int);
    }
    let needle = to_lowercase(key);
    let mut found: Vec<usize> = Vec::new();
    let mut i: usize = 0;
    while i < entries.len()
        invariant
            i <= entries@.len(),
            found@.map_values(|x: usize| x as int) == match_indices(entries@, needle@, i as int),
            forall|j: int| 0 <= j < found@.len() ==> found@[j] < i,
        decreases entries@.len() - i,
    {
        let k = to_lowercase(entries[i].from.as_str());
        let ghost before = found@;
        if k == needle {
            found.push(i);
            assert(found@.map_values(|x: usize| x as int) =~= before.map_values(|x: usize| x as int).push(i as int));
        }
        i = i + 1;
    }
    let ghost m = match_indices(entries@, needle@, entries@.len() as int);
    assert(found@.len() == m.len());
    if found.len() == 1 {
        assert(found@[0] as int == m[0]);
        return Ok(found[0]);
    }
    if found.len() == 0 {
        proof {
            reveal_strlit("No dictionary entry has a 'from' of '");
            reveal_strlit("'");
        }
        return Err(message3("No dictionary entry has a 'from' of '", key, "'"));
    }
    proof {
        reveal_strlit("'");
        reveal_strlit("' matches ");
        reveal_strlit(" entries (indices ");
        reveal_strlit("); refusing to guess — pass an explicit 'index' to pick one");
    }
    let mut msg = String::from_str("'");
    msg.append(key);
    msg.append("' matches ");
    let count = crate::text::u64_to_decimal(found.len() as u64);
    msg.append(count.as_str());
    msg.append(" entries (indices ");
    let list = join_index_list(&found);
    msg.append(list.as_str());
    msg.append("); refusing to guess — pass an explicit 'index' to pick one");
    Err(msg)
}

/// Update one entry in place. Refused, leaving the dictionary unchanged, when
/// either side is empty, the index is out of range, or another entry already
/// has the same lowercase `from` (checked in that order).
pub fn update_entry_locked(dictionary: &mut Dictionary, index: usize, entry: DictionaryEntry) -> (r: Result<(), String>)
    ensures
        r is Err ==> final(dictionary).entries@ == old(dictionary).entries@,
        match validation_error(entry.from@, entry.to@) {
            Some(m) => r matches Err(e) && e@ == m,
            None => if index >= old(dictionary).entries@.len() {
                r matches Err(e) && e@ == invalid_index_message(index as nat)
            } else if key_taken(old(dictionary).entries@, entry_key(entry), index as int) {
                r matches Err(e) && e@ == duplicate_message(entry.from@)
            } else {
                r is Ok && final(dictionary).entries@ == old(dictionary).entries@.update(index as int, entry)
            },
        },
{
    match validate_entry(&entry) {
        Err(e) => {
            return Err(e);
        },
        Ok(()) => {},
    }
    if index >= dictionary.entries.len() {
        proof {
            reveal_strlit("Invalid entry index: ");
        }
        let mut msg = String::from_str("Invalid entry index: ");
        let d = crate::text::u64_to_decimal(index as u64);
        msg.append(d.as_str());
        return Err(msg);
    }
    let key = to_lowercase(entry.from.as_str());
    if find_key(&dictionary.entries, &key, Some(index)) {
        proof {
            reveal_strlit("An entry for '");
            reveal_strlit("' already exists");
        }
        return Err(message3("An entry for '", entry.from.as_str(), "' already exists"));
    }
    dictionary.entries.set(index, entry);
    Ok(())
}

/// Remove one entry. Refused when the index is out of range.
pub fn remove_entry_locked(dictionary: &mut Dictionary, index: usize) -> (r: Result<(), String>)
    ensures
        index >= old(dictionary).entries@.len() ==> (r matches Err(e) && e@ == invalid_index_message(index as nat)
            && final(dictionary).entries@ == old(dictionary).entries@),
        index < old(dictionary).entries@.len() ==> (r is Ok && final(dictionary).entries@ == old(
            dictionary,
        ).entries@.remove(index as int)),
{
    if index >= dictionary.entries.len() {
        proof {
            reveal_strlit("Invalid entry index: ");
        }
        let mut msg = String::from_str("Invalid entry index: ");
        let d = crate::text::u64_to_decimal(index as u64);
        msg.append(d.as_str());
        return Err(msg);
    }
    let _removed = dictionary.entries.remove(index);
    Ok(())
}

/// Update the single entry whose `from` is `from_key` (case-insensitively),
/// returning its index. The stored `from` is kept verbatim; `case_sensitive`
/// of `None` keeps the entry's flag.
pub fn update_dictionary_entry_by_from(
    dictionary: &mut Dictionary,
    from_key: &str,
    to: String,
    case_sensitive: Option<bool>,
) -> (r: Result<usize, String>)
    ensures
        ({
            let es = old(dictionary).entries@;
            let m = match_indices(es, spec_to_lowercase(from_key@), es.len() as int);
            &&& m.len() != 1 ==> r is Err && final(dictionary).entries@ == es
            &&& m.len() == 0 ==> (r matches Err(e) && e@ == no_entry_message(from_key@))
            &&& m.len() > 1 ==> (r matches Err(e) && e@ == ambiguous_message(from_key@, m))
            &&& m.len() == 1 ==> {
                let i = m[0];
                let new_entry_from = es[i].from@;
                let flag = match case_sensitive {
                    Some(b) => b,
                    None => es[i].case_sensitive,
                };
                match validation_error(new_entry_from, to@) {
                    Some(msg) => r matches Err(e) && e@ == msg && final(dictionary).entries@ == es,
                    None => if key_taken(es, spec_to_lowercase(new_entry_from), i) {
                        r matches Err(e) && e@ == duplicate_message(new_entry_from)
                            && final(dictionary).entries@ == es
                    } else {
                        r == Ok::<usize, String>(i as usize) && final(dictionary).entries@.len() == es.len()
                            && (forall|j: int| 0 <= j < es.len() && j != i ==> final(dictionary).entries@[j] == es[j])
                            && entry_view(final(dictionary).entries@[i]) == (new_entry_from, to@, flag)
                    },
                }
            }
        }),
{
    proof {
        lemma_match_indices_valid(dictionary.entries@, spec_to_lowercase(from_key@), dictionary.entries@.len() as int);
    }
    let index = match resolve_unique_from(&dictionary.entries, from_key) {
        Ok(i) => i,
        Err(e) => {
            return Err(e);
        },
    };
    let ghost es = dictionary.entries@;
    let ghost m = match_indices(es, spec_to_lowercase(from_key@), es.len() as int);
    assert(m.len() == 1);
    assert(0 <= m[0] < es.len());
    let n = dictionary.entries.len();
    assert(n == es.len());
    assert(index as int == m[0]);
    let existing = &dictionary.entries[index];
    let flag = match case_sensitive {
        Some(b) => b,
        None => existing.case_sensitive,
    };
    let entry = DictionaryEntry { from: existing.from.clone(), to, case_sensitive: flag };
    match update_entry_locked(dictionary, index, entry) {
        Ok(()) => Ok(index),
        Err(e) => Err(e),
    }
}

/// Remove the single entry whose `from` is `from_key` (case-insensitively),
/// returning the index it was removed from.
pub fn remove_dictionary_entry_by_from(dictionary: &mut Dictionary, from_key: &str) -> (r: Result<usize, String>)
    ensures
        ({
            let es = old(dictionary).entries@;
            let m = match_indices(es, spec_to_lowercase(from_key@), es.len() as int);
            &&& m.len() != 1 ==> r is Err && final(dictionary).entries@ == es
            &&& m.len() == 0 ==> (r matches Err(e) && e@ == no_entry_message(from_key@))
            &&& m.len() > 1 ==> (r matches Err(e) && e@ == ambiguous_message(from_key@, m))
            &&& m.len() == 1 ==> r == Ok::<usize, String>(m[0] as usize) && final(dictionary).entries@ == es.remove(m[0])
        }),
{
    proof {
        lemma_match_indices_valid(dictionary.entries@, spec_to_lowercase(from_key@), dictionary.entries@.len() as int);
    }
    let index = match resolve_unique_from(&dictionary.entries, from_key) {
        Ok(i) => i,
        Err(e) => {
            return Err(e);
        },
    };
    let ghost es = dictionary.entries@;
    let ghost m = match_indices(es, spec_to_lowercase(from_key@), es.len() as int);
    assert(m.len() == 1);
    assert(0 <= m[0] < es.len());
    let n = dictionary.entries.len();
    assert(n == es.len());
    assert(index as int == m[0]);
    let res = remove_entry_locked(dictionary, index);
    assert(dictionary.entries@ == es.remove(m[0]));
    match res {
        Ok(()) => Ok(index),
        Err(e) => Err(e),
    }
}

} // verus!

verus! {

/// Whether an entry may be imported: neither side is empty once trimmed.
pub open spec fn importable(e: DictionaryEntry) -> bool {
    !is_blank(e.from@) && !is_blank(e.to@)
}

/// The imported entries that are kept: importable ones, and when merging
/// only those whose lowercase `from` is not already in `existing`.
pub open spec fn kept_imports(existing: Seq<DictionaryEntry>, imported: Seq<DictionaryEntry>, merge: bool) -> Seq<
    DictionaryEntry,
>
    decreases imported.len(),
{
    if imported.len() == 0 {
        Seq::empty()
    } else {
        let prev = kept_imports(existing, imported.drop_last(), merge);
        let e = imported.last();
        if importable(e) && (!merge || !key_taken(existing, entry_key(e), -1)) {
            prev.push(e)
        } else {
            prev
        }
    }
}

/// Import entries. Merging appends the importable entries whose `from` is
/// not already present; replacing swaps in the importable entries. Returns
/// how many entries were imported.
pub fn import_entries(dictionary: &mut Dictionary, imported: Vec<DictionaryEntry>, merge: bool) -> (count: usize)
    ensures
        merge ==> final(dictionary).entries@ == old(dictionary).entries@ + kept_imports(
            old(dictionary).entries@,
            imported@,
            true,
        ),
        !merge ==> final(dictionary).entries@ == kept_imports(old(dictionary).entries@, imported@, false),
        count == kept_imports(old(dictionary).entries@, imported@, merge).len(),
{
    let mut kept: Vec<DictionaryEntry> = Vec::new();
    let mut i: usize = 0;
    while i < imported.len()
        invariant
            i <= imported@.len(),
            dictionary.entries@ == old(dictionary).entries@,
            kept@ == kept_imports(old(dictionary).entries@, imported@.take(i as int), merge),
        decreases imported@.len() - i,
    {
        let e = &imported[i];
        assert(imported@.take(i + 1).drop_last() =~= imported@.take(i as int));
        assert(imported@.take(i + 1).last() == imported@[i as int]);
        let valid = !str_is_blank(e.from.as_str()) && !str_is_blank(e.to.as_str());
        if valid {
            let fresh = if merge {
                let key = to_lowercase(e.from.as_str());
                !find_key(&dictionary.entries, &key, None)
            } else {
                true
            };
            if fresh {
                kept.push(clone_entry(e));
            }
        }
        i = i + 1;
    }
    assert(imported@.take(imported@.len() as int) =~= imported@);
    let count = kept.len();
    if merge {
        dictionary.entries.append(&mut kept);
    } else {
        dictionary.entries = kept;
    }
    count
}

/// A character with a meaning in regular-expression syntax, which must be
/// escaped to match itself (the set `regex::escape` escapes).
pub open spec fn is_meta_character(c: char) -> bool {
    c == '\\' || c == '.' || c == '+' || c == '*' || c == '?' || c == '(' || c == ')' || c == '|' || c == '['
        || c == ']' || c == '{' || c == '}' || c == '^' || c == '$' || c == '#' || c == '&' || c == '-' || c == '~'
}

/// The text with a backslash before every meta character, as
/// `regex::escape` writes it, so a regular expression matches it literally.
pub open spec fn spec_regex_escape(s: Seq<char>) -> Seq<char>
    decreases s.len(),
{
    if s.len() == 0 {
        Seq::empty()
    } else {
        spec_regex_escape(s.drop_last()) + if is_meta_character(s.last()) {
            seq!['\\', s.last()]
        } else {
            seq![s.last()]
        }
    }
}

/// Escape a string so a regular expression matches it literally; the same
/// text `regex::escape` gives.
pub fn regex_escape(s: &str) -> (r: String)
    ensures
        r@ == spec_regex_escape(s@),
{
    let v = crate::text::str_chars(s);
    let mut out = String::new();
    let mut i: usize = 0;
    assert(v@.take(0) =~= Seq::<char>::empty());
    while i < v.len()
        invariant
            i <= v@.len(),
            v@ == s@,
            out@ == spec_regex_escape(v@.take(i as int)),
        decreases v@.len() - i,
    {
        let c = v[i];
        assert(v@.take(i + 1).drop_last() =~= v@.take(i as int));
        assert(v@.take(i + 1).last() == c);
        if c == '\\' || c == '.' || c == '+' || c == '*' || c == '?' || c == '(' || c == ')' || c == '|' || c == '['
            || c == ']' || c == '{' || c == '}' || c == '^' || c == '$' || c == '#' || c == '&' || c == '-' || c
            == '~' {
            crate::text::string_push(&mut out, '\\');
        }
        crate::text::string_push(&mut out, c);
        assert(out@ =~= spec_regex_escape(v@.take(i + 1)));
        i = i + 1;
    }
    assert(v@.take(v@.len() as int) =~= v@);
    out
}

/// What replacing every match of `pattern` in `text` with the literal
/// `replacement` gives, or `None` when the pattern does not compile.
pub uninterp spec fn spec_regex_replace_all(
    pattern: Seq<char>,
    case_insensitive: bool,
    text: Seq<char>,
    replacement: Seq<char>,
) -> Option<Seq<char>>;

/// Replace every match of a regular expression with a literal string.
///
/// Wraps `regex::RegexBuilder` (with its case-insensitivity switch) and
/// `Regex::replace_all` with `NoExpand`, so `$` in the replacement is not
/// expanded. A pattern that fails to compile gives `None`. The result depends
/// only on the arguments; the contract names it and claims nothing more.
#[verifier::external_body]
fn regex_replace_all_literal(pattern: &str, case_insensitive: bool, text: &str, replacement: &str) -> (r: Option<
    String,
>)
    ensures
        crate::config::opt_string_view(r) == spec_regex_replace_all(pattern@, case_insensitive, text@, replacement@),
{
    match regex::RegexBuilder::new(pattern).case_insensitive(case_insensitive).build() {
        Ok(re) => Some(re.replace_all(text, regex::NoExpand(replacement)).into_owned()),
        Err(_) => None,
    }
}

/// The whole-word pattern for `from`: the escaped text between `\b` word
/// boundaries.
pub open spec fn whole_word_pattern(from: Seq<char>) -> Seq<char> {
    seq!['\\', 'b'] + spec_regex_escape(from) + seq!['\\', 'b']
}

/// The result of replacing whole-word occurrences of `from` with `to`.
pub open spec fn spec_replace_whole_word(text: Seq<char>, from: Seq<char>, to: Seq<char>, case_sensitive: bool) -> Seq<
    char,
> {
    if from.len() == 0 {
        text
    } else {
        match spec_regex_replace_all(whole_word_pattern(from), !case_sensitive, text, to) {
            Some(r) => r,
            None => if case_sensitive {
                crate::text::replace_all(text, from, to)
            } else {
                text
            },
        }
    }
}

/// Replace whole-word occurrences of `from` with `to`, so a substring inside
/// a larger word is left alone. If the boundary pattern fails to compile, a
/// case-sensitive entry falls back to plain substring replacement and a
/// case-insensitive one leaves the text unchanged.
pub fn replace_whole_word(text: &str, from: &str, to: &str, case_sensitive: bool) -> (r: String)
    ensures
        r@ == spec_replace_whole_word(text@, from@, to@, case_sensitive),
{
    if from.is_empty() {
        return String::from_str(text);
    }
    proof {
        reveal_strlit("\\b");
    }
    let mut pattern = String::from_str("\\b");
    let escaped = regex_escape(from);
    pattern.append(escaped.as_str());
    pattern.append("\\b");
    assert(pattern@ =~= whole_word_pattern(from@));
    match regex_replace_all_literal(pattern.as_str(), !case_sensitive, text, to) {
        Some(r) => r,
        None => {
            if case_sensitive {
                crate::text::str_replace(text, from, to)
            } else {
                String::from_str(text)
            }
        },
    }
}

/// The text after applying the first `n` entries in order.
pub open spec fn apply_entries(entries: Seq<DictionaryEntry>, text: Seq<char>, n: int) -> Seq<char>
    decreases n,
{
    if n <= 0 {
        text
    } else {
        let e = entries[n - 1];
        spec_replace_whole_word(apply_entries(entries, text, n - 1), e.from@, e.to@, e.case_sensitive)
    }
}

/// Apply every dictionary replacement to `text`, in entry order.
pub fn apply_dictionary(dictionary: &Dictionary, text: &str) -> (r: String)
    ensures
        r@ == apply_entries(dictionary.entries@, text@, dictionary.entries@.len() as int),
{
    let mut result = String::from_str(text);
    let mut i: usize = 0;
    while i < dictionary.entries.len()
        invariant
            i <= dictionary.entries@.len(),
            result@ == apply_entries(dictionary.entries@, text@, i as int),
        decreases dictionary.entries@.len() - i,
    {
        let e = &dictionary.entries[i];
        result = replace_whole_word(result.as_str(), e.from.as_str(), e.to.as_str(), e.case_sensitive);
        i = i + 1;
    }
    result
}

/// The distinct texts of a sequence, each kept where it first occurs.
pub open spec fn distinct_in_order(s: Seq<Seq<char>>) -> Seq<Seq<char>>
    decreases s.len(),
{
    if s.len() == 0 {
        Seq::empty()
    } else {
        let p = distinct_in_order(s.drop_last());
        if p.contains(s.last()) {
            p
        } else {
            p.push(s.last())
        }
    }
}

/// The texts of a list of strings.
pub open spec fn texts_of(v: Seq<String>) -> Seq<Seq<char>> {
    v.map_values(|w: String| w@)
}

/// The replacement words of the entries, in order.
pub open spec fn replacement_words(entries: Seq<DictionaryEntry>) -> Seq<Seq<char>> {
    entries.map_values(|e: DictionaryEntry| e.to@)
}

/// Keeping first occurrences leaves no text twice and loses none.
pub proof fn lemma_distinct_in_order(s: Seq<Seq<char>>)
    ensures
        distinct_in_order(s).no_duplicates(),
        forall|x: Seq<char>| #[trigger] distinct_in_order(s).contains(x) <==> s.contains(x),
    decreases s.len(),
{
    if s.len() > 0 {
        lemma_distinct_in_order(s.drop_last());
        let p = distinct_in_order(s.drop_last());
        assert forall|x: Seq<char>| #[trigger] distinct_in_order(s).contains(x) <==> s.contains(x) by {
            if s.contains(x) {
                let k = choose|k: int| 0 <= k < s.len() && s[k] == x;
                if k < s.len() - 1 {
                    assert(s.drop_last()[k] == x);
                }
            }
            if s.drop_last().contains(x) {
                let k = choose|k: int| 0 <= k < s.drop_last().len() && s.drop_last()[k] == x;
                assert(s[k] == x);
            }
            if !p.contains(s.last()) {
                if p.push(s.last()).contains(x) {
                    let k = choose|k: int| 0 <= k < p.push(s.last()).len() && p.push(s.last())[k] == x;
                    if k < p.len() {
                        assert(p[k] == x);
                    }
                }
                if p.contains(x) {
                    let k = choose|k: int| 0 <= k < p.len() && p[k] == x;
                    assert(p.push(s.last())[k] == x);
                }
                assert(p.push(s.last())[p.len() as int] == s.last());
            }
        }
    }
}

/// The vocabulary for giving the enhancement model the user's terms: each
/// distinct replacement word of the dictionary once, in the order of its
/// first entry. Every replacement word is there, and no word twice.
pub fn get_vocabulary_for_context(dictionary: &Dictionary) -> (r: Vec<String>)
    ensures
        texts_of(r@) == distinct_in_order(replacement_words(dictionary.entries@)),
        texts_of(r@).no_duplicates(),
        forall|x: Seq<char>| #[trigger] texts_of(r@).contains(x) <==> replacement_words(dictionary.entries@).contains(x),
{
    let ghost words = replacement_words(dictionary.entries@);
    let mut out: Vec<String> = Vec::new();
    let mut i: usize = 0;
    assert(words.take(0) =~= Seq::<Seq<char>>::empty());
    while i < dictionary.entries.len()
        invariant
            i <= dictionary.entries@.len(),
            words == replacement_words(dictionary.entries@),
            out@.map_values(|w: String| w@) == distinct_in_order(words.take(i as int)),
        decreases dictionary.entries@.len() - i,
    {
        let ghost cur = out@.map_values(|w: String| w@);
        let to = &dictionary.entries[i].to;
        let mut seen = false;
        let mut j: usize = 0;
        while j < out.len()
            invariant
                j <= out@.len(),
                cur == out@.map_values(|w: String| w@),
                seen <==> exists|k: int| 0 <= k < j && cur[k] == to@,
            decreases out@.len() - j,
        {
            assert(cur[j as int] == out@[j as int]@);
            if crate::text::str_eq(out[j].as_str(), to.as_str()) {
                seen = true;
            }
            j = j + 1;
        }
        proof {
            assert(words.take(i + 1).drop_last() =~= words.take(i as int));
            assert(words.take(i + 1).last() == to@);
            assert(seen <==> cur.contains(to@)) by {
                if cur.contains(to@) {
                    let k = choose|k: int| 0 <= k < cur.len() && cur[k] == to@;
                    assert(0 <= k < j);
                }
            }
        }
        if !seen {
            out.push(to.clone());
            assert(out@.map_values(|w: String| w@) =~= cur.push(to@));
        }
        i = i + 1;
    }
    assert(words.take(dictionary.entries@.len() as int) =~= words);
    proof {
        lemma_distinct_in_order(words);
    }
    out
}

/// Every imported entry has both sides non-empty, a merge never brings in an
/// entry whose lowercase `from` is already stored, and no more entries are
/// imported than were offered.
pub proof fn lemma_imports_are_valid(existing: Seq<DictionaryEntry>, imported: Seq<DictionaryEntry>, merge: bool)
    ensures
        forall|k: int| 0 <= k < kept_imports(existing, imported, merge).len() ==> importable(
            #[trigger] kept_imports(existing, imported, merge)[k],
        ),
        merge ==> forall|k: int| 0 <= k < kept_imports(existing, imported, merge).len() ==> !key_taken(
            existing,
            entry_key(#[trigger] kept_imports(existing, imported, merge)[k]),
            -1,
        ),
        kept_imports(existing, imported, merge).len() <= imported.len(),
    decreases imported.len(),
{
    if imported.len() > 0 {
        lemma_imports_are_valid(existing, imported.drop_last(), merge);
        let prev = kept_imports(existing, imported.drop_last(), merge);
        let cur = kept_imports(existing, imported, merge);
        assert forall|k: int| 0 <= k < cur.len() implies importable(#[trigger] cur[k]) && (merge ==> !key_taken(existing, entry_key(cur[k]), -1)) by {
            if k < prev.len() {
                assert(cur[k] == prev[k]);
            }
        }
    }
}


/// Matches among the first `n` entries depend only on those entries.
proof fn lemma_match_indices_prefix(es: Seq<DictionaryEntry>, more: Seq<DictionaryEntry>, needle: Seq<char>, n: int)
    requires
        n <= es.len(),
    ensures
        match_indices(es + more, needle, n) == match_indices(es, needle, n),
    decreases n,
{
    if n > 0 {
        lemma_match_indices_prefix(es, more, needle, n - 1);
        assert((es + more)[n - 1] == es[n - 1]);
    }
}

proof fn lemma_no_match_is_empty(es: Seq<DictionaryEntry>, needle: Seq<char>, n: int)
    requires
        n <= es.len(),
        forall|i: int| 0 <= i < n ==> #[trigger] entry_key(es[i]) != needle,
    ensures
        match_indices(es, needle, n).len() == 0,
    decreases n,
{
    if n > 0 {
        lemma_no_match_is_empty(es, needle, n - 1);
    }
}

/// An entry that was added can always be addressed by its `from`: after a
/// successful add, resolving the new entry's `from` finds exactly the new
/// entry, at the end of the list.
pub proof fn lemma_added_entry_resolves(es: Seq<DictionaryEntry>, e: DictionaryEntry)
    requires
        !key_taken(es, entry_key(e), -1),
    ensures
        match_indices(es.push(e), entry_key(e), es.len() + 1int) == seq![es.len() as int],
{
    let needle = entry_key(e);
    assert forall|i: int| 0 <= i < es.len() implies #[trigger] entry_key(es[i]) != needle by {
        if entry_key(es[i]) == needle {
            assert(i != -1);
        }
    }
    lemma_no_match_is_empty(es, needle, es.len() as int);
    assert(es.push(e) =~= es + seq![e]);
    lemma_match_indices_prefix(es, seq![e], needle, es.len() as int);
    assert(es.push(e)[es.len() as int] == e);
    assert(match_indices(es.push(e), needle, es.len() + 1int) =~= seq![es.len() as int]);
}

} // verus!
