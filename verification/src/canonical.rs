//! Canonical terms: a registry of spellings that transcripts are snapped to.
//! A transcript is split into words and gaps; windows of consecutive words
//! are matched against each term (exactly against the term and its aliases,
//! or by a fuzzy verdict computed elsewhere), and a matched window is replaced
//! by the term's output form.
use vstd::prelude::*;
use vstd::string::StringExecFns;
use crate::text::{is_ws, spec_to_lowercase, str_chars, to_lowercase, chars_to_string};
use crate::dictionary::DictionaryEntry;

verus! {

broadcast use vstd::string::group_string_axioms;

// ---------------------------------------------------------------------------
// Data model
// ---------------------------------------------------------------------------

/// How aggressively unknown variants are snapped to a canonical term.
#[derive(Debug, Clone, Copy, PartialEq, Eq, Structural)]
pub enum SnapPolicy {
    /// Snap only on the term or an explicit alias (case-insensitive).
    AliasOnly,
    /// Snap on a phonetic match that is also close in spelling.
    Phonetic,
    /// As `Phonetic`, with a stricter default spelling threshold.
    Conservative,
}

impl Default for SnapPolicy {
    fn default() -> (r: Self)
        ensures
            r == SnapPolicy::AliasOnly,
    {
        SnapPolicy::AliasOnly
    }
}

/// A canonical term with its variants and matching policy.
#[derive(Debug, Clone)]
pub struct CanonicalTerm {
    /// The canonical spelling to snap to.
    pub term: String,
    /// Explicit spelling variants (matched exactly, case-insensitive).
    pub aliases: Vec<String>,
    /// Matching policy.
    pub policy: SnapPolicy,
    /// Largest number of consecutive words considered as one candidate.
    pub max_words: u8,
    /// Per-term override of the spelling threshold, as the IEEE-754 bit
    /// pattern of the `f64` value; `None` keeps the policy's default.
    pub threshold_bits: Option<u64>,
}

/// Default window size of a term.
pub fn default_max_words() -> (r: u8)
    ensures
        r == 3,
{
    3
}

/// A term by its text: `(term, aliases, max_words)`.
pub open spec fn term_view(t: CanonicalTerm) -> (Seq<char>, Seq<Seq<char>>, u8) {
    (t.term@, t.aliases@.map_values(|a: String| a@), t.max_words)
}

// ---------------------------------------------------------------------------
// Character properties and case mapping (from the standard library)
// ---------------------------------------------------------------------------

/// Whether `char::is_alphanumeric` holds of `c`.
pub uninterp spec fn spec_is_alphanumeric(c: char) -> bool;

/// Whether `char::is_uppercase` holds of `c`.
pub uninterp spec fn spec_is_uppercase(c: char) -> bool;

/// Whether `char::is_lowercase` holds of `c`.
pub uninterp spec fn spec_is_lowercase(c: char) -> bool;

/// What `str::to_uppercase` makes of `s`.
pub uninterp spec fn spec_to_uppercase(s: Seq<char>) -> Seq<char>;

/// An ASCII letter or digit.
pub open spec fn is_ascii_alphanumeric(c: char) -> bool {
    ('0' <= c && c <= '9') || ('A' <= c && c <= 'Z') || ('a' <= c && c <= 'z')
}

/// ASCII lowercase letters mapped to uppercase, other characters kept.
pub open spec fn ascii_upper(c: char) -> char {
    if 'a' <= c && c <= 'z' {
        ((c as int) - 32) as char
    } else {
        c
    }
}

/// Whether a character is alphabetic or numeric.
///
/// Wraps `char::is_alphanumeric`, a property from the Unicode tables: the
/// contract names the result. Among ASCII characters the Unicode alphabetic
/// ones are the letters and the numeric ones the digits, which it states.
#[verifier::external_body]
pub(crate) fn is_alphanumeric(c: char) -> (r: bool)
    ensures
        r == spec_is_alphanumeric(c),
        is_ascii_char(c) ==> r == is_ascii_alphanumeric(c),
{
    c.is_alphanumeric()
}

/// Whether a character is uppercase.
///
/// Wraps `char::is_uppercase` (Unicode `Uppercase`): the contract names the
/// result; among ASCII characters exactly `A`–`Z` are uppercase.
#[verifier::external_body]
fn is_uppercase(c: char) -> (r: bool)
    ensures
        r == spec_is_uppercase(c),
        is_ascii_char(c) ==> r == ('A' <= c && c <= 'Z'),
{
    c.is_uppercase()
}

/// Whether a character is lowercase.
///
/// Wraps `char::is_lowercase` (Unicode `Lowercase`): the contract names the
/// result; among ASCII characters exactly `a`–`z` are lowercase.
#[verifier::external_body]
fn is_lowercase(c: char) -> (r: bool)
    ensures
        r == spec_is_lowercase(c),
        is_ascii_char(c) ==> r == ('a' <= c && c <= 'z'),
{
    c.is_lowercase()
}

/// Uppercase a string.
///
/// Wraps `str::to_uppercase`, whose result depends only on the input (by the
/// Unicode tables): the contract names the result. Unicode's uppercase
/// mapping of an ASCII character is `a`–`z` to `A`–`Z`, every other ASCII
/// character mapping to itself, with no special-casing rule, so ASCII text
/// is uppercased character by character.
#[verifier::external_body]
fn to_uppercase(s: &str) -> (r: String)
    ensures
        r@ == spec_to_uppercase(s@),
        all_ascii(s@) ==> r@ == s@.map_values(|c: char| ascii_upper(c)),
{
    s.to_uppercase()
}

/// The canonical decomposition (NFD) of `s`, as `unicode-normalization`
/// computes it.
pub uninterp spec fn spec_nfd(s: Seq<char>) -> Seq<char>;

/// Decompose a string canonically.
///
/// Wraps `UnicodeNormalization::nfd` from `unicode-normalization`, collected
/// into a string; the decomposition is a function of the input alone, which
/// the contract names.
#[verifier::external_body]
fn nfd(s: &str) -> (r: String)
    ensures
        r@ == spec_nfd(s@),
{
    unicode_normalization::UnicodeNormalization::nfd(s).collect()
}

/// The primary Double Metaphone code of an ASCII string, as `rphonetic`
/// computes it.
pub uninterp spec fn spec_metaphone_primary(s: Seq<char>) -> Seq<char>;

/// `c` is an ASCII character.
pub open spec fn is_ascii_char(c: char) -> bool {
    (c as u32) < 128
}

/// Every character of `s` is ASCII.
pub open spec fn all_ascii(s: Seq<char>) -> bool {
    forall|i: int| 0 <= i < s.len() ==> is_ascii_char(#[trigger] s[i])
}

/// The primary Double Metaphone code of an ASCII string.
///
/// Wraps `rphonetic::DoubleMetaphone::default()` and its `Encoder::encode`,
/// which yields the primary code and depends only on the input. The encoder
/// indexes its input by byte, so only ASCII input is admitted.
#[verifier::external_body]
fn metaphone_primary(s: &str) -> (r: String)
    requires
        all_ascii(s@),
    ensures
        r@ == spec_metaphone_primary(s@),
{
    rphonetic::Encoder::encode(&rphonetic::DoubleMetaphone::default(), s)
}

/// The ASCII characters of `s`, in order.
pub open spec fn ascii_only(s: Seq<char>) -> Seq<char> {
    s.filter(|c: char| is_ascii_char(c))
}

/// `s` folded to ASCII for phonetic encoding: decomposed, then stripped of
/// every non-ASCII character, so accents fall away and other scripts vanish.
pub open spec fn spec_fold_to_ascii(s: Seq<char>) -> Seq<char> {
    ascii_only(spec_nfd(s))
}

/// Fold a string to ASCII for phonetic encoding.
pub fn fold_to_ascii(s: &str) -> (r: String)
    ensures
        r@ == spec_fold_to_ascii(s@),
        all_ascii(r@),
{
    let d = nfd(s);
    let v = str_chars(d.as_str());
    let mut out: Vec<char> = Vec::new();
    let mut i: usize = 0;
    assert(v@.take(0).filter(|c: char| is_ascii_char(c)) =~= Seq::<char>::empty());
    while i < v.len()
        invariant
            i <= v@.len(),
            out@ == v@.take(i as int).filter(|c: char| is_ascii_char(c)),
            all_ascii(out@),
        decreases v@.len() - i,
    {
        let c = v[i];
        let ghost before = v@.take(i as int);
        assert(v@.take(i + 1) =~= before.push(c));
        assert(before.push(c).drop_last() =~= before);
        proof {
            reveal_with_fuel(Seq::filter, 1);
        }
        if (c as u32) < 128 {
            out.push(c);
        }
        i = i + 1;
    }
    assert(v@.take(v@.len() as int) =~= v@);
    chars_to_string(out.as_slice())
}

/// The two strings have the same primary Double Metaphone code once folded
/// to ASCII.
pub open spec fn spec_phonetic_match(a: Seq<char>, b: Seq<char>) -> bool {
    spec_metaphone_primary(spec_fold_to_ascii(a)) == spec_metaphone_primary(spec_fold_to_ascii(b))
}

/// Whether two strings share their primary Double Metaphone code, after
/// folding both to ASCII (so accented and non-Latin text is safe to pass).
pub fn phonetic_match(a: &str, b: &str) -> (r: bool)
    ensures
        r == spec_phonetic_match(a@, b@),
{
    let fa = fold_to_ascii(a);
    let fb = fold_to_ascii(b);
    let ca = metaphone_primary(fa.as_str());
    let cb = metaphone_primary(fb.as_str());
    crate::text::str_eq(ca.as_str(), cb.as_str())
}

// ---------------------------------------------------------------------------
// Tokeniser
// ---------------------------------------------------------------------------

/// A run of the text, by character positions: a word (alphanumeric run) or
/// a gap (whitespace and punctuation, kept verbatim).
#[derive(Debug, Clone, Copy, PartialEq, Eq, Structural)]
pub struct Span {
    /// Whether this is a word.
    pub is_word: bool,
    /// First character.
    pub start: usize,
    /// One past the last character.
    pub end: usize,
}

/// `spans` splits `s` into maximal runs of alphanumeric and of other
/// characters: consecutive, non-empty, alternating in kind, covering `s`.
#[verifier::opaque]
pub open spec fn tiles(s: Seq<char>, spans: Seq<Span>) -> bool {
    &&& (s.len() == 0 <==> spans.len() == 0)
    &&& spans.len() > 0 ==> spans[0].start == 0 && spans.last().end == s.len()
    &&& forall|k: int| 0 <= k < spans.len() ==> (#[trigger] spans[k]).start < spans[k].end <= s.len()
    &&& forall|k: int|
        1 <= k < spans.len() ==> (#[trigger] spans[k]).start == spans[k - 1].end && spans[k].is_word
            != spans[k - 1].is_word
    &&& forall|k: int, i: int|
        0 <= k < spans.len() && spans[k].start <= i < spans[k].end ==> spec_is_alphanumeric(#[trigger] s[i])
            == (#[trigger] spans[k]).is_word
}

/// The text of a span.
pub open spec fn span_text(s: Seq<char>, sp: Span) -> Seq<char> {
    s.subrange(sp.start as int, sp.end as int)
}

/// The texts of the first `n` spans, concatenated.
pub open spec fn concat_spans(s: Seq<char>, spans: Seq<Span>, n: int) -> Seq<char>
    decreases n,
{
    if n <= 0 {
        Seq::empty()
    } else {
        concat_spans(s, spans, n - 1) + span_text(s, spans[n - 1])
    }
}

/// The spans tile the text, so concatenating them gives it back.
pub proof fn lemma_tiles_lossless(s: Seq<char>, spans: Seq<Span>)
    requires
        tiles(s, spans),
    ensures
        concat_spans(s, spans, spans.len() as int) == s,
{
    reveal(tiles);
    if spans.len() > 0 {
        lemma_concat_prefix(s, spans, spans.len() as int);
        assert(s.subrange(0, s.len() as int) =~= s);
    }
}

proof fn lemma_concat_prefix(s: Seq<char>, spans: Seq<Span>, n: int)
    requires
        1 <= n <= spans.len(),
        spans[0].start == 0,
        forall|k: int| 0 <= k < spans.len() ==> (#[trigger] spans[k]).start < spans[k].end <= s.len(),
        forall|k: int| 1 <= k < spans.len() ==> (#[trigger] spans[k]).start == spans[k - 1].end,
    ensures
        concat_spans(s, spans, n) == s.subrange(0, spans[n - 1].end as int),
    decreases n,
{
    let sp = spans[n - 1];
    assert(sp.start < sp.end <= s.len());
    if n == 1 {
        assert(concat_spans(s, spans, 0) =~= Seq::<char>::empty());
        assert(concat_spans(s, spans, 1) =~= s.subrange(0, sp.end as int));
    } else {
        lemma_concat_prefix(s, spans, n - 1);
        let prev = spans[n - 2];
        assert(sp.start == prev.end);
        assert(prev.start < prev.end <= s.len());
        assert(s.subrange(0, prev.end as int) + s.subrange(sp.start as int, sp.end as int) =~= s.subrange(
            0,
            sp.end as int,
        ));
    }
}

/// Split a text into alternating word and gap spans, each word a maximal
/// run of alphanumeric characters.
pub fn tokenise(text: &[char]) -> (r: Vec<Span>)
    ensures
        tiles(text@, r@),
        r@ == spec_tokens(text@),
{
    reveal(tiles);
    let mut spans: Vec<Span> = Vec::new();
    let n = text.len();
    if n == 0 {
        return spans;
    }
    let mut run_start: usize = 0;
    let mut run_is_word = is_alphanumeric(text[0]);
    let mut i: usize = 1;
    while i < n
        invariant
            1 <= i <= n,
            n == text@.len(),
            run_start < i,
            spans@.len() == 0 ==> run_start == 0,
            spans@.len() > 0 ==> spans@[0].start == 0 && spans@.last().end == run_start && spans@.last().is_word
                != run_is_word,
            forall|k: int| 0 <= k < spans@.len() ==> (#[trigger] spans@[k]).start < spans@[k].end <= run_start,
            forall|k: int|
                1 <= k < spans@.len() ==> (#[trigger] spans@[k]).start == spans@[k - 1].end && spans@[k].is_word
                    != spans@[k - 1].is_word,
            forall|k: int, j: int|
                0 <= k < spans@.len() && spans@[k].start <= j < spans@[k].end ==> spec_is_alphanumeric(
                    #[trigger] text@[j],
                ) == (#[trigger] spans@[k]).is_word,
            forall|j: int| run_start <= j < i ==> spec_is_alphanumeric(#[trigger] text@[j]) == run_is_word,
        decreases n - i,
    {
        let w = is_alphanumeric(text[i]);
        if w != run_is_word {
            let sp = Span { is_word: run_is_word, start: run_start, end: i };
            let ghost before = spans@;
            spans.push(sp);
            assert(spans@ == before.push(sp));
            run_start = i;
            run_is_word = w;
        }
        i = i + 1;
    }
    let sp = Span { is_word: run_is_word, start: run_start, end: n };
    spans.push(sp);
    proof {
        lemma_tokens_is(text@, spans@);
    }
    spans
}

/// Each span of a tiling lies inside the text and follows the one before it,
/// alternating in kind.
pub proof fn lemma_span_bounds(s: Seq<char>, spans: Seq<Span>, k: int)
    requires
        tiles(s, spans),
        0 <= k < spans.len(),
    ensures
        spans[k].start < spans[k].end <= s.len(),
        k > 0 ==> spans[k - 1].end == spans[k].start && spans[k - 1].is_word != spans[k].is_word,
{
    reveal(tiles);
}

/// The positions of the word spans among the first `n` spans, in order.
pub open spec fn word_positions(spans: Seq<Span>, n: int) -> Seq<int>
    decreases n,
{
    if n <= 0 {
        Seq::empty()
    } else if spans[n - 1].is_word {
        word_positions(spans, n - 1).push(n - 1)
    } else {
        word_positions(spans, n - 1)
    }
}

/// The word positions among the first `n` spans are word spans, in range and
/// strictly increasing.
pub proof fn lemma_word_positions(spans: Seq<Span>, n: int)
    requires
        0 <= n <= spans.len(),
    ensures
        word_positions(spans, n).len() <= n,
        forall|w: int| 0 <= w < word_positions(spans, n).len() ==> 0 <= #[trigger] word_positions(spans, n)[w] < n
            && spans[word_positions(spans, n)[w]].is_word,
        forall|a: int, b: int|
            0 <= a < b < word_positions(spans, n).len() ==> #[trigger] word_positions(spans, n)[a]
                < #[trigger] word_positions(spans, n)[b],
    decreases n,
{
    if n > 0 {
        lemma_word_positions(spans, n - 1);
        let p = word_positions(spans, n - 1);
        let q = word_positions(spans, n);
        if spans[n - 1].is_word {
            assert(q == p.push(n - 1));
            assert forall|w: int| 0 <= w < q.len() implies 0 <= #[trigger] q[w] < n && spans[q[w]].is_word by {
                if w < p.len() {
                    assert(q[w] == p[w]);
                }
            }
            assert forall|a: int, b: int| 0 <= a < b < q.len() implies #[trigger] q[a] < #[trigger] q[b] by {
                assert(q[a] == p[a]);
                if b < p.len() {
                    assert(q[b] == p[b]);
                }
            }
        } else {
            assert(q == p);
        }
    }
}

/// The positions of the word spans.
pub fn word_indices(spans: &[Span]) -> (r: Vec<usize>)
    ensures
        r@.map_values(|i: usize| i as int) == word_positions(spans@, spans@.len() as int),
{
    let mut r: Vec<usize> = Vec::new();
    let mut i: usize = 0;
    while i < spans.len()
        invariant
            i <= spans@.len(),
            r@.map_values(|i: usize| i as int) == word_positions(spans@, i as int),
        decreases spans@.len() - i,
    {
        if spans[i].is_word {
            let ghost before = r@;
            r.push(i);
            assert(r@.map_values(|i: usize| i as int) =~= before.map_values(|i: usize| i as int).push(i as int));
        }
        i = i + 1;
    }
    r
}

// ---------------------------------------------------------------------------
// Word counts and window shapes
// ---------------------------------------------------------------------------

/// The number of whitespace-separated words in `s`.
pub open spec fn word_count(s: Seq<char>) -> nat
    decreases s.len(),
{
    if s.len() == 0 {
        0
    } else {
        let starts_word = !is_ws(s.last()) && (s.len() == 1 || is_ws(s[s.len() - 2]));
        word_count(s.drop_last()) + if starts_word { 1nat } else { 0nat }
    }
}

/// The number of words in a term, counting an empty one as one word.
pub open spec fn term_words(s: Seq<char>) -> nat {
    if word_count(s) == 0 { 1 } else { word_count(s) }
}

/// How many whitespace-separated words a text contains.
pub fn count_words(s: &str) -> (r: usize)
    ensures
        r == word_count(s@),
{
    let v = str_chars(s);
    let mut count: usize = 0;
    let mut i: usize = 0;
    while i < v.len()
        invariant
            i <= v@.len(),
            v@ == s@,
            count == word_count(v@.take(i as int)),
            count <= i,
        decreases v@.len() - i,
    {
        assert(v@.take(i + 1).drop_last() =~= v@.take(i as int));
        let starts = !crate::text::is_whitespace(v[i]) && (i == 0 || crate::text::is_whitespace(v[i - 1]));
        if starts {
            count = count + 1;
        }
        i = i + 1;
    }
    assert(v@.take(v@.len() as int) =~= v@);
    count
}

/// How many words a term contains (at least one).
pub fn term_word_count(term: &str) -> (r: usize)
    ensures
        r == term_words(term@),
{
    let count = count_words(term);
    if count == 0 {
        1
    } else {
        count
    }
}

/// The spellings a fuzzy candidate is compared with: the term, then its
/// aliases in order, each lowercased, keeping those with as many words as
/// the (lowercased) candidate.
pub open spec fn spec_fuzzy_references(cand_lc: Seq<char>, term: Seq<char>, aliases: Seq<Seq<char>>) -> Seq<Seq<char>>
    decreases aliases.len(),
{
    if aliases.len() == 0 {
        let t = spec_to_lowercase(term);
        if word_count(t) == word_count(cand_lc) {
            seq![t]
        } else {
            Seq::empty()
        }
    } else {
        let a = spec_to_lowercase(aliases.last());
        let prev = spec_fuzzy_references(cand_lc, term, aliases.drop_last());
        if word_count(a) == word_count(cand_lc) {
            prev.push(a)
        } else {
            prev
        }
    }
}

/// The spellings a lowercased fuzzy candidate is compared with, for a term.
pub fn fuzzy_references(cand_lc: &str, ct: &CanonicalTerm) -> (r: Vec<String>)
    ensures
        r@.map_values(|x: String| x@) == spec_fuzzy_references(
            cand_lc@,
            ct.term@,
            ct.aliases@.map_values(|x: String| x@),
        ),
{
    let ghost av = ct.aliases@.map_values(|x: String| x@);
    let n = count_words(cand_lc);
    let mut out: Vec<String> = Vec::new();
    let t = to_lowercase(ct.term.as_str());
    if count_words(t.as_str()) == n {
        out.push(t);
    }
    let mut i: usize = 0;
    assert(av.take(0) =~= Seq::<Seq<char>>::empty());
    assert(out@.map_values(|x: String| x@) =~= spec_fuzzy_references(cand_lc@, ct.term@, av.take(0)));
    while i < ct.aliases.len()
        invariant
            i <= ct.aliases@.len(),
            av == ct.aliases@.map_values(|x: String| x@),
            n == word_count(cand_lc@),
            out@.map_values(|x: String| x@) == spec_fuzzy_references(cand_lc@, ct.term@, av.take(i as int)),
        decreases ct.aliases@.len() - i,
    {
        assert(av.take(i + 1).drop_last() =~= av.take(i as int));
        assert(av.take(i + 1).last() == ct.aliases@[i as int]@);
        let a = to_lowercase(ct.aliases[i].as_str());
        let ghost before = out@.map_values(|x: String| x@);
        if count_words(a.as_str()) == n {
            out.push(a);
            assert(out@.map_values(|x: String| x@) =~= before.push(spec_to_lowercase(ct.aliases@[i as int]@)));
        }
        i = i + 1;
    }
    assert(av.take(ct.aliases@.len() as int) =~= av);
    out
}

/// A window of `size` words suits a term when the term, or one of its
/// aliases, has exactly that many words.
pub open spec fn window_compatible_spec(t: (Seq<char>, Seq<Seq<char>>, u8), size: int) -> bool {
    term_words(t.0) == size || exists|a: int| 0 <= a < t.1.len() && term_words(#[trigger] t.1[a]) == size
}

/// Whether a window of `window_size` words suits the term.
pub fn window_compatible(ct: &CanonicalTerm, window_size: usize) -> (r: bool)
    ensures
        r == window_compatible_spec(term_view(*ct), window_size as int),
{
    if term_word_count(ct.term.as_str()) == window_size {
        return true;
    }
    let mut i: usize = 0;
    while i < ct.aliases.len()
        invariant
            i <= ct.aliases@.len(),
            forall|a: int| 0 <= a < i ==> term_words(#[trigger] term_view(*ct).1[a]) != window_size,
        decreases ct.aliases@.len() - i,
    {
        if term_word_count(ct.aliases[i].as_str()) == window_size {
            assert(term_view(*ct).1[i as int] == ct.aliases@[i as int]@);
            return true;
        }
        i = i + 1;
    }
    false
}

/// A gap holds something other than whitespace (a full stop, a comma, a
/// dash).
pub open spec fn has_punctuation(g: Seq<char>) -> bool {
    exists|i: int| 0 <= i < g.len() && !is_ws(#[trigger] g[i])
}

/// Whether a gap text holds something other than whitespace.
pub fn gap_has_punctuation(g: &[char]) -> (r: bool)
    ensures
        r == has_punctuation(g@),
{
    let mut i: usize = 0;
    while i < g.len()
        invariant
            i <= g@.len(),
            forall|j: int| 0 <= j < i ==> is_ws(#[trigger] g@[j]),
        decreases g@.len() - i,
    {
        if !crate::text::is_whitespace(g[i]) {
            return true;
        }
        i = i + 1;
    }
    false
}

// ---------------------------------------------------------------------------
// Casing
// ---------------------------------------------------------------------------

/// Every cased character of `s` is uppercase and there is at least one.
pub open spec fn all_upper(s: Seq<char>) -> bool {
    (forall|i: int| 0 <= i < s.len() ==> !spec_is_lowercase(#[trigger] s[i])) && (exists|i: int|
        0 <= i < s.len() && spec_is_uppercase(#[trigger] s[i]))
}

/// `r` with its first character uppercased when that is an ASCII lowercase
/// letter.
pub open spec fn capitalise_ascii(r: Seq<char>) -> Seq<char> {
    if r.len() > 0 && 97 <= (r[0] as u32) <= 122 {
        r.update(0, ((r[0] as u32) - 32) as char)
    } else {
        r
    }
}

/// The replacement in the capitalisation style of the original: all
/// uppercase for an all-uppercase original, capitalised for a capitalised
/// one, unchanged otherwise.
pub open spec fn spec_restore_case(original: Seq<char>, replacement: Seq<char>) -> Seq<char> {
    if all_upper(original) {
        spec_to_uppercase(replacement)
    } else if original.len() > 0 && spec_is_uppercase(original[0]) {
        capitalise_ascii(replacement)
    } else {
        replacement
    }
}

/// Carry the capitalisation style of `original` over to `replacement`.
pub fn restore_case(original: &str, replacement: &str) -> (r: String)
    ensures
        r@ == spec_restore_case(original@, replacement@),
{
    let o = str_chars(original);
    let mut no_lower = true;
    let mut any_upper = false;
    let mut i: usize = 0;
    while i < o.len()
        invariant
            i <= o@.len(),
            o@ == original@,
            no_lower == forall|j: int| 0 <= j < i ==> !spec_is_lowercase(#[trigger] o@[j]),
            any_upper == exists|j: int| 0 <= j < i && spec_is_uppercase(#[trigger] o@[j]),
        decreases o@.len() - i,
    {
        if is_lowercase(o[i]) {
            no_lower = false;
        }
        if is_uppercase(o[i]) {
            any_upper = true;
        }
        i = i + 1;
    }
    if no_lower && any_upper {
        return to_uppercase(replacement);
    }
    if o.len() > 0 && is_uppercase(o[0]) {
        let mut v = str_chars(replacement);
        if v.len() > 0 && (v[0] as u32) >= 97 && (v[0] as u32) <= 122 {
            let c = ((v[0] as u32) - 32) as u8 as char;
            v.set(0, c);
        }
        return chars_to_string(v.as_slice());
    }
    String::from_str(replacement)
}

/// The text a matched window is replaced with: a term with casing of its
/// own (it differs from its lowercase form) verbatim, otherwise the term in
/// the capitalisation style of the matched word.
pub open spec fn spec_output_form(term: Seq<char>, matched: Seq<char>) -> Seq<char> {
    if term != spec_to_lowercase(term) {
        term
    } else {
        spec_restore_case(matched, term)
    }
}

/// The output form of a term matched at a word.
pub fn output_form(canonical_term: &str, matched_span: &str) -> (r: String)
    ensures
        r@ == spec_output_form(canonical_term@, matched_span@),
{
    let lower = to_lowercase(canonical_term);
    if !crate::text::str_eq(canonical_term, lower.as_str()) {
        String::from_str(canonical_term)
    } else {
        restore_case(matched_span, canonical_term)
    }
}

/// Tilings are unique: a text has exactly one split into maximal runs.
pub proof fn lemma_tiles_unique(s: Seq<char>, a: Seq<Span>, b: Seq<Span>)
    requires
        tiles(s, a),
        tiles(s, b),
    ensures
        a == b,
{
    reveal(tiles);
    if s.len() > 0 {
        let n = if a.len() < b.len() { a.len() } else { b.len() };
        lemma_prefix_eq(s, a, b, n as int);
        if a.len() != b.len() {
            if a.len() < b.len() {
                assert(a[a.len() - 1] == b[a.len() - 1]);
                assert(b[a.len() as int].start == b[a.len() - 1].end);
                assert(b[a.len() as int].start < b[a.len() as int].end <= s.len());
            } else {
                assert(a[b.len() - 1] == b[b.len() - 1]);
                assert(a[b.len() as int].start == a[b.len() - 1].end);
                assert(a[b.len() as int].start < a[b.len() as int].end <= s.len());
            }
        }
        assert(a =~= b);
    }
}

proof fn lemma_prefix_eq(s: Seq<char>, a: Seq<Span>, b: Seq<Span>, k: int)
    requires
        tiles(s, a),
        tiles(s, b),
        0 <= k <= a.len(),
        k <= b.len(),
    ensures
        forall|j: int| 0 <= j < k ==> a[j] == b[j],
    decreases k,
{
    if k > 0 {
        lemma_prefix_eq(s, a, b, k - 1);
        lemma_span_eq(s, a, b, k - 1);
    }
}

#[verifier::spinoff_prover]
proof fn lemma_span_eq(s: Seq<char>, a: Seq<Span>, b: Seq<Span>, k: int)
    requires
        tiles(s, a),
        tiles(s, b),
        0 <= k < a.len(),
        k < b.len(),
        forall|j: int| 0 <= j < k ==> a[j] == b[j],
    ensures
        a[k] == b[k],
{
    reveal(tiles);
    let x = a[k];
    let y = b[k];
    if k == 0 {
        assert(x.start == 0 && y.start == 0);
    } else {
        assert(a[k - 1] == b[k - 1]);
        assert(x.start == a[k - 1].end);
        assert(y.start == b[k - 1].end);
    }
    assert(x.start == y.start);
    assert(x.start < x.end && y.start < y.end);
    assert(spec_is_alphanumeric(s[x.start as int]) == x.is_word);
    assert(spec_is_alphanumeric(s[y.start as int]) == y.is_word);
    if x.end < y.end {
        assert(k + 1 < a.len()) by {
            if k + 1 == a.len() {
                assert(x == a.last());
            }
        }
        let nx = a[k + 1];
        assert(nx.start == x.end && nx.is_word != x.is_word);
        assert(spec_is_alphanumeric(s[x.end as int]) == nx.is_word);
        assert(spec_is_alphanumeric(s[x.end as int]) == y.is_word);
        assert(false);
    }
    if y.end < x.end {
        assert(k + 1 < b.len()) by {
            if k + 1 == b.len() {
                assert(y == b.last());
            }
        }
        let ny = b[k + 1];
        assert(ny.start == y.end && ny.is_word != y.is_word);
        assert(spec_is_alphanumeric(s[y.end as int]) == ny.is_word);
        assert(spec_is_alphanumeric(s[y.end as int]) == x.is_word);
        assert(false);
    }
}

/// The tiling of `s` (unique: see [`lemma_tiles_unique`]).
pub open spec fn spec_tokens(s: Seq<char>) -> Seq<Span> {
    choose|spans: Seq<Span>| tiles(s, spans)
}

/// A tiling is the tiling.
pub proof fn lemma_tokens_is(s: Seq<char>, spans: Seq<Span>)
    requires
        tiles(s, spans),
    ensures
        spec_tokens(s) == spans,
{
    let t = spec_tokens(s);
    assert(tiles(s, t));
    lemma_tiles_unique(s, t, spans);
}

// ---------------------------------------------------------------------------
// The matching sweep
// ---------------------------------------------------------------------------

/// What a word becomes in the sweep.
#[derive(Debug, Clone, Copy, PartialEq, Eq, Structural)]
pub enum WordRole {
    /// Not part of any match: kept as it is.
    Free,
    /// First word of a match with the term at this position: replaced by the
    /// term's output form.
    Start(usize),
    /// A later word of a match: removed with the gap before it.
    Inside,
}

/// Everything the sweep reads: the words, whether the gap before each word
/// holds punctuation, the terms by their text, the fuzzy verdicts (by word
/// position, window size less one, and term position), and the largest
/// window.
pub struct SweepInput {
    /// Word texts, in order.
    pub words: Seq<Seq<char>>,
    /// `punct[w]`: the gap before word `w` holds punctuation.
    pub punct: Seq<bool>,
    /// The terms by their text.
    pub terms: Seq<(Seq<char>, Seq<Seq<char>>, u8)>,
    /// Fuzzy verdicts.
    pub fuzzy: Seq<Seq<Seq<bool>>>,
    /// For each term, whether its fuzzy verdicts count: false for the
    /// alias-only terms, true for the others.
    pub fuzzy_ok: Seq<bool>,
    /// Largest window any term allows.
    pub gmax: int,
}

/// Words joined by single spaces.
pub open spec fn join_words(ws: Seq<Seq<char>>) -> Seq<char>
    decreases ws.len(),
{
    if ws.len() == 0 {
        Seq::empty()
    } else if ws.len() == 1 {
        ws[0]
    } else {
        join_words(ws.drop_last()) + seq![' '] + ws.last()
    }
}

/// The candidate text of the window of `size` words at `pos`.
pub open spec fn candidate(words: Seq<Seq<char>>, pos: int, size: int) -> Seq<char> {
    join_words(words.subrange(pos, pos + size))
}

/// The candidate is the term or one of its aliases, ignoring case.
pub open spec fn exact_hit(t: (Seq<char>, Seq<Seq<char>>, u8), cand: Seq<char>) -> bool {
    spec_to_lowercase(cand) == spec_to_lowercase(t.0) || exists|a: int|
        0 <= a < t.1.len() && spec_to_lowercase(#[trigger] t.1[a]) == spec_to_lowercase(cand)
}

/// The fuzzy verdict for a window and a term; absent verdicts are no.
pub open spec fn fuzzy_at(fz: Seq<Seq<Seq<bool>>>, pos: int, size: int, t: int) -> bool {
    0 <= pos < fz.len() && 0 <= size - 1 < fz[pos].len() && 0 <= t < fz[pos][size - 1].len() && fz[pos][size - 1][t]
}

/// Whether a term's fuzzy verdicts count: not for an alias-only term, whose
/// spellings must appear exactly.
pub open spec fn allows_fuzzy(t: CanonicalTerm) -> bool {
    t.policy != SnapPolicy::AliasOnly
}

/// Term `t` matches the window, exactly or, unless it is alias-only, by its
/// fuzzy verdict.
pub open spec fn hit(inp: SweepInput, pos: int, size: int, t: int, exact: bool) -> bool {
    window_compatible_spec(inp.terms[t], size) && if exact {
        exact_hit(inp.terms[t], candidate(inp.words, pos, size))
    } else {
        inp.fuzzy_ok[t] && fuzzy_at(inp.fuzzy, pos, size, t)
    }
}

/// The first term, from position `from` on, that matches the window.
pub open spec fn first_hit(inp: SweepInput, pos: int, size: int, exact: bool, from: int) -> Option<int>
    decreases inp.terms.len() - from,
{
    if from < 0 || from >= inp.terms.len() {
        None
    } else if hit(inp, pos, size, from, exact) {
        Some(from)
    } else {
        first_hit(inp, pos, size, exact, from + 1)
    }
}

/// The number of bytes of the UTF-8 encoding of `c`.
pub open spec fn utf8_width(c: char) -> nat {
    if (c as u32) < 0x80 {
        1
    } else if (c as u32) < 0x800 {
        2
    } else if (c as u32) < 0x10000 {
        3
    } else {
        4
    }
}

/// The number of bytes of the UTF-8 encoding of `s`.
pub open spec fn utf8_len(s: Seq<char>) -> nat
    decreases s.len(),
{
    if s.len() == 0 {
        0
    } else {
        utf8_len(s.drop_last()) + utf8_width(s.last())
    }
}

/// A gap inside the window holds punctuation.
pub open spec fn punct_within(punct: Seq<bool>, pos: int, size: int) -> bool {
    exists|w: int| pos < w < pos + size && #[trigger] punct[w]
}

/// The window is tried in this pass: a fuzzy guess may not reach across
/// punctuation, and a candidate shorter than four bytes once lowercased is
/// never tried.
pub open spec fn window_ok(inp: SweepInput, pos: int, size: int, exact: bool) -> bool {
    (exact || size <= 1 || !punct_within(inp.punct, pos, size)) && utf8_len(
        spec_to_lowercase(candidate(inp.words, pos, size)),
    ) >= 4
}

/// The largest window at or below `size` that some term matches in this
/// pass, with the first such term.
pub open spec fn search(inp: SweepInput, pos: int, size: int, exact: bool) -> Option<(int, int)>
    decreases size,
{
    if size <= 0 {
        None
    } else if window_ok(inp, pos, size, exact) && first_hit(inp, pos, size, exact, 0) is Some {
        Some((size, first_hit(inp, pos, size, exact, 0)->0))
    } else {
        search(inp, pos, size - 1, exact)
    }
}

/// The largest window that may start at `pos`.
pub open spec fn max_window(inp: SweepInput, pos: int) -> int {
    let left = inp.words.len() - pos;
    if inp.gmax < left { inp.gmax } else { left }
}

/// The match at `pos`, as `(window size, term)`: exact matches of any size
/// first, longest first; then fuzzy ones, longest first.
pub open spec fn matched_at(inp: SweepInput, pos: int) -> Option<(int, int)> {
    match search(inp, pos, max_window(inp, pos), true) {
        Some(m) => Some(m),
        None => search(inp, pos, max_window(inp, pos), false),
    }
}

/// The roles of the words from `pos` on: at each word not already part of a
/// match, the match there (if any) claims its window.
pub open spec fn roles_from(inp: SweepInput, pos: int) -> Seq<WordRole>
    decreases inp.words.len() - pos,
{
    if pos < 0 || pos >= inp.words.len() {
        Seq::empty()
    } else {
        match matched_at(inp, pos) {
            Some(m) => if 1 <= m.0 && pos + m.0 <= inp.words.len() && 0 <= m.1 {
                seq![WordRole::Start(m.1 as usize)] + Seq::new((m.0 - 1) as nat, |i: int| WordRole::Inside)
                    + roles_from(inp, pos + m.0)
            } else {
                seq![WordRole::Free] + roles_from(inp, pos + 1)
            },
            None => seq![WordRole::Free] + roles_from(inp, pos + 1),
        }
    }
}

/// The sweep's input from executable values.
pub open spec fn input_of(
    words: Seq<Vec<char>>,
    punct: Seq<bool>,
    terms: Seq<CanonicalTerm>,
    fuzzy: Seq<Vec<Vec<bool>>>,
    gmax: int,
) -> SweepInput {
    SweepInput {
        words: words.map_values(|v: Vec<char>| v@),
        punct,
        terms: terms.map_values(|t: CanonicalTerm| term_view(t)),
        fuzzy: fuzzy.map_values(|v: Vec<Vec<bool>>| v@.map_values(|u: Vec<bool>| u@)),
        fuzzy_ok: terms.map_values(|t: CanonicalTerm| allows_fuzzy(t)),
        gmax,
    }
}

/// The candidate text of a window.
fn candidate_text(words: &Vec<Vec<char>>, pos: usize, size: usize) -> (r: Vec<char>)
    requires
        1 <= size,
        pos + size <= words@.len(),
    ensures
        r@ == candidate(words@.map_values(|v: Vec<char>| v@), pos as int, size as int),
{
    let ghost ws = words@.map_values(|v: Vec<char>| v@);
    let mut out: Vec<char> = Vec::new();
    let mut w: usize = pos;
    assert(ws.subrange(pos as int, pos as int) =~= Seq::<Seq<char>>::empty());
    let total = words.len();
    assert(pos + size <= total);
    let end = pos + size;
    while w < end
        invariant
            end == pos + size,
            pos <= w <= pos + size,
            pos + size <= words@.len(),
            ws == words@.map_values(|v: Vec<char>| v@),
            out@ == join_words(ws.subrange(pos as int, w as int)),
        decreases end - w,
    {
        let ghost before = out@;
        let ghost sub = ws.subrange(pos as int, w + 1);
        assert(sub.drop_last() =~= ws.subrange(pos as int, w as int));
        assert(sub.last() == words@[w as int]@);
        if w > pos {
            out.push(' ');
        }
        let mut k: usize = 0;
        let ghost mid = out@;
        while k < words[w].len()
            invariant
                k <= words@[w as int]@.len(),
                w < words@.len(),
                out@ == mid + words@[w as int]@.take(k as int),
            decreases words@[w as int]@.len() - k,
        {
            out.push(words[w][k]);
            assert(out@ =~= mid + words@[w as int]@.take(k + 1));
            k = k + 1;
        }
        assert(words@[w as int]@.take(words@[w as int]@.len() as int) =~= words@[w as int]@);
        if w == pos {
            assert(sub.len() == 1);
            assert(before.len() == 0);
            assert(out@ =~= sub[0]);
        } else {
            assert(out@ =~= join_words(sub.drop_last()) + seq![' '] + sub.last());
        }
        w = w + 1;
    }
    out
}

/// A text takes at least as many bytes in UTF-8 as it has characters.
pub proof fn lemma_utf8_len_at_least_len(s: Seq<char>)
    ensures
        utf8_len(s) >= s.len(),
    decreases s.len(),
{
    if s.len() > 0 {
        lemma_utf8_len_at_least_len(s.drop_last());
    }
}

/// Whether the UTF-8 encoding takes at least four bytes.
fn utf8_len_at_least_4(s: &[char]) -> (r: bool)
    ensures
        r == (utf8_len(s@) >= 4),
{
    proof {
        lemma_utf8_len_at_least_len(s@);
    }
    if s.len() >= 4 {
        return true;
    }
    let mut n: usize = 0;
    let mut i: usize = 0;
    while i < s.len()
        invariant
            i <= s@.len(),
            s@.len() < 4,
            n == utf8_len(s@.take(i as int)),
            n <= 4 * i,
        decreases s@.len() - i,
    {
        assert(s@.take(i + 1).drop_last() =~= s@.take(i as int));
        let u = s[i] as u32;
        let w: usize = if u < 0x80 {
            1
        } else if u < 0x800 {
            2
        } else if u < 0x10000 {
            3
        } else {
            4
        };
        n = n + w;
        i = i + 1;
    }
    assert(s@.take(s@.len() as int) =~= s@);
    n >= 4
}

fn exact_hit_exec(ct: &CanonicalTerm, cand: &[char]) -> (r: bool)
    ensures
        r == exact_hit(term_view(*ct), cand@),
{
    let cs = chars_to_string(cand);
    let cl = to_lowercase(cs.as_str());
    let tl = to_lowercase(ct.term.as_str());
    if crate::text::str_eq(cl.as_str(), tl.as_str()) {
        return true;
    }
    let ghost tv = term_view(*ct);
    let mut i: usize = 0;
    while i < ct.aliases.len()
        invariant
            i <= ct.aliases@.len(),
            tv == term_view(*ct),
            cl@ == spec_to_lowercase(cand@),
            forall|a: int| 0 <= a < i ==> spec_to_lowercase(#[trigger] tv.1[a]) != spec_to_lowercase(cand@),
        decreases ct.aliases@.len() - i,
    {
        let al = to_lowercase(ct.aliases[i].as_str());
        assert(tv.1[i as int] == ct.aliases@[i as int]@);
        if crate::text::str_eq(al.as_str(), cl.as_str()) {
            return true;
        }
        i = i + 1;
    }
    false
}

fn fuzzy_at_exec(fuzzy: &Vec<Vec<Vec<bool>>>, pos: usize, size: usize, t: usize) -> (r: bool)
    ensures
        r == fuzzy_at(
            fuzzy@.map_values(|v: Vec<Vec<bool>>| v@.map_values(|u: Vec<bool>| u@)),
            pos as int,
            size as int,
            t as int,
        ),
{
    if pos < fuzzy.len() && size >= 1 && size - 1 < fuzzy[pos].len() && t < fuzzy[pos][size - 1].len() {
        fuzzy[pos][size - 1][t]
    } else {
        false
    }
}

/// The first term matching the window, as [`first_hit`] states.
fn find_term(
    terms: &[CanonicalTerm],
    fuzzy: &Vec<Vec<Vec<bool>>>,
    cand: &[char],
    pos: usize,
    size: usize,
    exact: bool,
    Ghost(inp): Ghost<SweepInput>,
) -> (r: Option<usize>)
    requires
        inp.terms == terms@.map_values(|t: CanonicalTerm| term_view(t)),
        inp.fuzzy == fuzzy@.map_values(|v: Vec<Vec<bool>>| v@.map_values(|u: Vec<bool>| u@)),
        inp.fuzzy_ok == terms@.map_values(|t: CanonicalTerm| allows_fuzzy(t)),
        cand@ == candidate(inp.words, pos as int, size as int),
    ensures
        match first_hit(inp, pos as int, size as int, exact, 0) {
            Some(t) => r == Some(t as usize),
            None => r is None,
        },
{
    let mut t: usize = 0;
    while t < terms.len()
        invariant
            t <= terms@.len(),
            inp.terms.len() == terms@.len(),
            inp.terms == terms@.map_values(|t: CanonicalTerm| term_view(t)),
            inp.fuzzy == fuzzy@.map_values(|v: Vec<Vec<bool>>| v@.map_values(|u: Vec<bool>| u@)),
            inp.fuzzy_ok == terms@.map_values(|t: CanonicalTerm| allows_fuzzy(t)),
            cand@ == candidate(inp.words, pos as int, size as int),
            first_hit(inp, pos as int, size as int, exact, 0) == first_hit(inp, pos as int, size as int, exact, t as int),
        decreases terms@.len() - t,
    {
        assert(inp.terms[t as int] == term_view(terms@[t as int]));
        let compatible = window_compatible(&terms[t], size);
        let may_fuzz = match terms[t].policy {
            SnapPolicy::AliasOnly => false,
            _ => true,
        };
        let h = compatible && if exact {
            exact_hit_exec(&terms[t], cand)
        } else {
            may_fuzz && fuzzy_at_exec(fuzzy, pos, size, t)
        };
        assert(h == hit(inp, pos as int, size as int, t as int, exact));
        if h {
            return Some(t);
        }
        t = t + 1;
    }
    None
}

fn punct_within_exec(punct: &Vec<bool>, pos: usize, size: usize) -> (r: bool)
    requires
        pos + size <= punct@.len(),
    ensures
        r == punct_within(punct@, pos as int, size as int),
{
    if size <= 1 {
        return false;
    }
    let total = punct.len();
    assert(pos + size <= total);
    let end = pos + size;
    let mut w: usize = pos + 1;
    while w < end
        invariant
            end == pos + size,
            end <= punct@.len(),
            pos + 1 <= w,
            forall|v: int| pos < v < w && v < end ==> !#[trigger] punct@[v],
        decreases end - w,
    {
        if punct[w] {
            return true;
        }
        w = w + 1;
    }
    false
}

/// The match in one pass at `pos`, from window `size` down, as [`search`]
/// states.
fn search_exec(
    words: &Vec<Vec<char>>,
    punct: &Vec<bool>,
    terms: &[CanonicalTerm],
    fuzzy: &Vec<Vec<Vec<bool>>>,
    pos: usize,
    size: usize,
    exact: bool,
    Ghost(inp): Ghost<SweepInput>,
) -> (r: Option<(usize, usize)>)
    requires
        inp == input_of(words@, punct@, terms@, fuzzy@, inp.gmax),
        punct@.len() == words@.len(),
        pos + size <= words@.len(),
    ensures
        match search(inp, pos as int, size as int, exact) {
            Some(m) => r == Some((m.0 as usize, m.1 as usize)) && 1 <= m.0 <= size && 0 <= m.1 < terms@.len(),
            None => r is None,
        },
{
    let mut sz: usize = size;
    while sz >= 1
        invariant
            sz <= size,
            pos + size <= words@.len(),
            punct@.len() == words@.len(),
            inp == input_of(words@, punct@, terms@, fuzzy@, inp.gmax),
            search(inp, pos as int, size as int, exact) == search(inp, pos as int, sz as int, exact),
        decreases sz,
    {
        let skip_fuzzy = !exact && sz > 1 && punct_within_exec(punct, pos, sz);
        if !skip_fuzzy {
            let cand = candidate_text(words, pos, sz);
            let cs = chars_to_string(cand.as_slice());
            let lower = to_lowercase(cs.as_str());
            let lv = str_chars(lower.as_str());
            if utf8_len_at_least_4(lv.as_slice()) {
                match find_term(terms, fuzzy, cand.as_slice(), pos, sz, exact, Ghost(inp)) {
                    Some(t) => {
                        proof {
                            lemma_first_hit_range(inp, pos as int, sz as int, exact, 0);
                        }
                        return Some((sz, t));
                    },
                    None => {},
                }
            }
        }
        sz = sz - 1;
    }
    None
}

proof fn lemma_first_hit_range(inp: SweepInput, pos: int, size: int, exact: bool, from: int)
    ensures
        first_hit(inp, pos, size, exact, from) matches Some(t) ==> from <= t < inp.terms.len(),
    decreases inp.terms.len() - from,
{
    if 0 <= from < inp.terms.len() && !hit(inp, pos, size, from, exact) {
        lemma_first_hit_range(inp, pos, size, exact, from + 1);
    }
}

/// The match at `pos`, as [`matched_at`] states.
fn matched_at_exec(
    words: &Vec<Vec<char>>,
    punct: &Vec<bool>,
    terms: &[CanonicalTerm],
    fuzzy: &Vec<Vec<Vec<bool>>>,
    gmax: usize,
    pos: usize,
    Ghost(inp): Ghost<SweepInput>,
) -> (r: Option<(usize, usize)>)
    requires
        inp == input_of(words@, punct@, terms@, fuzzy@, gmax as int),
        punct@.len() == words@.len(),
        pos < words@.len(),
    ensures
        match matched_at(inp, pos as int) {
            Some(m) => r == Some((m.0 as usize, m.1 as usize)) && 1 <= m.0 && pos + m.0 <= words@.len() && 0
                <= m.1 < terms@.len(),
            None => r is None,
        },
{
    let n = words.len();
    let mw = if gmax < n - pos {
        gmax
    } else {
        n - pos
    };
    assert(mw == max_window(inp, pos as int));
    match search_exec(words, punct, terms, fuzzy, pos, mw, true, Ghost(inp)) {
        Some(m) => Some(m),
        None => search_exec(words, punct, terms, fuzzy, pos, mw, false, Ghost(inp)),
    }
}

/// The role of every word, as [`roles_from`] states.
fn sweep_roles(
    words: &Vec<Vec<char>>,
    punct: &Vec<bool>,
    terms: &[CanonicalTerm],
    fuzzy: &Vec<Vec<Vec<bool>>>,
    gmax: usize,
    Ghost(inp): Ghost<SweepInput>,
) -> (r: Vec<WordRole>)
    requires
        inp == input_of(words@, punct@, terms@, fuzzy@, gmax as int),
        punct@.len() == words@.len(),
    ensures
        r@ == roles_from(inp, 0),
        r@.len() == words@.len(),
{
    let n = words.len();
    let mut roles: Vec<WordRole> = Vec::new();
    let mut pos: usize = 0;
    while pos < n
        invariant
            pos <= n,
            n == words@.len(),
            roles@.len() == pos,
            punct@.len() == words@.len(),
            inp == input_of(words@, punct@, terms@, fuzzy@, gmax as int),
            inp.words.len() == n,
            roles@ + roles_from(inp, pos as int) == roles_from(inp, 0),
        decreases n - pos,
    {
        let ghost before = roles@;
        match matched_at_exec(words, punct, terms, fuzzy, gmax, pos, Ghost(inp)) {
            Some((k, t)) => {
                roles.push(WordRole::Start(t));
                let mut j: usize = 1;
                while j < k
                    invariant
                        1 <= j <= k,
                        roles@ == before.push(WordRole::Start(t)) + Seq::new((j - 1) as nat, |i: int| WordRole::Inside),
                    decreases k - j,
                {
                    roles.push(WordRole::Inside);
                    assert(roles@ =~= before.push(WordRole::Start(t)) + Seq::new(j as nat, |i: int| WordRole::Inside));
                    j = j + 1;
                }
                assert(roles@ =~= before + (seq![WordRole::Start(t)] + Seq::new((k - 1) as nat, |i: int| WordRole::Inside)));
                pos = pos + k;
            },
            None => {
                roles.push(WordRole::Free);
                assert(roles@ =~= before + seq![WordRole::Free]);
                pos = pos + 1;
            },
        }
    }
    assert(roles_from(inp, n as int) =~= Seq::<WordRole>::empty());
    assert(roles@ =~= roles_from(inp, 0));
    roles
}

proof fn lemma_search_range(inp: SweepInput, pos: int, size: int, exact: bool)
    ensures
        search(inp, pos, size, exact) matches Some(m) ==> 1 <= m.0 <= size && 0 <= m.1 < inp.terms.len(),
    decreases size,
{
    if size > 0 {
        lemma_first_hit_range(inp, pos, size, exact, 0);
        lemma_search_range(inp, pos, size - 1, exact);
    }
}

/// Every term the sweep names is one of the terms.
proof fn lemma_roles_terms_valid(inp: SweepInput, pos: int)
    ensures
        forall|i: int|
            0 <= i < roles_from(inp, pos).len() ==> (#[trigger] roles_from(inp, pos)[i] matches WordRole::Start(t)
                ==> t < inp.terms.len()),
    decreases inp.words.len() - pos,
{
    if 0 <= pos < inp.words.len() {
        lemma_search_range(inp, pos, max_window(inp, pos), true);
        lemma_search_range(inp, pos, max_window(inp, pos), false);
        let r = roles_from(inp, pos);
        match matched_at(inp, pos) {
            Some(m) => {
                if 1 <= m.0 && pos + m.0 <= inp.words.len() && 0 <= m.1 {
                    lemma_roles_terms_valid(inp, pos + m.0);
                    let head = seq![WordRole::Start(m.1 as usize)] + Seq::new((m.0 - 1) as nat, |i: int| WordRole::Inside);
                    let tail = roles_from(inp, pos + m.0);
                    assert(r == head + tail);
                    assert forall|i: int| 0 <= i < r.len() implies (#[trigger] r[i] matches WordRole::Start(t) ==> t
                        < inp.terms.len()) by {
                        if i < head.len() {
                            assert(r[i] == head[i]);
                        } else {
                            assert(r[i] == tail[i - head.len()]);
                        }
                    }
                } else {
                    lemma_roles_terms_valid(inp, pos + 1);
                    let tail = roles_from(inp, pos + 1);
                    assert forall|i: int| 0 <= i < r.len() implies (#[trigger] r[i] matches WordRole::Start(t) ==> t
                        < inp.terms.len()) by {
                        if i > 0 {
                            assert(r[i] == tail[i - 1]);
                        }
                    }
                }
            },
            None => {
                lemma_roles_terms_valid(inp, pos + 1);
                let tail = roles_from(inp, pos + 1);
                assert forall|i: int| 0 <= i < r.len() implies (#[trigger] r[i] matches WordRole::Start(t) ==> t
                    < inp.terms.len()) by {
                    if i > 0 {
                        assert(r[i] == tail[i - 1]);
                    }
                }
            },
        }
    }
}

/// Largest `max_words` among the first `n` terms (zero for none).
pub open spec fn gmax_rec(terms: Seq<CanonicalTerm>, n: int) -> int
    decreases n,
{
    if n <= 0 {
        0
    } else {
        let m = gmax_rec(terms, n - 1);
        if (terms[n - 1].max_words as int) > m {
            terms[n - 1].max_words as int
        } else {
            m
        }
    }
}

/// The largest window any term allows (one when there are no terms).
pub open spec fn spec_gmax(terms: Seq<CanonicalTerm>) -> int {
    if terms.len() == 0 {
        1
    } else {
        gmax_rec(terms, terms.len() as int)
    }
}

/// The window limit is the largest `max_words` of any term: no term allows
/// more, and some term allows exactly that many (one word when there are no
/// terms).
pub proof fn lemma_gmax_is_the_largest(terms: Seq<CanonicalTerm>)
    ensures
        forall|i: int| 0 <= i < terms.len() ==> spec_gmax(terms) >= (#[trigger] terms[i]).max_words,
        terms.len() == 0 ==> spec_gmax(terms) == 1,
        terms.len() > 0 ==> exists|i: int| 0 <= i < terms.len() && spec_gmax(terms) == (#[trigger] terms[i]).max_words,
{
    if terms.len() > 0 {
        lemma_gmax_rec_is_the_largest(terms, terms.len() as int);
    }
}

/// At every word the snap tries windows as long as any term allows, up to
/// the words that remain: for each term, the largest window tried there is
/// at least its `max_words` (or all the remaining words).
pub proof fn lemma_snap_tries_every_terms_window(
    s: Seq<char>,
    terms: Seq<CanonicalTerm>,
    fuzzy: Seq<Vec<Vec<bool>>>,
    pos: int,
)
    ensures
        forall|i: int|
            0 <= i < terms.len() ==> max_window(snap_input(s, terms, fuzzy), pos) >= min_int(
                (#[trigger] terms[i]).max_words as int,
                snap_input(s, terms, fuzzy).words.len() - pos,
            ),
{
    lemma_gmax_is_the_largest(terms);
}

/// The smaller of two integers.
pub open spec fn min_int(a: int, b: int) -> int {
    if a <= b {
        a
    } else {
        b
    }
}

proof fn lemma_gmax_rec_is_the_largest(terms: Seq<CanonicalTerm>, n: int)
    requires
        0 < n <= terms.len(),
    ensures
        forall|i: int| 0 <= i < n ==> gmax_rec(terms, n) >= (#[trigger] terms[i]).max_words,
        exists|i: int| 0 <= i < n && gmax_rec(terms, n) == (#[trigger] terms[i]).max_words,
    decreases n,
{
    if n > 1 {
        lemma_gmax_rec_is_the_largest(terms, n - 1);
        let m = gmax_rec(terms, n - 1);
        let k = choose|i: int| 0 <= i < n - 1 && m == (#[trigger] terms[i]).max_words;
        if (terms[n - 1].max_words as int) > m {
            assert(gmax_rec(terms, n) == terms[n - 1].max_words);
        } else {
            assert(gmax_rec(terms, n) == terms[k].max_words);
        }
    } else {
        assert(gmax_rec(terms, 0) == 0);
        assert(gmax_rec(terms, 1) == terms[0].max_words);
    }
}

fn global_max_window(terms: &[CanonicalTerm]) -> (r: usize)
    ensures
        r == spec_gmax(terms@),
        r <= 255,
        forall|i: int| 0 <= i < terms@.len() ==> r >= (#[trigger] terms@[i]).max_words,
        terms@.len() == 0 ==> r == 1,
        terms@.len() > 0 ==> exists|i: int| 0 <= i < terms@.len() && r == (#[trigger] terms@[i]).max_words,
{
    proof {
        lemma_gmax_is_the_largest(terms@);
    }
    if terms.len() == 0 {
        return 1;
    }
    let mut m: usize = 0;
    let mut i: usize = 0;
    while i < terms.len()
        invariant
            i <= terms@.len(),
            m == gmax_rec(terms@, i as int),
            m <= 255,
        decreases terms@.len() - i,
    {
        if terms[i].max_words as usize > m {
            m = terms[i].max_words as usize;
        }
        i = i + 1;
    }
    m
}

/// The word texts of a tiled text, in order.
pub open spec fn text_words(s: Seq<char>, spans: Seq<Span>) -> Seq<Seq<char>> {
    word_positions(spans, spans.len() as int).map_values(|k: int| span_text(s, spans[k]))
}

/// Whether the gap before each word holds punctuation (never for the first
/// word).
pub open spec fn text_punct(s: Seq<char>, spans: Seq<Span>) -> Seq<bool> {
    let wp = word_positions(spans, spans.len() as int);
    Seq::new(wp.len(), |w: int| w > 0 && has_punctuation(span_text(s, spans[wp[w] - 1])))
}

/// The sweep's input for a text and a term list.
pub open spec fn snap_input(s: Seq<char>, terms: Seq<CanonicalTerm>, fuzzy: Seq<Vec<Vec<bool>>>) -> SweepInput {
    let spans = spec_tokens(s);
    SweepInput {
        words: text_words(s, spans),
        punct: text_punct(s, spans),
        terms: terms.map_values(|t: CanonicalTerm| term_view(t)),
        fuzzy: fuzzy.map_values(|v: Vec<Vec<bool>>| v@.map_values(|u: Vec<bool>| u@)),
        fuzzy_ok: terms.map_values(|t: CanonicalTerm| allows_fuzzy(t)),
        gmax: spec_gmax(terms),
    }
}

fn words_and_punct(text: &[char], spans: &Vec<Span>) -> (r: (Vec<Vec<char>>, Vec<bool>))
    requires
        tiles(text@, spans@),
    ensures
        r.0@.map_values(|v: Vec<char>| v@) == text_words(text@, spans@),
        r.1@ == text_punct(text@, spans@),
{
    let mut words: Vec<Vec<char>> = Vec::new();
    let mut punct: Vec<bool> = Vec::new();
    let mut i: usize = 0;
    while i < spans.len()
        invariant
            i <= spans@.len(),
            tiles(text@, spans@),
            words@.map_values(|v: Vec<char>| v@) == word_positions(spans@, i as int).map_values(
                |k: int| span_text(text@, spans@[k]),
            ),
            punct@ == Seq::new(
                word_positions(spans@, i as int).len(),
                |w: int| w > 0 && has_punctuation(span_text(text@, spans@[word_positions(spans@, i as int)[w] - 1])),
            ),
        decreases spans@.len() - i,
    {
        proof {
            lemma_word_positions(spans@, i as int);
        }
        let sp = spans[i];
        proof {
            lemma_span_bounds(text@, spans@, i as int);
        }
        if sp.is_word {
            let ghost wp = word_positions(spans@, i as int);
            let ghost wp2 = word_positions(spans@, i + 1);
            assert(wp2 == wp.push(i as int));
            assert(words@.len() == words@.map_values(|v: Vec<char>| v@).len());
            assert(words@.len() == wp.len());
            let word = crate::text::sub_chars(text, sp.start, sp.end);
            let p = if words.len() > 0 {
                assert(wp.len() > 0);
                assert(0 <= wp[wp.len() - 1] < i);
                assert(i >= 1);
                let g = spans[i - 1];
                proof {
                    lemma_span_bounds(text@, spans@, i - 1);
                }
                let gc = crate::text::sub_chars(text, g.start, g.end);
                gap_has_punctuation(gc.as_slice())
            } else {
                false
            };
            let ghost bw = words@;
            let ghost bp = punct@;
            assert(word@ == span_text(text@, spans@[i as int]));
            words.push(word);
            punct.push(p);
            assert(words@ == bw.push(word));
            let ghost mw = words@.map_values(|v: Vec<char>| v@);
            let ghost mt = wp2.map_values(|k: int| span_text(text@, spans@[k]));
            assert forall|k: int| 0 <= k < wp2.len() implies #[trigger] mw[k] == mt[k] by {
                if k < wp.len() {
                    assert(words@[k] == bw[k]);
                    assert(bw.map_values(|v: Vec<char>| v@)[k] == wp.map_values(|k: int| span_text(text@, spans@[k]))[k]);
                    assert(wp2[k] == wp[k]);
                }
            }
            assert(words@.map_values(|v: Vec<char>| v@) =~= wp2.map_values(|k: int| span_text(text@, spans@[k])));
            assert(punct@ =~= Seq::new(
                wp2.len(),
                |w: int| w > 0 && has_punctuation(span_text(text@, spans@[wp2[w] - 1])),
            ));
        }
        i = i + 1;
    }
    (words, punct)
}

/// The words of a tiled text that come before span `k`.
pub open spec fn words_before(spans: Seq<Span>, k: int) -> int {
    word_positions(spans, k).len() as int
}

/// What span `i` becomes: a word by its role (kept, replaced by the term's
/// output form, or removed), a gap removed when the word after it is
/// removed, and kept otherwise.
pub open spec fn piece(
    s: Seq<char>,
    spans: Seq<Span>,
    roles: Seq<WordRole>,
    terms: Seq<(Seq<char>, Seq<Seq<char>>, u8)>,
    i: int,
) -> Seq<char> {
    let w = words_before(spans, i);
    let text = span_text(s, spans[i]);
    if spans[i].is_word {
        if 0 <= w < roles.len() {
            match roles[w] {
                WordRole::Free => text,
                WordRole::Start(t) => spec_output_form(terms[t as int].0, text),
                WordRole::Inside => Seq::empty(),
            }
        } else {
            text
        }
    } else {
        if 0 <= w < roles.len() && roles[w] == WordRole::Inside {
            Seq::empty()
        } else {
            text
        }
    }
}

/// The pieces of the first `k` spans, concatenated.
pub open spec fn render_upto(
    s: Seq<char>,
    spans: Seq<Span>,
    roles: Seq<WordRole>,
    terms: Seq<(Seq<char>, Seq<Seq<char>>, u8)>,
    k: int,
) -> Seq<char>
    decreases k,
{
    if k <= 0 {
        Seq::empty()
    } else {
        render_upto(s, spans, roles, terms, k - 1) + piece(s, spans, roles, terms, k - 1)
    }
}

/// The snapped text: unchanged without terms or words, otherwise every span
/// rendered by the roles the sweep gives its words.
pub open spec fn spec_snap(s: Seq<char>, terms: Seq<CanonicalTerm>, fuzzy: Seq<Vec<Vec<bool>>>) -> Seq<char> {
    let spans = spec_tokens(s);
    let inp = snap_input(s, terms, fuzzy);
    if terms.len() == 0 || inp.words.len() == 0 {
        s
    } else {
        render_upto(s, spans, roles_from(inp, 0), inp.terms, spans.len() as int)
    }
}

fn append_chars(out: &mut String, v: &[char])
    ensures
        final(out)@ == old(out)@ + v@,
{
    let mut i: usize = 0;
    while i < v.len()
        invariant
            i <= v@.len(),
            out@ == old(out)@ + v@.take(i as int),
        decreases v@.len() - i,
    {
        crate::text::string_push(out, v[i]);
        assert(out@ =~= old(out)@ + v@.take(i + 1));
        i = i + 1;
    }
    assert(v@.take(v@.len() as int) =~= v@);
}

/// Snap `text` to the registered terms. Windows of consecutive words are
/// tried at each word not yet claimed: exact matches (the term or an alias,
/// ignoring case) of any size first, longest first, then fuzzy matches,
/// longest first, which may not reach across punctuation. `fuzzy[w][k][t]`
/// is the fuzzy verdict for the window of `k + 1` words at word `w` and term
/// `t`; a missing verdict counts as no, and an alias-only term never matches
/// by its verdict.
pub fn snap_with_terms(terms: &[CanonicalTerm], text: &str, fuzzy: &Vec<Vec<Vec<bool>>>) -> (r: String)
    ensures
        r@ == spec_snap(text@, terms@, fuzzy@),
{
    if terms.len() == 0 {
        return String::from_str(text);
    }
    let chars = str_chars(text);
    let spans = tokenise(chars.as_slice());
    let (words, punct) = words_and_punct(chars.as_slice(), &spans);
    let ghost inp = snap_input(text@, terms@, fuzzy@);
    proof {
        assert(words@.map_values(|v: Vec<char>| v@).len() == words@.len());
        assert(punct@.len() == text_punct(text@, spans@).len());
    }
    if words.len() == 0 {
        return String::from_str(text);
    }
    let gmax = global_max_window(terms);
    assert(inp == input_of(words@, punct@, terms@, fuzzy@, gmax as int));
    let roles = sweep_roles(&words, &punct, terms, fuzzy, gmax, Ghost(inp));
    let mut out = String::new();
    let mut i: usize = 0;
    let mut w: usize = 0;
    proof {
        lemma_roles_terms_valid(inp, 0);
    }
    while i < spans.len()
        invariant
            i <= spans@.len(),
            tiles(chars@, spans@),
            chars@ == text@,
            spans@ == spec_tokens(text@),
            roles@ == roles_from(inp, 0),
            inp.terms == terms@.map_values(|t: CanonicalTerm| term_view(t)),
            forall|j: int| 0 <= j < roles@.len() ==> (#[trigger] roles@[j] matches WordRole::Start(t) ==> t
                < inp.terms.len()),
            w == words_before(spans@, i as int),
            out@ == render_upto(chars@, spans@, roles@, inp.terms, i as int),
        decreases spans@.len() - i,
    {
        proof {
            lemma_word_positions(spans@, i as int);
        }
        render_piece(&mut out, &chars, &spans, &roles, terms, i, w, Ghost(inp.terms));
        if spans[i].is_word {
            w = w + 1;
        }
        i = i + 1;
    }
    out
}

/// Append what span `i` becomes (see [`piece`]).
fn render_piece(
    out: &mut String,
    chars: &Vec<char>,
    spans: &Vec<Span>,
    roles: &Vec<WordRole>,
    terms: &[CanonicalTerm],
    i: usize,
    w: usize,
    Ghost(tv): Ghost<Seq<(Seq<char>, Seq<Seq<char>>, u8)>>,
)
    requires
        i < spans@.len(),
        tiles(chars@, spans@),
        w == words_before(spans@, i as int),
        tv == terms@.map_values(|t: CanonicalTerm| term_view(t)),
        forall|j: int| 0 <= j < roles@.len() ==> (#[trigger] roles@[j] matches WordRole::Start(t) ==> t < tv.len()),
    ensures
        final(out)@ == old(out)@ + piece(chars@, spans@, roles@, tv, i as int),
{
    proof {
        lemma_span_bounds(chars@, spans@, i as int);
    }
    let sp = spans[i];
    let piece_chars = crate::text::sub_chars(chars.as_slice(), sp.start, sp.end);
    if sp.is_word {
        if w < roles.len() {
            match roles[w] {
                WordRole::Free => {
                    append_chars(out, piece_chars.as_slice());
                },
                WordRole::Start(t) => {
                    assert(roles@[w as int] == WordRole::Start(t));
                    assert(t < tv.len());
                    let word = chars_to_string(piece_chars.as_slice());
                    let form = output_form(terms[t].term.as_str(), word.as_str());
                    assert(tv[t as int].0 == terms@[t as int].term@);
                    let fv = str_chars(form.as_str());
                    append_chars(out, fv.as_slice());
                },
                WordRole::Inside => {
                    assert(old(out)@ + Seq::<char>::empty() =~= old(out)@);
                },
            }
        } else {
            append_chars(out, piece_chars.as_slice());
        }
    } else {
        if w < roles.len() && roles[w] == WordRole::Inside {
            assert(old(out)@ + Seq::<char>::empty() =~= old(out)@);
        } else {
            append_chars(out, piece_chars.as_slice());
        }
    }
}

/// The candidate text of every window the sweep may try, by word position
/// and window size less one: what the fuzzy verdicts are computed over.
pub fn window_candidates(terms: &[CanonicalTerm], text: &str) -> (r: Vec<Vec<String>>)
    ensures
        ({
            let words = text_words(text@, spec_tokens(text@));
            let gmax = spec_gmax(terms@);
            &&& r@.len() == words.len()
            &&& forall|pos: int| 0 <= pos < r@.len() ==> (#[trigger] r@[pos])@.len() == (if gmax < words.len() - pos {
                gmax
            } else {
                words.len() - pos
            })
            &&& forall|pos: int, k: int|
                0 <= pos < r@.len() && 0 <= k < r@[pos]@.len() ==> (#[trigger] r@[pos]@[k])@ == candidate(
                    words,
                    pos,
                    k + 1,
                )
        }),
{
    let chars = str_chars(text);
    let spans = tokenise(chars.as_slice());
    let (words, _punct) = words_and_punct(chars.as_slice(), &spans);
    let ghost ws = words@.map_values(|v: Vec<char>| v@);
    let gmax = global_max_window(terms);
    let n = words.len();
    let mut out: Vec<Vec<String>> = Vec::new();
    let mut pos: usize = 0;
    while pos < n
        invariant
            pos <= n,
            n == words@.len(),
            ws == words@.map_values(|v: Vec<char>| v@),
            ws == text_words(text@, spec_tokens(text@)),
            gmax == spec_gmax(terms@),
            gmax <= 255,
            out@.len() == pos,
            forall|p: int| 0 <= p < pos ==> (#[trigger] out@[p])@.len() == (if gmax < n - p { gmax as int } else { n - p }),
            forall|p: int, k: int|
                0 <= p < pos && 0 <= k < out@[p]@.len() ==> (#[trigger] out@[p]@[k])@ == candidate(ws, p, k + 1),
        decreases n - pos,
    {
        let mw = if gmax < n - pos {
            gmax
        } else {
            n - pos
        };
        let mut row: Vec<String> = Vec::new();
        let mut size: usize = 1;
        while size <= mw
            invariant
                1 <= size <= mw + 1,
                mw <= n - pos,
                mw <= 255,
                pos < n,
                n == words@.len(),
                ws == words@.map_values(|v: Vec<char>| v@),
                row@.len() == size - 1,
                forall|k: int| 0 <= k < row@.len() ==> (#[trigger] row@[k])@ == candidate(ws, pos as int, k + 1),
            decreases mw + 1 - size,
        {
            let c = candidate_text(&words, pos, size);
            row.push(chars_to_string(c.as_slice()));
            size = size + 1;
        }
        out.push(row);
        pos = pos + 1;
    }
    out
}

/// A tiling built run by run, for texts that fit in memory.
pub open spec fn build_tiles(s: Seq<char>) -> Seq<Span>
    decreases s.len(),
{
    if s.len() == 0 {
        Seq::empty()
    } else {
        let t = build_tiles(s.drop_last());
        let k = spec_is_alphanumeric(s.last());
        if t.len() > 0 && t.last().is_word == k {
            t.update(t.len() - 1, Span { is_word: k, start: t.last().start, end: s.len() as usize })
        } else {
            t.push(Span { is_word: k, start: (s.len() - 1) as usize, end: s.len() as usize })
        }
    }
}

proof fn lemma_build_tiles(s: Seq<char>)
    requires
        s.len() <= usize::MAX,
    ensures
        tiles(s, build_tiles(s)),
    decreases s.len(),
{
    reveal(tiles);
    if s.len() > 0 {
        let p = s.drop_last();
        lemma_build_tiles(p);
        let t = build_tiles(p);
        let r = build_tiles(s);
        let k = spec_is_alphanumeric(s.last());
        assert(forall|i: int| 0 <= i < p.len() ==> p[i] == s[i]);
        if t.len() > 0 && t.last().is_word == k {
            assert forall|j: int, i: int|
                0 <= j < r.len() && r[j].start <= i < r[j].end implies spec_is_alphanumeric(#[trigger] s[i])
                == (#[trigger] r[j]).is_word by {
                if j < r.len() - 1 {
                    assert(r[j] == t[j]);
                } else if i < s.len() - 1 {
                    assert(t[j].start <= i < t[j].end);
                }
            }
            assert forall|j: int| 1 <= j < r.len() implies (#[trigger] r[j]).start == r[j - 1].end && r[j].is_word
                != r[j - 1].is_word by {
                assert(r[j - 1] == t[j - 1]);
                if j < r.len() - 1 {
                    assert(r[j] == t[j]);
                } else {
                    assert(t[j].start == t[j - 1].end);
                }
            }
            assert forall|j: int| 0 <= j < r.len() implies (#[trigger] r[j]).start < r[j].end <= s.len() by {
                if j < r.len() - 1 {
                    assert(r[j] == t[j]);
                }
            }
        } else {
            assert forall|j: int, i: int|
                0 <= j < r.len() && r[j].start <= i < r[j].end implies spec_is_alphanumeric(#[trigger] s[i])
                == (#[trigger] r[j]).is_word by {
                if j < r.len() - 1 {
                    assert(r[j] == t[j]);
                }
            }
            assert forall|j: int| 1 <= j < r.len() implies (#[trigger] r[j]).start == r[j - 1].end && r[j].is_word
                != r[j - 1].is_word by {
                assert(r[j - 1] == t[j - 1]);
                if j < r.len() - 1 {
                    assert(r[j] == t[j]);
                } else {
                    assert(t.len() > 0);
                    assert(t.last().end == p.len());
                }
            }
            assert forall|j: int| 0 <= j < r.len() implies (#[trigger] r[j]).start < r[j].end <= s.len() by {
                if j < r.len() - 1 {
                    assert(r[j] == t[j]);
                }
            }
        }
    }
}

proof fn lemma_roles_all_free(inp: SweepInput, pos: int)
    requires
        forall|p: int| pos <= p < inp.words.len() ==> #[trigger] matched_at(inp, p) is None,
    ensures
        forall|i: int| 0 <= i < roles_from(inp, pos).len() ==> #[trigger] roles_from(inp, pos)[i] == WordRole::Free,
    decreases inp.words.len() - pos,
{
    if 0 <= pos < inp.words.len() {
        assert(matched_at(inp, pos) is None);
        lemma_roles_all_free(inp, pos + 1);
        let r = roles_from(inp, pos);
        let tail = roles_from(inp, pos + 1);
        assert forall|i: int| 0 <= i < r.len() implies #[trigger] r[i] == WordRole::Free by {
            if i > 0 {
                assert(r[i] == tail[i - 1]);
            }
        }
    }
}

proof fn lemma_render_free(
    s: Seq<char>,
    spans: Seq<Span>,
    roles: Seq<WordRole>,
    terms: Seq<(Seq<char>, Seq<Seq<char>>, u8)>,
    k: int,
)
    requires
        0 <= k <= spans.len(),
        forall|i: int| 0 <= i < roles.len() ==> #[trigger] roles[i] == WordRole::Free,
    ensures
        render_upto(s, spans, roles, terms, k) == concat_spans(s, spans, k),
    decreases k,
{
    if k > 0 {
        lemma_render_free(s, spans, roles, terms, k - 1);
        let w = words_before(spans, k - 1);
        if 0 <= w < roles.len() {
            assert(roles[w] == WordRole::Free);
        }
        assert(piece(s, spans, roles, terms, k - 1) == span_text(s, spans[k - 1]));
    }
}

/// A text in which no window matches comes back unchanged.
pub proof fn lemma_no_match_is_identity(s: Seq<char>, terms: Seq<CanonicalTerm>, fuzzy: Seq<Vec<Vec<bool>>>)
    requires
        s.len() <= usize::MAX,
        forall|p: int|
            0 <= p < snap_input(s, terms, fuzzy).words.len() ==> #[trigger] matched_at(snap_input(s, terms, fuzzy), p)
                is None,
    ensures
        spec_snap(s, terms, fuzzy) == s,
{
    let inp = snap_input(s, terms, fuzzy);
    let spans = spec_tokens(s);
    if terms.len() > 0 && inp.words.len() > 0 {
        lemma_build_tiles(s);
        lemma_tokens_is(s, build_tiles(s));
        lemma_roles_all_free(inp, 0);
        let roles = roles_from(inp, 0);
        lemma_render_free(s, spans, roles, inp.terms, spans.len() as int);
        lemma_tiles_lossless(s, spans);
    }
}

/// A text without a single alphanumeric character has no words, so snapping
/// gives it back unchanged (as it does with no terms at all).
pub proof fn lemma_no_letters_is_identity(s: Seq<char>, terms: Seq<CanonicalTerm>, fuzzy: Seq<Vec<Vec<bool>>>)
    requires
        s.len() <= usize::MAX,
        terms.len() == 0 || forall|i: int| 0 <= i < s.len() ==> !spec_is_alphanumeric(#[trigger] s[i]),
    ensures
        spec_snap(s, terms, fuzzy) == s,
{
    if terms.len() > 0 {
        lemma_build_tiles(s);
        lemma_tokens_is(s, build_tiles(s));
        let spans = spec_tokens(s);
        let n = spans.len() as int;
        lemma_word_positions(spans, n);
        let wp = word_positions(spans, n);
        if wp.len() > 0 {
            let k = wp[0];
            lemma_span_bounds(s, spans, k);
            reveal(tiles);
            let i = spans[k].start as int;
            assert(spec_is_alphanumeric(s[i]) == spans[k].is_word);
            assert(false);
        }
        assert(snap_input(s, terms, fuzzy).words.len() == 0);
    }
}

// ---------------------------------------------------------------------------
// Seeding from the dictionary
// ---------------------------------------------------------------------------

/// Strict lexicographic order on character sequences, by code point (which
/// is also the byte order of their UTF-8 encodings, the order of `String`).
pub open spec fn lex_lt(a: Seq<char>, b: Seq<char>) -> bool
    decreases a.len(),
{
    if a.len() == 0 {
        b.len() > 0
    } else if b.len() == 0 {
        false
    } else if a[0] != b[0] {
        (a[0] as int) < (b[0] as int)
    } else {
        lex_lt(a.drop_first(), b.drop_first())
    }
}

proof fn lemma_lex_trans(a: Seq<char>, b: Seq<char>, c: Seq<char>)
    requires
        lex_lt(a, b),
        lex_lt(b, c),
    ensures
        lex_lt(a, c),
    decreases a.len(),
{
    if a.len() > 0 && b.len() > 0 && c.len() > 0 && a[0] == b[0] && b[0] == c[0] {
        lemma_lex_trans(a.drop_first(), b.drop_first(), c.drop_first());
    }
}

proof fn lemma_lex_total(a: Seq<char>, b: Seq<char>)
    ensures
        a != b ==> lex_lt(a, b) || lex_lt(b, a),
        !(lex_lt(a, b) && lex_lt(b, a)),
        !lex_lt(a, a),
    decreases a.len(),
{
    if a.len() > 0 && b.len() > 0 && a[0] == b[0] {
        lemma_lex_total(a.drop_first(), b.drop_first());
        if a.drop_first() == b.drop_first() {
            assert(a =~= seq![a[0]] + a.drop_first());
            assert(b =~= seq![b[0]] + b.drop_first());
        }
    }
    if a.len() > 0 {
        lemma_lex_total(a.drop_first(), a.drop_first());
    }
    if a.len() == 0 && b.len() == 0 {
        assert(a =~= b);
    }
    if a.len() > 0 && b.len() > 0 && a[0] != b[0] {
        assert((a[0] as int) != (b[0] as int));
    }
}

fn lex_less(a: &[char], b: &[char]) -> (r: bool)
    ensures
        r == lex_lt(a@, b@),
{
    let mut i: usize = 0;
    assert(a@.skip(0) =~= a@);
    assert(b@.skip(0) =~= b@);
    while i < a.len() && i < b.len() && a[i] == b[i]
        invariant
            i <= a@.len(),
            i <= b@.len(),
            lex_lt(a@, b@) == lex_lt(a@.skip(i as int), b@.skip(i as int)),
        decreases a@.len() - i,
    {
        assert(a@.skip(i as int).drop_first() =~= a@.skip(i + 1));
        assert(b@.skip(i as int).drop_first() =~= b@.skip(i + 1));
        i = i + 1;
    }
    if i == a.len() {
        i < b.len()
    } else if i == b.len() {
        false
    } else {
        a[i] < b[i]
    }
}

/// A group of the seed: a display term and its aliases.
pub type SeedGroup = (Seq<char>, Seq<Seq<char>>);

/// The position of the group whose term is `key` once lowercased.
pub open spec fn group_of(groups: Seq<SeedGroup>, key: Seq<char>) -> Option<int> {
    if exists|i: int| 0 <= i < groups.len() && spec_to_lowercase(#[trigger] groups[i].0) == key {
        Some(choose|i: int| 0 <= i < groups.len() && spec_to_lowercase(#[trigger] groups[i].0) == key)
    } else {
        None
    }
}

/// `from` is added as an alias unless it is the term itself or already an
/// alias, ignoring case.
pub open spec fn adds_alias(g: SeedGroup, from: Seq<char>) -> bool {
    spec_to_lowercase(from) != spec_to_lowercase(g.0) && forall|a: int|
        0 <= a < g.1.len() ==> spec_to_lowercase(#[trigger] g.1[a]) != spec_to_lowercase(from)
}

/// One dictionary entry folded into the groups: it joins the group of its
/// lowercase `to`, starting a new one (with `to` as the term) when there is
/// none.
pub open spec fn seed_step(groups: Seq<SeedGroup>, from: Seq<char>, to: Seq<char>) -> Seq<SeedGroup> {
    let key = spec_to_lowercase(to);
    match group_of(groups, key) {
        Some(i) => if adds_alias(groups[i], from) {
            groups.update(i, (groups[i].0, groups[i].1.push(from)))
        } else {
            groups
        },
        None => {
            let g: SeedGroup = (to, Seq::empty());
            if adds_alias(g, from) {
                groups.push((to, seq![from]))
            } else {
                groups.push(g)
            }
        },
    }
}

/// The groups of the first `n` entries, in order of first appearance.
pub open spec fn seed_groups(entries: Seq<DictionaryEntry>, n: int) -> Seq<SeedGroup>
    decreases n,
{
    if n <= 0 {
        Seq::empty()
    } else {
        seed_step(seed_groups(entries, n - 1), entries[n - 1].from@, entries[n - 1].to@)
    }
}

/// No two groups share a lowercase term.
pub open spec fn distinct_keys(groups: Seq<SeedGroup>) -> bool {
    forall|i: int, j: int|
        0 <= i < j < groups.len() ==> spec_to_lowercase(#[trigger] groups[i].0) != spec_to_lowercase(
            #[trigger] groups[j].0,
        )
}

proof fn lemma_seed_distinct(entries: Seq<DictionaryEntry>, n: int)
    requires
        0 <= n <= entries.len(),
    ensures
        distinct_keys(seed_groups(entries, n)),
    decreases n,
{
    if n > 0 {
        lemma_seed_distinct(entries, n - 1);
        let g = seed_groups(entries, n - 1);
        let key = spec_to_lowercase(entries[n - 1].to@);
        let r = seed_groups(entries, n);
        match group_of(g, key) {
            Some(i) => {
                assert forall|a: int, b: int| 0 <= a < b < r.len() implies spec_to_lowercase(#[trigger] r[a].0)
                    != spec_to_lowercase(#[trigger] r[b].0) by {
                    assert(r[a].0 == g[a].0 && r[b].0 == g[b].0);
                }
            },
            None => {
                assert forall|a: int, b: int| 0 <= a < b < r.len() implies spec_to_lowercase(#[trigger] r[a].0)
                    != spec_to_lowercase(#[trigger] r[b].0) by {
                    if b < g.len() {
                        assert(r[a].0 == g[a].0 && r[b].0 == g[b].0);
                    } else {
                        assert(r[a].0 == g[a].0);
                        assert(r[b].0 == entries[n - 1].to@);
                    }
                }
            },
        }
    }
}

/// Groups under construction, by their text.
pub open spec fn groups_view(v: Seq<(String, Vec<String>)>) -> Seq<SeedGroup> {
    v.map_values(|g: (String, Vec<String>)| (g.0@, g.1@.map_values(|a: String| a@)))
}

fn clone_strings(v: &Vec<String>) -> (r: Vec<String>)
    ensures
        r@ == v@,
{
    let mut r: Vec<String> = Vec::new();
    let mut i: usize = 0;
    while i < v.len()
        invariant
            i <= v@.len(),
            r@ == v@.take(i as int),
        decreases v@.len() - i,
    {
        r.push(v[i].clone());
        assert(r@ =~= v@.take(i + 1));
        i = i + 1;
    }
    assert(v@.take(v@.len() as int) =~= v@);
    r
}

/// Whether `from` would be added to the group as a new alias.
fn adds_alias_exec(term_key: &Vec<char>, aliases: &Vec<String>, from_key: &Vec<char>, Ghost(g): Ghost<SeedGroup>, Ghost(from): Ghost<Seq<char>>) -> (r: bool)
    requires
        term_key@ == spec_to_lowercase(g.0),
        g.1 == aliases@.map_values(|a: String| a@),
        from_key@ == spec_to_lowercase(from),
    ensures
        r == adds_alias(g, from),
{
    if crate::text::chars_eq(from_key.as_slice(), term_key.as_slice()) {
        return false;
    }
    let mut i: usize = 0;
    while i < aliases.len()
        invariant
            i <= aliases@.len(),
            g.1 == aliases@.map_values(|a: String| a@),
            from_key@ == spec_to_lowercase(from),
            forall|a: int| 0 <= a < i ==> spec_to_lowercase(#[trigger] g.1[a]) != spec_to_lowercase(from),
        decreases aliases@.len() - i,
    {
        let al = to_lowercase(aliases[i].as_str());
        let av = str_chars(al.as_str());
        assert(g.1[i as int] == aliases@[i as int]@);
        if crate::text::chars_eq(av.as_slice(), from_key.as_slice()) {
            return false;
        }
        i = i + 1;
    }
    true
}

/// The groups of the dictionary entries, in order of first appearance, with
/// the lowercase term of each.
fn build_seed_groups(entries: &Vec<DictionaryEntry>) -> (r: (Vec<(String, Vec<String>)>, Vec<Vec<char>>))
    ensures
        groups_view(r.0@) == seed_groups(entries@, entries@.len() as int),
        r.1@.len() == r.0@.len(),
        forall|i: int| 0 <= i < r.1@.len() ==> (#[trigger] r.1@[i])@ == spec_to_lowercase(r.0@[i].0@),
{
    let mut groups: Vec<(String, Vec<String>)> = Vec::new();
    let mut keys: Vec<Vec<char>> = Vec::new();
    let mut i: usize = 0;
    while i < entries.len()
        invariant
            i <= entries@.len(),
            groups_view(groups@) == seed_groups(entries@, i as int),
            keys@.len() == groups@.len(),
            forall|k: int| 0 <= k < keys@.len() ==> (#[trigger] keys@[k])@ == spec_to_lowercase(groups@[k].0@),
        decreases entries@.len() - i,
    {
        proof {
            lemma_seed_distinct(entries@, i as int);
        }
        let ghost gv = groups_view(groups@);
        let ghost from = entries@[i as int].from@;
        let ghost to = entries@[i as int].to@;
        let to_l = to_lowercase(entries[i].to.as_str());
        let to_key = str_chars(to_l.as_str());
        let from_l = to_lowercase(entries[i].from.as_str());
        let from_key = str_chars(from_l.as_str());
        let mut p: usize = 0;
        while p < keys.len() && !crate::text::chars_eq(keys[p].as_slice(), to_key.as_slice())
            invariant
                p <= keys@.len(),
                keys@.len() == groups@.len(),
                forall|k: int| 0 <= k < p ==> (#[trigger] keys@[k])@ != to_key@,
            decreases keys@.len() - p,
        {
            p = p + 1;
        }
        assert(gv.len() == groups@.len());
        if p < keys.len() {
            proof {
                assert(spec_to_lowercase(gv[p as int].0) == spec_to_lowercase(to));
                let c = group_of(gv, spec_to_lowercase(to));
                assert(c is Some);
                let q = c->0;
                assert(spec_to_lowercase(gv[q].0) == spec_to_lowercase(to));
                if q != p {
                    if q < p {
                        assert(spec_to_lowercase(gv[q].0) != spec_to_lowercase(gv[p as int].0));
                    } else {
                        assert(spec_to_lowercase(gv[p as int].0) != spec_to_lowercase(gv[q].0));
                    }
                }
            }
            let ghost g = gv[p as int];
            assert(g.1 == groups@[p as int].1@.map_values(|a: String| a@));
            let add = adds_alias_exec(&keys[p], &groups[p].1, &from_key, Ghost(g), Ghost(from));
            if add {
                let term = groups[p].0.clone();
                let mut aliases = clone_strings(&groups[p].1);
                let ghost before = aliases@;
                aliases.push(entries[i].from.clone());
                assert(aliases@.map_values(|a: String| a@) =~= g.1.push(from));
                groups.set(p, (term, aliases));
                assert(groups_view(groups@) =~= gv.update(p as int, (g.0, g.1.push(from))));
            }
        } else {
            proof {
                assert forall|k: int| 0 <= k < gv.len() implies spec_to_lowercase(#[trigger] gv[k].0) != spec_to_lowercase(
                    to,
                ) by {
                    assert(keys@[k]@ != to_key@);
                }
            }
            let ghost g: SeedGroup = (to, Seq::empty());
            let empty: Vec<String> = Vec::new();
            let tk = str_chars(to_l.as_str());
            assert(empty@.map_values(|a: String| a@) =~= Seq::<Seq<char>>::empty());
            let add = adds_alias_exec(&tk, &empty, &from_key, Ghost(g), Ghost(from));
            let mut aliases: Vec<String> = Vec::new();
            if add {
                aliases.push(entries[i].from.clone());
            }
            let ghost av = aliases@.map_values(|a: String| a@);
            assert(add ==> av =~= seq![from]);
            assert(!add ==> av =~= Seq::<Seq<char>>::empty());
            groups.push((entries[i].to.clone(), aliases));
            keys.push(tk);
            assert(groups_view(groups@) =~= gv.push((to, av)));
        }
        i = i + 1;
    }
    (groups, keys)
}

/// The terms seeded from the dictionary: one `AliasOnly` term (window of
/// three words) per group of entries sharing a lowercase `to`, with the
/// first such `to` as the term and the other spellings of `from` as its
/// aliases, ordered by lowercase term.
pub fn seed_terms(entries: &Vec<DictionaryEntry>) -> (r: Vec<CanonicalTerm>)
    ensures
        ({
            let g = seed_groups(entries@, entries@.len() as int);
            let rv = r@.map_values(|t: CanonicalTerm| (t.term@, t.aliases@.map_values(|a: String| a@)));
            &&& rv.len() == g.len()
            &&& forall|x: SeedGroup| rv.contains(x) <==> g.contains(x)
            &&& forall|i: int, j: int|
                0 <= i < j < r@.len() ==> lex_lt(
                    spec_to_lowercase((#[trigger] r@[i]).term@),
                    spec_to_lowercase((#[trigger] r@[j]).term@),
                )
            &&& forall|i: int|
                0 <= i < r@.len() ==> (#[trigger] r@[i]).policy == SnapPolicy::AliasOnly && r@[i].max_words == 3
                    && r@[i].threshold_bits is None
        }),
{
    let (groups, keys) = build_seed_groups(entries);
    let ghost g = seed_groups(entries@, entries@.len() as int);
    proof {
        lemma_seed_distinct(entries@, entries@.len() as int);
    }
    let mut out: Vec<CanonicalTerm> = Vec::new();
    let mut out_keys: Vec<Vec<char>> = Vec::new();
    let mut i: usize = 0;
    while i < groups.len()
        invariant
            i <= groups@.len(),
            groups_view(groups@) == g,
            distinct_keys(g),
            keys@.len() == groups@.len(),
            forall|k: int| 0 <= k < keys@.len() ==> (#[trigger] keys@[k])@ == spec_to_lowercase(groups@[k].0@),
            out@.len() == i,
            out_keys@.len() == i,
            forall|k: int| 0 <= k < out@.len() ==> (#[trigger] out_keys@[k])@ == spec_to_lowercase(out@[k].term@),
            forall|a: int, b: int|
                0 <= a < b < out@.len() ==> lex_lt((#[trigger] out_keys@[a])@, (#[trigger] out_keys@[b])@),
            forall|x: SeedGroup|
                out@.map_values(|t: CanonicalTerm| (t.term@, t.aliases@.map_values(|a: String| a@))).contains(x)
                    <==> g.take(i as int).contains(x),
            forall|k: int|
                0 <= k < out@.len() ==> (#[trigger] out@[k]).policy == SnapPolicy::AliasOnly && out@[k].max_words == 3
                    && out@[k].threshold_bits is None,
        decreases groups@.len() - i,
    {
        let ghost ov = out@.map_values(|t: CanonicalTerm| (t.term@, t.aliases@.map_values(|a: String| a@)));
        let ghost x = g[i as int];
        let key = crate::text::sub_chars(keys[i].as_slice(), 0, keys[i].len());
        assert(key@ =~= keys@[i as int]@);
        let mut p: usize = 0;
        while p < out_keys.len() && !lex_less(key.as_slice(), out_keys[p].as_slice())
            invariant
                p <= out_keys@.len(),
                forall|k: int| 0 <= k < p ==> !lex_lt(key@, (#[trigger] out_keys@[k])@),
            decreases out_keys@.len() - p,
        {
            p = p + 1;
        }
        proof {
            assert forall|k: int| 0 <= k < out@.len() implies (#[trigger] out_keys@[k])@ != key@ by {
                assert(ov[k] == (out@[k].term@, out@[k].aliases@.map_values(|a: String| a@)));
                assert(ov.contains(ov[k]));
                assert(g.take(i as int).contains(ov[k]));
                let j = choose|j: int| 0 <= j < g.take(i as int).len() && g.take(i as int)[j] == ov[k];
                assert(g[j] == ov[k]);
                assert(spec_to_lowercase(g[j].0) != spec_to_lowercase(g[i as int].0));
            }
        }
        let term = CanonicalTerm {
            term: groups[i].0.clone(),
            aliases: clone_strings(&groups[i].1),
            policy: SnapPolicy::AliasOnly,
            max_words: 3,
            threshold_bits: None,
        };
        assert((term.term@, term.aliases@.map_values(|a: String| a@)) == x);
        let ghost ok = out_keys@;
        let ghost oo = out@;
        out.insert(p, term);
        out_keys.insert(p, key);
        proof {
            let nv = out@.map_values(|t: CanonicalTerm| (t.term@, t.aliases@.map_values(|a: String| a@)));
            assert(nv =~= ov.insert(p as int, x));
            assert forall|y: SeedGroup| nv.contains(y) <==> g.take(i + 1).contains(y) by {
                let gi = g.take(i + 1);
                let gt = g.take(i as int);
                assert(gi =~= gt.push(x));
                if nv.contains(y) {
                    let j = choose|j: int| 0 <= j < nv.len() && #[trigger] nv[j] == y;
                    if j == p {
                        assert(gi[i as int] == y);
                    } else {
                        if j < p {
                            assert(ov[j] == y);
                        } else {
                            assert(ov[j - 1] == y);
                        }
                        assert(ov.contains(y));
                        assert(gt.contains(y));
                        let k = choose|k: int| 0 <= k < gt.len() && #[trigger] gt[k] == y;
                        assert(gi[k] == y);
                    }
                }
                if gi.contains(y) {
                    let j = choose|j: int| 0 <= j < gi.len() && #[trigger] gi[j] == y;
                    if j < i {
                        assert(gt[j] == y);
                        assert(gt.contains(y));
                        assert(ov.contains(y));
                        let k = choose|k: int| 0 <= k < ov.len() && #[trigger] ov[k] == y;
                        if k < p {
                            assert(nv[k] == y);
                        } else {
                            assert(nv[k + 1] == y);
                        }
                    } else {
                        assert(nv[p as int] == y);
                    }
                }
            }
            assert forall|a: int, b: int| 0 <= a < b < out@.len() implies lex_lt(
                (#[trigger] out_keys@[a])@,
                (#[trigger] out_keys@[b])@,
            ) by {
                let ka = out_keys@[a]@;
                let kb = out_keys@[b]@;
                if b < p {
                    assert(ka == ok[a]@ && kb == ok[b]@);
                } else if b == p {
                    assert(ka == ok[a]@);
                    lemma_lex_total(key@, ok[a]@);
                } else if a < p {
                    assert(ka == ok[a]@ && kb == ok[b - 1]@);
                } else if a == p {
                    assert(kb == ok[b - 1]@);
                    if b - 1 > p {
                        lemma_lex_trans(key@, ok[p as int]@, ok[b - 1]@);
                    }
                } else {
                    assert(ka == ok[a - 1]@ && kb == ok[b - 1]@);
                }
            }
            assert forall|k: int| 0 <= k < out@.len() implies (#[trigger] out_keys@[k])@ == spec_to_lowercase(
                out@[k].term@,
            ) by {
                if k < p {
                    assert(out_keys@[k] == ok[k] && out@[k] == oo[k]);
                } else if k > p {
                    assert(out_keys@[k] == ok[k - 1] && out@[k] == oo[k - 1]);
                }
            }
            assert forall|k: int| 0 <= k < out@.len() implies (#[trigger] out@[k]).policy == SnapPolicy::AliasOnly
                && out@[k].max_words == 3 && out@[k].threshold_bits is None by {
                if k < p {
                    assert(out@[k] == oo[k]);
                } else if k > p {
                    assert(out@[k] == oo[k - 1]);
                }
            }
        }
        i = i + 1;
    }
    assert(g.take(g.len() as int) =~= g);
    assert forall|a: int, b: int| 0 <= a < b < out@.len() implies lex_lt(
        spec_to_lowercase((#[trigger] out@[a]).term@),
        spec_to_lowercase((#[trigger] out@[b]).term@),
    ) by {
        assert(lex_lt(out_keys@[a]@, out_keys@[b]@));
    }
    assert(groups_view(groups@).len() == groups@.len());
    out
}

// ---------------------------------------------------------------------------
// Editing the registry
// ---------------------------------------------------------------------------

/// The key a term is told apart by: its lowercase spelling.
pub open spec fn term_key(t: CanonicalTerm) -> Seq<char> {
    spec_to_lowercase(t.term@)
}

/// Error text for a blank term.
pub open spec fn empty_term_message() -> Seq<char> {
    "Term cannot be empty"@
}

/// Error text for a term whose key is taken.
pub open spec fn duplicate_term_message(term: Seq<char>) -> Seq<char> {
    "A canonical term for '"@ + term + "' already exists"@
}

/// Error text for an index past the end.
pub open spec fn invalid_term_index_message(index: nat) -> Seq<char> {
    "Invalid index: "@ + crate::text::decimal(index)
}

/// Some term other than the one at `skip` has this key.
pub open spec fn key_taken_by(terms: Seq<CanonicalTerm>, key: Seq<char>, skip: int) -> bool {
    exists|i: int| 0 <= i < terms.len() && i != skip && #[trigger] term_key(terms[i]) == key
}

fn key_taken_exec(terms: &Vec<CanonicalTerm>, key: &Vec<char>, skip: Option<usize>) -> (r: bool)
    ensures
        r == key_taken_by(terms@, key@, match skip {
            Some(k) => k as int,
            None => -1,
        }),
{
    let ghost sk: int = match skip {
        Some(k) => k as int,
        None => -1,
    };
    let mut i: usize = 0;
    while i < terms.len()
        invariant
            i <= terms@.len(),
            sk == match skip {
                Some(k) => k as int,
                None => -1,
            },
            forall|j: int| 0 <= j < i && j != sk ==> #[trigger] term_key(terms@[j]) != key@,
        decreases terms@.len() - i,
    {
        let is_skip = match skip {
            Some(k) => k == i,
            None => false,
        };
        if !is_skip {
            let l = to_lowercase(terms[i].term.as_str());
            let lv = str_chars(l.as_str());
            if crate::text::chars_eq(lv.as_slice(), key.as_slice()) {
                assert(term_key(terms@[i as int]) == key@);
                assert(i as int != sk);
                return true;
            }
        }
        i = i + 1;
    }
    false
}

fn duplicate_term_error(term: &str) -> (r: String)
    ensures
        r@ == duplicate_term_message(term@),
{
    proof {
        reveal_strlit("A canonical term for '");
        reveal_strlit("' already exists");
    }
    let mut m = String::from_str("A canonical term for '");
    m.append(term);
    m.append("' already exists");
    m
}

fn invalid_term_index_error(index: usize) -> (r: String)
    ensures
        r@ == invalid_term_index_message(index as nat),
{
    proof {
        reveal_strlit("Invalid index: ");
    }
    let mut m = String::from_str("Invalid index: ");
    let d = crate::text::u64_to_decimal(index as u64);
    m.append(d.as_str());
    m
}

/// Add a canonical term. A blank term is refused, then one whose lowercase
/// spelling is already registered; otherwise it is appended.
pub fn add_canonical_term(terms: &mut Vec<CanonicalTerm>, term: CanonicalTerm) -> (r: Result<(), String>)
    ensures
        crate::text::is_blank(term.term@) ==> (r matches Err(e) && e@ == empty_term_message() && final(terms)@ == old(terms)@),
        !crate::text::is_blank(term.term@) && key_taken_by(old(terms)@, term_key(term), -1) ==> (r matches Err(e)
            && e@ == duplicate_term_message(term.term@) && final(terms)@ == old(terms)@),
        !crate::text::is_blank(term.term@) && !key_taken_by(old(terms)@, term_key(term), -1) ==> (r is Ok && final(terms)@ == old(terms)@.push(term)),
{
    if crate::text::str_is_blank(term.term.as_str()) {
        return Err(String::from_str("Term cannot be empty"));
    }
    let l = to_lowercase(term.term.as_str());
    let key = str_chars(l.as_str());
    if key_taken_exec(terms, &key, None) {
        return Err(duplicate_term_error(term.term.as_str()));
    }
    terms.push(term);
    Ok(())
}

/// Replace the term at `index`. A blank term is refused, then an index past
/// the end, then a lowercase spelling registered at another index.
pub fn update_canonical_term(terms: &mut Vec<CanonicalTerm>, index: usize, term: CanonicalTerm) -> (r: Result<(), String>)
    ensures
        crate::text::is_blank(term.term@) ==> (r matches Err(e) && e@ == empty_term_message() && final(terms)@ == old(terms)@),
        !crate::text::is_blank(term.term@) && index >= old(terms)@.len() ==> (r matches Err(e) && e@
            == invalid_term_index_message(index as nat) && final(terms)@ == old(terms)@),
        !crate::text::is_blank(term.term@) && index < old(terms)@.len() && key_taken_by(
            old(terms)@,
            term_key(term),
            index as int,
        ) ==> (r matches Err(e) && e@ == duplicate_term_message(term.term@) && final(terms)@ == old(terms)@),
        !crate::text::is_blank(term.term@) && index < old(terms)@.len() && !key_taken_by(
            old(terms)@,
            term_key(term),
            index as int,
        ) ==> (r is Ok && final(terms)@ == old(terms)@.update(index as int, term)),
{
    if crate::text::str_is_blank(term.term.as_str()) {
        return Err(String::from_str("Term cannot be empty"));
    }
    if index >= terms.len() {
        return Err(invalid_term_index_error(index));
    }
    let l = to_lowercase(term.term.as_str());
    let key = str_chars(l.as_str());
    if key_taken_exec(terms, &key, Some(index)) {
        return Err(duplicate_term_error(term.term.as_str()));
    }
    terms.set(index, term);
    Ok(())
}

/// Remove the term at `index`; an index past the end is refused.
pub fn remove_canonical_term(terms: &mut Vec<CanonicalTerm>, index: usize) -> (r: Result<(), String>)
    ensures
        index >= old(terms)@.len() ==> (r matches Err(e) && e@ == invalid_term_index_message(index as nat) && final(terms)@ == old(terms)@),
        index < old(terms)@.len() ==> (r is Ok && final(terms)@ == old(terms)@.remove(index as int)),
{
    if index >= terms.len() {
        return Err(invalid_term_index_error(index));
    }
    let _removed = terms.remove(index);
    Ok(())
}

/// The registry of canonical terms.
#[derive(Debug)]
pub struct CanonicalRegistry {
    /// The terms, in matching order.
    pub terms: Vec<CanonicalTerm>,
}

impl Default for CanonicalRegistry {
    fn default() -> (r: Self)
        ensures
            r.terms@.len() == 0,
    {
        CanonicalRegistry { terms: Vec::new() }
    }
}

/// Snap `text` to the terms of `registry` (see [`snap_with_terms`]).
pub fn apply_canonical(registry: &CanonicalRegistry, text: &str, fuzzy: &Vec<Vec<Vec<bool>>>) -> (r: String)
    ensures
        r@ == spec_snap(text@, registry.terms@, fuzzy@),
{
    snap_with_terms(registry.terms.as_slice(), text, fuzzy)
}

} // verus!
