//! Escape detection: spellings in past transcripts that look like a
//! registered canonical term but were not snapped to it, as candidate
//! aliases with the evidence for each.
//!
//! The corpus is read word by word (each word lowercased); a spelling is a
//! candidate for a term when it is long enough, frequent enough, no more
//! frequent than the term's own spelling, not already registered, and not
//! an ordinary inflection of the term. Whether its spelling is close enough
//! to the term is judged on a similarity score by the caller.
use vstd::prelude::*;
use vstd::string::StringExecFns;
use crate::canonical::{
    lemma_span_bounds, lemma_utf8_len_at_least_len, lemma_word_positions, span_text, spec_tokens, tiles,
    tokenise, utf8_len, word_indices, word_positions, CanonicalTerm,
};
use crate::text::{chars_to_string, spec_to_lowercase, str_chars, to_lowercase};

verus! {

broadcast use vstd::string::group_string_axioms;

/// The words of a text, lowercased, each with its character offset.
pub open spec fn text_entries(s: Seq<char>) -> Seq<(Seq<char>, int)> {
    let spans = spec_tokens(s);
    word_positions(spans, spans.len() as int).map_values(
        |k: int| (spec_to_lowercase(span_text(s, spans[k])), spans[k].start as int),
    )
}

/// The words of the first `n` texts, lowercased, each with its text's index
/// and its character offset there, in reading order.
pub open spec fn corpus(texts: Seq<Seq<char>>, n: int) -> Seq<(Seq<char>, int, int)>
    decreases n,
{
    if n <= 0 {
        Seq::empty()
    } else {
        corpus(texts, n - 1) + text_entries(texts[n - 1]).map_values(|e: (Seq<char>, int)| (e.0, n - 1, e.1))
    }
}

/// A corpus entry by its text.
pub open spec fn entries_view(v: Seq<(String, usize, usize)>) -> Seq<(Seq<char>, int, int)> {
    v.map_values(|e: (String, usize, usize)| (e.0@, e.1 as int, e.2 as int))
}

/// The texts by their characters.
pub open spec fn texts_view(v: Seq<String>) -> Seq<Seq<char>> {
    v.map_values(|s: String| s@)
}

/// The lowercased words of one text, with their offsets.
fn text_words_at(text: &str) -> (r: Vec<(String, usize)>)
    ensures
        r@.map_values(|e: (String, usize)| (e.0@, e.1 as int)) == text_entries(text@),
{
    let chars = str_chars(text);
    let spans = tokenise(chars.as_slice());
    let idx = word_indices(spans.as_slice());
    let ghost wp = word_positions(spans@, spans@.len() as int);
    proof {
        lemma_word_positions(spans@, spans@.len() as int);
    }
    let mut out: Vec<(String, usize)> = Vec::new();
    let mut j: usize = 0;
    while j < idx.len()
        invariant
            j <= idx@.len(),
            chars@ == text@,
            spans@ == spec_tokens(text@),
            tiles(text@, spans@),
            idx@.map_values(|i: usize| i as int) == wp,
            wp == word_positions(spans@, spans@.len() as int),
            forall|w: int| 0 <= w < wp.len() ==> 0 <= #[trigger] wp[w] < spans@.len(),
            out@.map_values(|e: (String, usize)| (e.0@, e.1 as int)) == wp.take(j as int).map_values(
                |k: int| (spec_to_lowercase(span_text(text@, spans@[k])), spans@[k].start as int),
            ),
        decreases idx@.len() - j,
    {
        let k = idx[j];
        assert(wp[j as int] == k as int);
        proof {
            lemma_span_bounds(text@, spans@, k as int);
        }
        let sp = spans[k];
        let piece = vstd::slice::slice_subrange(chars.as_slice(), sp.start, sp.end);
        let word = chars_to_string(piece);
        let lc = to_lowercase(word.as_str());
        let ghost before = out@.map_values(|e: (String, usize)| (e.0@, e.1 as int));
        out.push((lc, sp.start));
        assert(out@.map_values(|e: (String, usize)| (e.0@, e.1 as int)) =~= before.push(
            (spec_to_lowercase(span_text(text@, spans@[k as int])), spans@[k as int].start as int),
        ));
        assert(wp.take(j + 1) =~= wp.take(j as int).push(wp[j as int]));
        j = j + 1;
    }
    assert(wp.take(wp.len() as int) =~= wp);
    out
}

/// Every word of every text, lowercased, with where it stands.
pub fn corpus_words(texts: &Vec<String>) -> (r: Vec<(String, usize, usize)>)
    ensures
        entries_view(r@) == corpus(texts_view(texts@), texts@.len() as int),
{
    let ghost tv = texts_view(texts@);
    let mut out: Vec<(String, usize, usize)> = Vec::new();
    let mut t: usize = 0;
    while t < texts.len()
        invariant
            t <= texts@.len(),
            tv == texts_view(texts@),
            entries_view(out@) == corpus(tv, t as int),
        decreases texts@.len() - t,
    {
        let ws = text_words_at(texts[t].as_str());
        let ghost te = text_entries(tv[t as int]);
        assert(tv[t as int] == texts@[t as int]@);
        let ghost base = entries_view(out@);
        let mut j: usize = 0;
        while j < ws.len()
            invariant
                j <= ws@.len(),
                t < texts@.len(),
                ws@.map_values(|e: (String, usize)| (e.0@, e.1 as int)) == te,
                entries_view(out@) == base + te.take(j as int).map_values(
                    |e: (Seq<char>, int)| (e.0, t as int, e.1),
                ),
            decreases ws@.len() - j,
        {
            let w = ws[j].0.clone();
            let at = ws[j].1;
            assert(te[j as int] == (ws@[j as int].0@, ws@[j as int].1 as int));
            let ghost prev = entries_view(out@);
            out.push((w, t, at));
            assert(entries_view(out@) =~= prev.push((te[j as int].0, t as int, te[j as int].1)));
            assert(te.take(j + 1) =~= te.take(j as int).push(te[j as int]));
            assert(te.take(j + 1).map_values(|e: (Seq<char>, int)| (e.0, t as int, e.1)) =~= te.take(
                j as int,
            ).map_values(|e: (Seq<char>, int)| (e.0, t as int, e.1)).push((te[j as int].0, t as int, te[j as int].1)));
            j = j + 1;
        }
        assert(te.take(te.len() as int) =~= te);
        assert(entries_view(out@) == corpus(tv, t + 1));
        t = t + 1;
    }
    out
}

/// How often `w` occurs among the first `n` corpus entries.
pub open spec fn count_in(w: Seq<char>, es: Seq<(Seq<char>, int, int)>, n: int) -> nat
    decreases n,
{
    if n <= 0 {
        0
    } else {
        count_in(w, es, n - 1) + if es[n - 1].0 == w {
            1nat
        } else {
            0nat
        }
    }
}

/// `w` occurs among the first `n` corpus entries.
pub open spec fn seen_in(w: Seq<char>, es: Seq<(Seq<char>, int, int)>, n: int) -> bool {
    exists|i: int| 0 <= i < n && #[trigger] es[i].0 == w
}

/// The distinct words among the first `n` corpus entries, each with where
/// it was first seen, in order of first appearance.
pub open spec fn first_seen(es: Seq<(Seq<char>, int, int)>, n: int) -> Seq<(Seq<char>, int, int)>
    decreases n,
{
    if n <= 0 {
        Seq::empty()
    } else if seen_in(es[n - 1].0, es, n - 1) {
        first_seen(es, n - 1)
    } else {
        first_seen(es, n - 1).push(es[n - 1])
    }
}

proof fn lemma_count_bounds(w: Seq<char>, es: Seq<(Seq<char>, int, int)>, n: int)
    requires
        0 <= n <= es.len(),
    ensures
        count_in(w, es, n) <= n,
        !seen_in(w, es, n) ==> count_in(w, es, n) == 0,
        seen_in(w, es, n) ==> count_in(w, es, n) >= 1,
    decreases n,
{
    if n > 0 {
        lemma_count_bounds(w, es, n - 1);
        if seen_in(w, es, n) && es[n - 1].0 != w {
            let i = choose|i: int| 0 <= i < n && #[trigger] es[i].0 == w;
            assert(seen_in(w, es, n - 1));
        }
        if seen_in(w, es, n - 1) {
            let i = choose|i: int| 0 <= i < n - 1 && #[trigger] es[i].0 == w;
            assert(seen_in(w, es, n));
        }
    }
}

/// A distinct word by its text, with where it was first seen and how often
/// it occurs.
pub open spec fn tally_view(v: Seq<(String, usize, usize, usize)>) -> Seq<(Seq<char>, int, int, nat)> {
    v.map_values(|e: (String, usize, usize, usize)| (e.0@, e.1 as int, e.2 as int, e.3 as nat))
}

/// The distinct words of the corpus `es`, in order of first appearance,
/// each with where it was first seen and how often it occurs.
pub open spec fn spec_tally(es: Seq<(Seq<char>, int, int)>) -> Seq<(Seq<char>, int, int, nat)> {
    first_seen(es, es.len() as int).map_values(
        |d: (Seq<char>, int, int)| (d.0, d.1, d.2, count_in(d.0, es, es.len() as int)),
    )
}

/// Count the distinct words of a corpus.
pub fn tally(words: &Vec<(String, usize, usize)>) -> (r: Vec<(String, usize, usize, usize)>)
    ensures
        tally_view(r@) == spec_tally(entries_view(words@)),
{
    let ghost es = entries_view(words@);
    let mut dist: Vec<(String, usize, usize, usize)> = Vec::new();
    let mut i: usize = 0;
    while i < words.len()
        invariant
            i <= words@.len(),
            es == entries_view(words@),
            tally_view(dist@).map_values(|d: (Seq<char>, int, int, nat)| (d.0, d.1, d.2)) == first_seen(es, i as int),
            forall|k: int| 0 <= k < dist@.len() ==> (#[trigger] dist@[k]).3 == count_in(dist@[k].0@, es, i as int),
            forall|a: int, b: int| 0 <= a < b < dist@.len() ==> (#[trigger] dist@[a]).0@ != (#[trigger] dist@[b]).0@,
            forall|k: int| 0 <= k < dist@.len() ==> seen_in((#[trigger] dist@[k]).0@, es, i as int),
            forall|w: Seq<char>| #[trigger] seen_in(w, es, i as int) ==> exists|k: int| 0 <= k < dist@.len() && (#[trigger] dist@[k]).0@ == w,
        decreases words@.len() - i,
    {
        let ghost w = words@[i as int].0@;
        assert(es[i as int] == (w, words@[i as int].1 as int, words@[i as int].2 as int));
        let mut found: Option<usize> = None;
        let mut k: usize = 0;
        while k < dist.len()
            invariant
                k <= dist@.len(),
                i < words@.len(),
                w == words@[i as int].0@,
                found matches Some(f) ==> f < k && dist@[f as int].0@ == w,
                found is None ==> forall|m: int| 0 <= m < k ==> (#[trigger] dist@[m]).0@ != w,
            decreases dist@.len() - k,
        {
            if found.is_none() && crate::text::str_eq(dist[k].0.as_str(), words[i].0.as_str()) {
                found = Some(k);
            }
            k = k + 1;
        }
        proof {
            lemma_count_bounds(w, es, i as int);
            assert forall|v: Seq<char>| #[trigger] count_in(v, es, i + 1) == count_in(v, es, i as int) + (if v == w {
                1nat
            } else {
                0nat
            }) by {}
        }
        let ghost old_dist = dist@;
        match found {
            Some(f) => {
                let s = dist[f].0.clone();
                let ti = dist[f].1;
                let at = dist[f].2;
                let c = dist[f].3;
                proof {
                    lemma_count_bounds(w, es, i as int);
                }
                assert(c == count_in(w, es, i as int));
                dist.set(f, (s, ti, at, c + 1));
                assert(seen_in(w, es, i as int));
                assert(first_seen(es, i + 1) == first_seen(es, i as int));
                assert(tally_view(dist@).map_values(|d: (Seq<char>, int, int, nat)| (d.0, d.1, d.2)) =~= tally_view(
                    old_dist,
                ).map_values(|d: (Seq<char>, int, int, nat)| (d.0, d.1, d.2)));
                assert forall|v: Seq<char>| #[trigger] seen_in(v, es, i + 1) implies exists|m: int|
                    0 <= m < dist@.len() && (#[trigger] dist@[m]).0@ == v by {
                    let j = choose|j: int| 0 <= j < i + 1 && #[trigger] es[j].0 == v;
                    if j < i {
                        assert(seen_in(v, es, i as int));
                        let m = choose|m: int| 0 <= m < old_dist.len() && (#[trigger] old_dist[m]).0@ == v;
                        assert(dist@[m].0@ == v);
                    } else {
                        assert(dist@[f as int].0@ == v);
                    }
                }
                assert forall|m: int| 0 <= m < dist@.len() implies seen_in((#[trigger] dist@[m]).0@, es, i + 1) by {
                    assert(seen_in(old_dist[m].0@, es, i as int));
                    let j = choose|j: int| 0 <= j < i && #[trigger] es[j].0 == old_dist[m].0@;
                    assert(es[j].0 == dist@[m].0@);
                }
            },
            None => {
                assert(!seen_in(w, es, i as int)) by {
                    if seen_in(w, es, i as int) {
                        let m = choose|m: int| 0 <= m < old_dist.len() && (#[trigger] old_dist[m]).0@ == w;
                    }
                }
                let s = words[i].0.clone();
                dist.push((s, words[i].1, words[i].2, 1));
                assert(first_seen(es, i + 1) == first_seen(es, i as int).push(es[i as int]));
                assert(tally_view(dist@).map_values(|d: (Seq<char>, int, int, nat)| (d.0, d.1, d.2)) =~= tally_view(
                    old_dist,
                ).map_values(|d: (Seq<char>, int, int, nat)| (d.0, d.1, d.2)).push(es[i as int]));
                assert forall|v: Seq<char>| #[trigger] seen_in(v, es, i + 1) implies exists|m: int|
                    0 <= m < dist@.len() && (#[trigger] dist@[m]).0@ == v by {
                    let j = choose|j: int| 0 <= j < i + 1 && #[trigger] es[j].0 == v;
                    if j < i {
                        assert(seen_in(v, es, i as int));
                        let m = choose|m: int| 0 <= m < old_dist.len() && (#[trigger] old_dist[m]).0@ == v;
                        assert(dist@[m].0@ == v);
                    } else {
                        assert(dist@[old_dist.len() as int].0@ == v);
                    }
                }
                assert forall|m: int| 0 <= m < dist@.len() implies seen_in((#[trigger] dist@[m]).0@, es, i + 1) by {
                    if m < old_dist.len() {
                        assert(seen_in(old_dist[m].0@, es, i as int));
                        let j = choose|j: int| 0 <= j < i && #[trigger] es[j].0 == old_dist[m].0@;
                        assert(es[j].0 == dist@[m].0@);
                    } else {
                        assert(es[i as int].0 == dist@[m].0@);
                    }
                }
            },
        }
        i = i + 1;
    }
    let ghost fs = first_seen(es, es.len() as int);
    assert(tally_view(dist@) =~= spec_tally(es)) by {
        assert forall|k: int| 0 <= k < dist@.len() implies #[trigger] tally_view(dist@)[k] == spec_tally(es)[k] by {
            assert(tally_view(dist@).map_values(|d: (Seq<char>, int, int, nat)| (d.0, d.1, d.2))[k] == fs[k]);
        }
    }
    dist
}


/// Every word the corpus holds appears among its distinct words.
proof fn lemma_first_seen_covers(es: Seq<(Seq<char>, int, int)>, n: int, w: Seq<char>)
    requires
        0 <= n <= es.len(),
    ensures
        seen_in(w, es, n) <==> exists|k: int| 0 <= k < first_seen(es, n).len() && (#[trigger] first_seen(es, n)[k]).0 == w,
    decreases n,
{
    if n > 0 {
        lemma_first_seen_covers(es, n - 1, w);
        let p = first_seen(es, n - 1);
        let q = first_seen(es, n);
        if seen_in(w, es, n) {
            let i = choose|i: int| 0 <= i < n && #[trigger] es[i].0 == w;
            if i < n - 1 {
                assert(seen_in(w, es, n - 1));
                let k = choose|k: int| 0 <= k < p.len() && (#[trigger] p[k]).0 == w;
                assert(q[k] == p[k]);
            } else if seen_in(es[n - 1].0, es, n - 1) {
                let k = choose|k: int| 0 <= k < p.len() && (#[trigger] p[k]).0 == w;
                assert(q[k] == p[k]);
            } else {
                assert(q[p.len() as int].0 == w);
            }
        }
        if exists|k: int| 0 <= k < q.len() && (#[trigger] q[k]).0 == w {
            let k = choose|k: int| 0 <= k < q.len() && (#[trigger] q[k]).0 == w;
            if k < p.len() {
                assert(q[k] == p[k]);
                assert(seen_in(w, es, n - 1));
                let i = choose|i: int| 0 <= i < n - 1 && #[trigger] es[i].0 == w;
                assert(seen_in(w, es, n));
            } else {
                assert(es[n - 1].0 == w);
                assert(seen_in(w, es, n));
            }
        }
    }
}

/// How often `w` occurs in the corpus, read off its tally.
fn count_of(tal: &Vec<(String, usize, usize, usize)>, w: &str, Ghost(es): Ghost<Seq<(Seq<char>, int, int)>>) -> (r: usize)
    requires
        tally_view(tal@) == spec_tally(es),
    ensures
        r == count_in(w@, es, es.len() as int),
{
    let ghost fs = first_seen(es, es.len() as int);
    assert(tally_view(tal@).len() == tal@.len());
    assert(spec_tally(es).len() == fs.len());
    let mut k: usize = 0;
    while k < tal.len()
        invariant
            k <= tal@.len(),
            tally_view(tal@) == spec_tally(es),
            fs == first_seen(es, es.len() as int),
            fs.len() == tal@.len(),
            forall|m: int| 0 <= m < k ==> (#[trigger] fs[m]).0 != w@,
        decreases tal@.len() - k,
    {
        assert(tally_view(tal@)[k as int] == spec_tally(es)[k as int]);
        assert(spec_tally(es)[k as int] == (fs[k as int].0, fs[k as int].1, fs[k as int].2, count_in(
            fs[k as int].0,
            es,
            es.len() as int,
        )));
        if crate::text::str_eq(tal[k].0.as_str(), w) {
            return tal[k].3;
        }
        k = k + 1;
    }
    proof {
        lemma_first_seen_covers(es, es.len() as int, w@);
        lemma_count_bounds(w@, es, es.len() as int);
    }
    0
}

/// Shortest spelling worth reporting, in bytes.
pub const SUGGEST_MIN_LEN: usize = 5;

/// Longest tail, in bytes, a recogniser is likely to have added to the end
/// of a name.
pub const SUGGEST_MAX_EXTRA: usize = 3;

/// Tails that make an ordinary inflection of a term rather than a
/// mis-hearing of it.
pub open spec fn inflections() -> Seq<Seq<char>> {
    seq![seq!['s'], seq!['e', 's'], seq!['d'], seq!['e', 'd'], seq!['i', 'n', 'g'], seq!['\'', 's']]
}

/// `c` begins with `key`.
pub open spec fn has_prefix(c: Seq<char>, key: Seq<char>) -> bool {
    key.len() <= c.len() && c.take(key.len() as int) == key
}

/// `c` is `key` with an inflection added.
pub open spec fn spec_is_inflection(c: Seq<char>, key: Seq<char>) -> bool {
    has_prefix(c, key) && inflections().contains(c.skip(key.len() as int))
}

/// `c` is `key` with a short tail added.
pub open spec fn spec_is_extended(c: Seq<char>, key: Seq<char>) -> bool {
    has_prefix(c, key) && c.len() > key.len() && utf8_len(c.skip(key.len() as int)) <= SUGGEST_MAX_EXTRA
}

/// A term, lowercased.
pub open spec fn lower_term(t: CanonicalTerm) -> Seq<char> {
    spec_to_lowercase(t.term@)
}

/// A term as a transcript would spell it: lowercased, letters and digits
/// only.
pub open spec fn letters_key(t: CanonicalTerm) -> Seq<char> {
    lower_term(t).filter(|c: char| crate::canonical::spec_is_alphanumeric(c))
}

/// How often the term's own spelling occurs: as its letters, or failing
/// that as it is written.
pub open spec fn term_occurrences(t: CanonicalTerm, es: Seq<(Seq<char>, int, int)>) -> nat {
    let n = es.len() as int;
    if count_in(letters_key(t), es, n) > 0 {
        count_in(letters_key(t), es, n)
    } else {
        count_in(lower_term(t), es, n)
    }
}

/// A term is judged only when its letters are long enough and it has been
/// spelled right at least once.
pub open spec fn eligible(t: CanonicalTerm, es: Seq<(Seq<char>, int, int)>) -> bool {
    utf8_len(letters_key(t)) >= SUGGEST_MIN_LEN && term_occurrences(t, es) > 0
}

/// `c` is already a term or an alias, ignoring case.
pub open spec fn registered(terms: Seq<CanonicalTerm>, c: Seq<char>) -> bool {
    exists|i: int| 0 <= i < terms.len() && #[trigger] names(terms[i], c)
}

/// `c` is the term `t` or one of its aliases, ignoring case.
pub open spec fn names(t: CanonicalTerm, c: Seq<char>) -> bool {
    spec_to_lowercase(t.term@) == c || exists|j: int|
        0 <= j < t.aliases@.len() && spec_to_lowercase(#[trigger] t.aliases@[j]@) == c
}

/// A distinct word is a candidate alias for `t`.
pub open spec fn keeps(
    terms: Seq<CanonicalTerm>,
    es: Seq<(Seq<char>, int, int)>,
    min: nat,
    t: CanonicalTerm,
    d: (Seq<char>, int, int, nat),
) -> bool {
    &&& d.3 >= min
    &&& d.3 <= term_occurrences(t, es)
    &&& utf8_len(d.0) >= SUGGEST_MIN_LEN
    &&& d.0 != letters_key(t)
    &&& !registered(terms, d.0)
    &&& !spec_is_inflection(d.0, letters_key(t))
}

/// [`keeps`] as a predicate on distinct words.
pub open spec fn keep_fn(terms: Seq<CanonicalTerm>, es: Seq<(Seq<char>, int, int)>, min: nat, t: CanonicalTerm) -> spec_fn(
    (Seq<char>, int, int, nat),
) -> bool {
    |d: (Seq<char>, int, int, nat)| keeps(terms, es, min, t, d)
}

/// A candidate by its values: the term's index, the spelling, its
/// occurrences, the term's, whether it is the term with a short tail, and
/// where it was first seen (text index and character offset).
pub type CandidateView = (int, Seq<char>, nat, nat, bool, int, int);

/// The candidate a distinct word makes for the term at `ti`.
pub open spec fn cand_fn(ti: int, t: CanonicalTerm, es: Seq<(Seq<char>, int, int)>) -> spec_fn(
    (Seq<char>, int, int, nat),
) -> CandidateView {
    |d: (Seq<char>, int, int, nat)| (ti, d.0, d.3, term_occurrences(t, es), spec_is_extended(d.0, letters_key(t)), d.1, d.2)
}

/// The candidates for the term at `ti`, in order of first appearance.
pub open spec fn term_candidates(terms: Seq<CanonicalTerm>, es: Seq<(Seq<char>, int, int)>, min: nat, ti: int) -> Seq<
    CandidateView,
> {
    if eligible(terms[ti], es) {
        spec_tally(es).filter(keep_fn(terms, es, min, terms[ti])).map_values(cand_fn(ti, terms[ti], es))
    } else {
        Seq::empty()
    }
}

/// The candidates for the first `n` terms, term by term.
pub open spec fn all_candidates(terms: Seq<CanonicalTerm>, es: Seq<(Seq<char>, int, int)>, min: nat, n: int) -> Seq<
    CandidateView,
>
    decreases n,
{
    if n <= 0 {
        Seq::empty()
    } else {
        all_candidates(terms, es, min, n - 1) + term_candidates(terms, es, min, n - 1)
    }
}

/// A spelling that may be an alias of a registered term, with its evidence.
#[derive(Debug, Clone)]
pub struct AliasCandidate {
    /// Index of the term in the list judged.
    pub term_index: usize,
    /// The spelling, lowercased, as it appears in the transcripts.
    pub spelling: String,
    /// How often it occurs.
    pub occurrences: usize,
    /// How often the term's own spelling occurs.
    pub term_occurrences: usize,
    /// Whether it is the term's letters with a short tail added, which is
    /// reported whatever its similarity.
    pub extended: bool,
    /// The transcript where it was first seen.
    pub text_index: usize,
    /// The character offset there.
    pub at: usize,
}

/// A candidate by its values.
pub open spec fn candidate_view(c: AliasCandidate) -> CandidateView {
    (c.term_index as int, c.spelling@, c.occurrences as nat, c.term_occurrences as nat, c.extended, c.text_index as int, c.at as int)
}

/// Whether the UTF-8 encoding of `s` takes at least `n` bytes.
fn utf8_len_at_least(s: &[char], n: usize) -> (r: bool)
    requires
        n <= 8,
    ensures
        r == (utf8_len(s@) >= n),
{
    proof {
        lemma_utf8_len_at_least_len(s@);
    }
    if s.len() >= n {
        return true;
    }
    let mut total: usize = 0;
    let mut i: usize = 0;
    while i < s.len()
        invariant
            i <= s@.len(),
            s@.len() < n,
            n <= 8,
            total == utf8_len(s@.take(i as int)),
            total <= 4 * i,
        decreases s@.len() - i,
    {
        assert(s@.take(i + 1).drop_last() =~= s@.take(i as int));
        let u = s[i] as u32;
        let w: usize = if u < 0x80 {
            1
        } else if u < 0x800 {
            2
        } else if u < 0x10000 {
            3
        } else {
            4
        };
        total = total + w;
        i = i + 1;
    }
    assert(s@.take(s@.len() as int) =~= s@);
    total >= n
}

/// The letters and digits of a term, lowercased.
fn letters_key_exec(t: &CanonicalTerm) -> (r: Vec<char>)
    ensures
        r@ == letters_key(*t),
{
    let lc = to_lowercase(t.term.as_str());
    let v = str_chars(lc.as_str());
    let ghost p = |c: char| crate::canonical::spec_is_alphanumeric(c);
    let mut out: Vec<char> = Vec::new();
    let mut i: usize = 0;
    assert(v@.take(0).filter(p) =~= Seq::<char>::empty());
    while i < v.len()
        invariant
            i <= v@.len(),
            v@ == lower_term(*t),
            p == (|c: char| crate::canonical::spec_is_alphanumeric(c)),
            out@ == v@.take(i as int).filter(p),
        decreases v@.len() - i,
    {
        proof {
            reveal_with_fuel(Seq::filter, 1);
            assert(v@.take(i + 1).drop_last() =~= v@.take(i as int));
        }
        if crate::canonical::is_alphanumeric(v[i]) {
            out.push(v[i]);
        }
        i = i + 1;
    }
    assert(v@.take(v@.len() as int) =~= v@);
    out
}

/// Whether `c` is already a term or an alias, ignoring case.
fn registered_exec(terms: &[CanonicalTerm], c: &str) -> (r: bool)
    ensures
        r == registered(terms@, c@),
{
    let mut i: usize = 0;
    while i < terms.len()
        invariant
            i <= terms@.len(),
            forall|m: int| 0 <= m < i ==> !#[trigger] names(terms@[m], c@),
        decreases terms@.len() - i,
    {
        let tl = to_lowercase(terms[i].term.as_str());
        if crate::text::str_eq(tl.as_str(), c) {
            assert(names(terms@[i as int], c@));
            return true;
        }
        let mut j: usize = 0;
        while j < terms[i].aliases.len()
            invariant
                j <= terms@[i as int].aliases@.len(),
                i < terms@.len(),
                forall|k: int| 0 <= k < j ==> spec_to_lowercase(#[trigger] terms@[i as int].aliases@[k]@) != c@,
            decreases terms@[i as int].aliases@.len() - j,
        {
            let al = to_lowercase(terms[i].aliases[j].as_str());
            if crate::text::str_eq(al.as_str(), c) {
                assert(spec_to_lowercase(terms@[i as int].aliases@[j as int]@) == c@);
                assert(names(terms@[i as int], c@));
                return true;
            }
            j = j + 1;
        }
        assert(!names(terms@[i as int], c@));
        i = i + 1;
    }
    false
}

/// Whether `c` begins with `key`, and the rest of `c` after it.
fn split_prefix(c: &[char], key: &[char]) -> (r: Option<Vec<char>>)
    ensures
        has_prefix(c@, key@) ==> (r matches Some(t) && t@ == c@.skip(key@.len() as int)),
        !has_prefix(c@, key@) ==> r is None,
{
    if key.len() > c.len() {
        return None;
    }
    if !crate::text::chars_start_with(c, key) {
        return None;
    }
    Some(crate::text::sub_chars(c, key.len(), c.len()))
}


/// Whether a tail is one of the inflections.
fn is_inflection_tail(t: &[char]) -> (r: bool)
    ensures
        r == inflections().contains(t@),
{
    let n = t.len();
    let r = (n == 1 && t[0] == 's') || (n == 2 && t[0] == 'e' && t[1] == 's') || (n == 1 && t[0] == 'd') || (n == 2
        && t[0] == 'e' && t[1] == 'd') || (n == 3 && t[0] == 'i' && t[1] == 'n' && t[2] == 'g') || (n == 2 && t[0]
        == '\'' && t[1] == 's');
    proof {
        let inf = inflections();
        assert(inf[0] == seq!['s']);
        assert(inf[1] == seq!['e', 's']);
        assert(inf[2] == seq!['d']);
        assert(inf[3] == seq!['e', 'd']);
        assert(inf[4] == seq!['i', 'n', 'g']);
        assert(inf[5] == seq!['\'', 's']);
        if r {
            if n == 1 && t[0] == 's' {
                assert(t@ =~= inf[0]);
            } else if n == 2 && t[0] == 'e' && t[1] == 's' {
                assert(t@ =~= inf[1]);
            } else if n == 1 && t[0] == 'd' {
                assert(t@ =~= inf[2]);
            } else if n == 2 && t[0] == 'e' && t[1] == 'd' {
                assert(t@ =~= inf[3]);
            } else if n == 3 {
                assert(t@ =~= inf[4]);
            } else {
                assert(t@ =~= inf[5]);
            }
        }
        if inf.contains(t@) {
            let i = choose|i: int| 0 <= i < inf.len() && inf[i] == t@;
            assert(0 <= i < 6);
            if i == 0 {
                assert(t@[0] == 's');
            } else if i == 1 {
                assert(t@[0] == 'e' && t@[1] == 's');
            } else if i == 2 {
                assert(t@[0] == 'd');
            } else if i == 3 {
                assert(t@[0] == 'e' && t@[1] == 'd');
            } else if i == 4 {
                assert(t@[0] == 'i' && t@[1] == 'n' && t@[2] == 'g');
            } else {
                assert(t@[0] == '\'' && t@[1] == 's');
            }
        }
    }
    r
}

/// The candidate aliases for one term, appended to `out` in order of first
/// appearance.
fn push_term_candidates(
    out: &mut Vec<AliasCandidate>,
    tal: &Vec<(String, usize, usize, usize)>,
    terms: &[CanonicalTerm],
    ti: usize,
    key: &[char],
    term_occ: usize,
    min_occurrences: usize,
    Ghost(es): Ghost<Seq<(Seq<char>, int, int)>>,
)
    requires
        ti < terms@.len(),
        tally_view(tal@) == spec_tally(es),
        key@ == letters_key(terms@[ti as int]),
        term_occ == term_occurrences(terms@[ti as int], es),
    ensures
        final(out)@.map_values(|c: AliasCandidate| candidate_view(c)) == old(out)@.map_values(
            |c: AliasCandidate| candidate_view(c),
        ) + spec_tally(es).filter(keep_fn(terms@, es, min_occurrences as nat, terms@[ti as int])).map_values(
            cand_fn(ti as int, terms@[ti as int], es),
        ),
{
    let ghost ts = spec_tally(es);
    let ghost kf = keep_fn(terms@, es, min_occurrences as nat, terms@[ti as int]);
    let ghost cf = cand_fn(ti as int, terms@[ti as int], es);
    let ghost before = out@.map_values(|c: AliasCandidate| candidate_view(c));
    assert(ts.take(0).filter(kf) =~= Seq::<(Seq<char>, int, int, nat)>::empty());
    assert(tally_view(tal@).len() == tal@.len());
    let mut k: usize = 0;
    while k < tal.len()
        invariant
            k <= tal@.len(),
            ti < terms@.len(),
            ts == spec_tally(es),
            tally_view(tal@) == ts,
            ts.len() == tal@.len(),
            key@ == letters_key(terms@[ti as int]),
            term_occ == term_occurrences(terms@[ti as int], es),
            kf == keep_fn(terms@, es, min_occurrences as nat, terms@[ti as int]),
            cf == cand_fn(ti as int, terms@[ti as int], es),
            out@.map_values(|c: AliasCandidate| candidate_view(c)) == before + ts.take(k as int).filter(kf).map_values(cf),
        decreases tal@.len() - k,
    {
        let ghost d = ts[k as int];
        assert(tally_view(tal@)[k as int] == (tal@[k as int].0@, tal@[k as int].1 as int, tal@[k as int].2 as int, tal@[k as int].3 as nat));
        let cv = str_chars(tal[k].0.as_str());
        let occ = tal[k].3;
        let tail = split_prefix(cv.as_slice(), key);
        let inflected = match &tail {
            Some(t) => is_inflection_tail(t.as_slice()),
            None => false,
        };
        let extended = match &tail {
            Some(t) => t.len() > 0 && !utf8_len_at_least(t.as_slice(), 4),
            None => false,
        };
        let keep = occ >= min_occurrences && occ <= term_occ && utf8_len_at_least(cv.as_slice(), SUGGEST_MIN_LEN)
            && !crate::text::chars_eq(cv.as_slice(), key) && !registered_exec(terms, tal[k].0.as_str()) && !inflected;
        assert(keep == kf(d));
        assert(extended == spec_is_extended(d.0, key@));
        proof {
            reveal_with_fuel(Seq::filter, 1);
            assert(ts.take(k + 1).drop_last() =~= ts.take(k as int));
            assert(ts.take(k + 1).last() == d);
        }
        let ghost prev = out@.map_values(|c: AliasCandidate| candidate_view(c));
        if keep {
            let c = AliasCandidate {
                term_index: ti,
                spelling: tal[k].0.clone(),
                occurrences: occ,
                term_occurrences: term_occ,
                extended,
                text_index: tal[k].1,
                at: tal[k].2,
            };
            assert(candidate_view(c) == cf(d));
            out.push(c);
            assert(out@.map_values(|c: AliasCandidate| candidate_view(c)) =~= prev.push(cf(d)));
            assert(ts.take(k + 1).filter(kf) == ts.take(k as int).filter(kf).push(d));
            assert(ts.take(k + 1).filter(kf).map_values(cf) =~= ts.take(k as int).filter(kf).map_values(cf).push(cf(d)));
        } else {
            assert(ts.take(k + 1).filter(kf) == ts.take(k as int).filter(kf));
        }
        k = k + 1;
    }
    assert(ts.take(ts.len() as int) =~= ts);
}

/// The candidate aliases for every term, term by term, each term's in order
/// of first appearance in the transcripts. A term is judged only when its
/// letters take at least five bytes and its own spelling occurs; a spelling
/// is a candidate when it occurs at least `min_occurrences` times and no
/// more often than the term, takes at least five bytes, is not the term's
/// letters, is not registered, and is not the term with an inflection
/// added.
pub fn alias_candidates(texts: &Vec<String>, terms: &[CanonicalTerm], min_occurrences: usize) -> (r: Vec<
    AliasCandidate,
>)
    ensures
        r@.map_values(|c: AliasCandidate| candidate_view(c)) == all_candidates(
            terms@,
            corpus(texts_view(texts@), texts@.len() as int),
            min_occurrences as nat,
            terms@.len() as int,
        ),
        forall|i: int| 0 <= i < r@.len() ==> {
            let c = #[trigger] r@[i];
            &&& c.term_index < terms@.len()
            &&& min_occurrences <= c.occurrences <= c.term_occurrences
            &&& utf8_len(c.spelling@) >= SUGGEST_MIN_LEN
            &&& c.spelling@ != letters_key(terms@[c.term_index as int])
            &&& !registered(terms@, c.spelling@)
            &&& !spec_is_inflection(c.spelling@, letters_key(terms@[c.term_index as int]))
        },
{
    let words = corpus_words(texts);
    let tal = tally(&words);
    let ghost es = entries_view(words@);
    let mut out: Vec<AliasCandidate> = Vec::new();
    let mut ti: usize = 0;
    assert(out@.map_values(|c: AliasCandidate| candidate_view(c)) =~= Seq::<CandidateView>::empty());
    while ti < terms.len()
        invariant
            ti <= terms@.len(),
            es == corpus(texts_view(texts@), texts@.len() as int),
            tally_view(tal@) == spec_tally(es),
            out@.map_values(|c: AliasCandidate| candidate_view(c)) == all_candidates(
                terms@,
                es,
                min_occurrences as nat,
                ti as int,
            ),
        decreases terms@.len() - ti,
    {
        let key = letters_key_exec(&terms[ti]);
        let ghost prev = out@.map_values(|c: AliasCandidate| candidate_view(c));
        if utf8_len_at_least(key.as_slice(), SUGGEST_MIN_LEN) {
            let key_s = chars_to_string(key.as_slice());
            let lc = to_lowercase(terms[ti].term.as_str());
            let kc = count_of(&tal, key_s.as_str(), Ghost(es));
            let term_occ = if kc > 0 {
                kc
            } else {
                count_of(&tal, lc.as_str(), Ghost(es))
            };
            if term_occ > 0 {
                push_term_candidates(&mut out, &tal, terms, ti, key.as_slice(), term_occ, min_occurrences, Ghost(es));
            }
        }
        assert(out@.map_values(|c: AliasCandidate| candidate_view(c)) =~= prev + term_candidates(
            terms@,
            es,
            min_occurrences as nat,
            ti as int,
        ));
        ti = ti + 1;
    }
    proof {
        let es = corpus(texts_view(texts@), texts@.len() as int);
        let all = all_candidates(terms@, es, min_occurrences as nat, terms@.len() as int);
        lemma_candidates_are_filtered(terms@, es, min_occurrences as nat, terms@.len() as int);
        assert forall|i: int| 0 <= i < out@.len() implies {
            let c = #[trigger] out@[i];
            &&& c.term_index < terms@.len()
            &&& min_occurrences <= c.occurrences <= c.term_occurrences
            &&& utf8_len(c.spelling@) >= SUGGEST_MIN_LEN
            &&& c.spelling@ != letters_key(terms@[c.term_index as int])
            &&& !registered(terms@, c.spelling@)
            &&& !spec_is_inflection(c.spelling@, letters_key(terms@[c.term_index as int]))
        } by {
            assert(candidate_view(out@[i]) == all[i]);
        }
    }
    out
}


/// Characters of transcript shown on either side of a candidate.
pub const CONTEXT_RADIUS: usize = 55;

/// A readable fragment of `text` around character offset `at`: from 56
/// characters before it (or the start) to 110 after it (or the end), with
/// line breaks turned into spaces and the ends trimmed.
pub open spec fn spec_context_fragment(text: Seq<char>, at: int) -> Seq<char> {
    let a = if at <= text.len() { at } else { text.len() as int };
    let start = if a >= CONTEXT_RADIUS + 1 { a - (CONTEXT_RADIUS + 1) } else { 0 };
    let end = if text.len() - a > 2 * CONTEXT_RADIUS { a + 2 * CONTEXT_RADIUS } else { text.len() as int };
    crate::text::trim(text.subrange(start, end).map_values(|c: char| if c == '\n' { ' ' } else { c }))
}

/// The fragment of a transcript shown beside a candidate first seen at
/// character offset `at`.
pub fn context_fragment(text: &str, at: usize) -> (r: String)
    ensures
        r@ == spec_context_fragment(text@, at as int),
{
    let v = str_chars(text);
    let n = v.len();
    let a = if at <= n { at } else { n };
    let start = if a >= CONTEXT_RADIUS + 1 { a - (CONTEXT_RADIUS + 1) } else { 0 };
    let end = if n - a > 2 * CONTEXT_RADIUS { a + 2 * CONTEXT_RADIUS } else { n };
    let ghost piece = text@.subrange(start as int, end as int);
    let mut out: Vec<char> = Vec::new();
    let mut i: usize = start;
    while i < end
        invariant
            start <= i <= end <= v@.len(),
            v@ == text@,
            piece == text@.subrange(start as int, end as int),
            out@ == piece.take(i - start).map_values(|c: char| if c == '\n' { ' ' } else { c }),
        decreases end - i,
    {
        let c = if v[i] == '\n' { ' ' } else { v[i] };
        out.push(c);
        assert(piece.take(i + 1 - start) =~= piece.take(i - start).push(v@[i as int]));
        assert(out@ =~= piece.take(i + 1 - start).map_values(|c: char| if c == '\n' { ' ' } else { c }));
        i = i + 1;
    }
    assert(piece.take(end - start) =~= piece);
    let t = crate::text::trim_chars(out.as_slice());
    chars_to_string(t.as_slice())
}


/// A term's letters and digits, lowercased: what a candidate's similarity
/// is measured against.
pub fn term_letters(t: &CanonicalTerm) -> (r: String)
    ensures
        r@ == letters_key(*t),
{
    let v = letters_key_exec(t);
    chars_to_string(v.as_slice())
}


/// What every candidate satisfies: it belongs to one of the terms judged,
/// occurs at least `min` times and no more often than that term's own
/// spelling, takes at least five bytes, is neither the term's letters nor
/// any registered spelling, and is not the term with an inflection added.
pub proof fn lemma_candidates_are_filtered(
    terms: Seq<CanonicalTerm>,
    es: Seq<(Seq<char>, int, int)>,
    min: nat,
    n: int,
)
    requires
        0 <= n <= terms.len(),
    ensures
        forall|i: int| 0 <= i < all_candidates(terms, es, min, n).len() ==> {
            let c = #[trigger] all_candidates(terms, es, min, n)[i];
            &&& 0 <= c.0 < n
            &&& min <= c.2 <= c.3
            &&& c.3 == term_occurrences(terms[c.0], es)
            &&& utf8_len(c.1) >= SUGGEST_MIN_LEN
            &&& c.1 != letters_key(terms[c.0])
            &&& !registered(terms, c.1)
            &&& !spec_is_inflection(c.1, letters_key(terms[c.0]))
        },
    decreases n,
{
    if n > 0 {
        lemma_candidates_are_filtered(terms, es, min, n - 1);
        let prev = all_candidates(terms, es, min, n - 1);
        let here = term_candidates(terms, es, min, n - 1);
        let all = all_candidates(terms, es, min, n);
        assert(all == prev + here);
        let kf = keep_fn(terms, es, min, terms[n - 1]);
        let kept = spec_tally(es).filter(kf);
        assert forall|i: int| 0 <= i < all.len() implies {
            let c = #[trigger] all[i];
            &&& 0 <= c.0 < n
            &&& min <= c.2 <= c.3
            &&& c.3 == term_occurrences(terms[c.0], es)
            &&& utf8_len(c.1) >= SUGGEST_MIN_LEN
            &&& c.1 != letters_key(terms[c.0])
            &&& !registered(terms, c.1)
            &&& !spec_is_inflection(c.1, letters_key(terms[c.0]))
        } by {
            if i < prev.len() {
                assert(all[i] == prev[i]);
            } else {
                let j = i - prev.len();
                assert(all[i] == here[j]);
                assert(eligible(terms[n - 1], es));
                assert(here[j] == cand_fn(n - 1, terms[n - 1], es)(kept[j]));
                assert(here.len() == kept.len());
                spec_tally(es).lemma_filter_pred(kf, j);
                assert(keeps(terms, es, min, terms[n - 1], kept[j]));
            }
        }
    }
}

} // verus!
