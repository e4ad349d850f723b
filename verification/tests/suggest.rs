use thoth::canonical::{phonetic_match, CanonicalTerm, SnapPolicy};
use thoth::suggest::{alias_candidates, context_fragment, corpus_words, tally, term_letters};

#[derive(Debug)]
struct Suggestion {
    term: String,
    spelling: String,
    occurrences: usize,
    term_occurrences: usize,
    similarity: f64,
    context: String,
}

// The similarity gate and ranking, as the application applies them to the
// candidates the library finds.
fn suggest_aliases(texts: &[String], terms: &[CanonicalTerm], min: usize) -> Vec<Suggestion> {
    let owned = texts.to_vec();
    let mut out = Vec::new();
    for c in alias_candidates(&owned, terms, min) {
        let key = term_letters(&terms[c.term_index]);
        let similarity = strsim::normalized_damerau_levenshtein(&c.spelling, &key);
        let clears = c.extended
            || if phonetic_match(&c.spelling, &key) { similarity >= 0.70 } else { similarity >= 0.78 };
        if clears {
            out.push(Suggestion {
                term: terms[c.term_index].term.clone(),
                spelling: c.spelling.clone(),
                occurrences: c.occurrences,
                term_occurrences: c.term_occurrences,
                similarity,
                context: context_fragment(&texts[c.text_index], c.at),
            });
        }
    }
    out.sort_by(|a, b| {
        b.occurrences
            .cmp(&a.occurrences)
            .then(b.similarity.partial_cmp(&a.similarity).unwrap_or(std::cmp::Ordering::Equal))
    });
    out
}

fn suggest_terms() -> Vec<CanonicalTerm> {
    vec![
        CanonicalTerm {
            term: "gerald".to_string(),
            aliases: vec!["jerald".to_string()],
            policy: SnapPolicy::AliasOnly,
            max_words: 3,
            threshold_bits: None,
        },
        CanonicalTerm {
            term: "symlink".to_string(),
            aliases: vec![],
            policy: SnapPolicy::AliasOnly,
            max_words: 3,
            threshold_bits: None,
        },
    ]
}

fn spellings(found: &[Suggestion]) -> Vec<&str> {
    found.iter().map(|s| s.spelling.as_str()).collect()
}

#[test]
fn test_a_name_with_a_hallucinated_tail_is_suggested() {
    let texts = vec![
        "gerald did the work and gerald checked it".to_string(),
        "geraldine did the work".to_string(),
        "ask geraldine again, gerald agreed".to_string(),
    ];
    let found = suggest_aliases(&texts, &suggest_terms(), 2);
    assert_eq!(spellings(&found), vec!["geraldine"]);
    let s = &found[0];
    assert_eq!(s.term, "gerald");
    assert_eq!(s.occurrences, 2);
    assert_eq!(s.term_occurrences, 3);
    assert!(s.context.contains("geraldine"));
}

#[test]
fn test_an_inflection_of_the_term_is_not_suggested() {
    let texts = vec![
        "a symlink here and a symlink there".to_string(),
        "the symlinks are fine".to_string(),
        "he symlinks them, having symlinked one already".to_string(),
    ];
    assert!(suggest_aliases(&texts, &suggest_terms(), 2).is_empty());
}

#[test]
fn test_a_registered_spelling_is_never_suggested() {
    let texts = vec![
        "jerald jerald jerald gerald gerald gerald gerald".to_string(),
        "jerald again".to_string(),
    ];
    assert!(suggest_aliases(&texts, &suggest_terms(), 2).is_empty());
}

#[test]
fn test_a_spelling_more_common_than_the_term_is_not_suggested() {
    let texts = vec!["geraldus geraldus geraldus geraldus".to_string(), "gerald once".to_string()];
    assert!(suggest_aliases(&texts, &suggest_terms(), 2).is_empty());
}

#[test]
fn test_suggestions_are_ranked_by_evidence() {
    let mut texts = vec!["gerald ".repeat(20)];
    texts.extend(std::iter::repeat_n("geraldine speaks".to_string(), 5));
    texts.extend(std::iter::repeat_n("geraldi speaks".to_string(), 2));
    let found = suggest_aliases(&texts, &suggest_terms(), 2);
    assert_eq!(spellings(&found), vec!["geraldine", "geraldi"]);
}

#[test]
fn words_are_counted_case_blind_with_their_first_place() {
    let texts = vec!["Gerald met gerald.".to_string(), "GERALD, again".to_string()];
    let words = corpus_words(&texts);
    assert_eq!(words.len(), 5);
    assert_eq!(words[0], ("gerald".to_string(), 0, 0));
    assert_eq!(words[2], ("gerald".to_string(), 0, 11));
    assert_eq!(words[3], ("gerald".to_string(), 1, 0));
    let t = tally(&words);
    assert_eq!(t[0], ("gerald".to_string(), 0, 0, 3));
    assert_eq!(t[1], ("met".to_string(), 0, 7, 1));
    assert_eq!(t[2], ("again".to_string(), 1, 8, 1));
}

#[test]
fn candidates_carry_their_evidence() {
    let texts = vec!["gerald gerald geraldine".to_string(), "geraldine".to_string()];
    let c = alias_candidates(&texts, &suggest_terms(), 2);
    assert_eq!(c.len(), 1);
    assert_eq!(c[0].spelling, "geraldine");
    assert_eq!((c[0].occurrences, c[0].term_occurrences), (2, 2));
    assert!(c[0].extended);
    assert_eq!((c[0].text_index, c[0].at), (0, 14));
    assert_eq!(term_letters(&CanonicalTerm {
        term: "Pi-Hole".to_string(),
        aliases: vec![],
        policy: SnapPolicy::AliasOnly,
        max_words: 1,
        threshold_bits: None,
    }), "pihole");
}

#[test]
fn the_context_is_a_window_around_the_word() {
    let text = format!("{}target{}", "a".repeat(100), "\nb".repeat(100));
    let frag = context_fragment(&text, 100);
    assert_eq!(frag.chars().count(), 56 + 110);
    assert!(frag.starts_with(&"a".repeat(56)));
    assert!(!frag.contains('\n'));
    assert_eq!(context_fragment("  short  ", 2), "short");
    assert_eq!(context_fragment("abc", 99), "abc");
}
