use thoth::canonical::{
    add_canonical_term, apply_canonical, count_words, default_max_words, fold_to_ascii, fuzzy_references, output_form,
    phonetic_match, remove_canonical_term, restore_case, seed_terms, snap_with_terms,
    update_canonical_term, window_candidates, CanonicalRegistry, CanonicalTerm, SnapPolicy,
};
use thoth::dictionary::DictionaryEntry;

// The fuzzy gate, as the application computes it: a phonetic match together
// with a normalised Damerau-Levenshtein similarity at or above the policy's
// threshold, against the term or an alias with the candidate's word count;
// multi-word candidates need at least 0.60.
fn fuzzy_matches_any(cand_lc: &str, ct: &CanonicalTerm, threshold: f64) -> bool {
    let n = count_words(cand_lc);
    fuzzy_references(cand_lc, ct).iter().any(|r| {
        let phon = phonetic_match(cand_lc, r);
        let ndl = strsim::normalized_damerau_levenshtein(cand_lc, r);
        if n > 1 { phon && ndl >= threshold.max(0.60) } else { phon && ndl >= threshold }
    })
}

fn matches_fuzzy(candidate: &str, ct: &CanonicalTerm) -> bool {
    let threshold = ct.threshold_bits.map(f64::from_bits);
    let cand_lc = candidate.to_lowercase();
    match ct.policy {
        SnapPolicy::AliasOnly => false,
        SnapPolicy::Phonetic => fuzzy_matches_any(&cand_lc, ct, threshold.unwrap_or(0.55)),
        SnapPolicy::Conservative => fuzzy_matches_any(&cand_lc, ct, threshold.unwrap_or(0.85)),
    }
}

fn verdicts(terms: &[CanonicalTerm], text: &str) -> Vec<Vec<Vec<bool>>> {
    window_candidates(terms, text)
        .iter()
        .map(|sizes| sizes.iter().map(|c| terms.iter().map(|t| matches_fuzzy(c, t)).collect()).collect())
        .collect()
}

fn run_with_registry(terms: Vec<CanonicalTerm>, text: &str) -> String {
    let fuzzy = verdicts(&terms, text);
    snap_with_terms(&terms, text, &fuzzy)
}

fn term(t: &str, aliases: &[&str], policy: SnapPolicy, max_words: u8, threshold: Option<f64>) -> CanonicalTerm {
    CanonicalTerm {
        term: t.to_string(),
        aliases: aliases.iter().map(|a| a.to_string()).collect(),
        policy,
        max_words,
        threshold_bits: threshold.map(f64::to_bits),
    }
}

fn portcullis_term(policy: SnapPolicy) -> CanonicalTerm {
    term("portcullis", &["port cullis", "portculis", "portcolours"], policy, 3, None)
}

fn litellm_term(policy: SnapPolicy) -> CanonicalTerm {
    term("LiteLLM", &["lite llm"], policy, 2, None)
}

fn vaultwarden_term() -> CanonicalTerm {
    term("Vaultwarden", &[], SnapPolicy::Phonetic, 1, None)
}

#[test]
fn test_phonetic_portcullis_alias() {
    let terms = vec![portcullis_term(SnapPolicy::AliasOnly)];
    assert_eq!(run_with_registry(terms.clone(), "lower the port cullis"), "lower the portcullis");
    assert_eq!(run_with_registry(terms.clone(), "lower the portculis"), "lower the portcullis");
}

#[test]
fn test_phonetic_portcullis_phonetic_policy() {
    let terms = vec![portcullis_term(SnapPolicy::Phonetic)];
    assert_eq!(run_with_registry(terms.clone(), "lower the port colours"), "lower the portcullis");
    assert_eq!(run_with_registry(terms.clone(), "lower the port collars"), "lower the portcullis");
    assert_eq!(run_with_registry(terms.clone(), "portcolours is strong"), "portcullis is strong");
}

#[test]
fn test_litellm_verbatim_casing() {
    let terms = vec![litellm_term(SnapPolicy::AliasOnly)];
    assert_eq!(run_with_registry(terms.clone(), "use lite llm for this"), "use LiteLLM for this");
    assert_eq!(run_with_registry(terms.clone(), "use litellm for this"), "use LiteLLM for this");
}

#[test]
fn test_litellm_phonetic_policy() {
    let terms = vec![litellm_term(SnapPolicy::Phonetic)];
    assert_eq!(run_with_registry(terms.clone(), "run light LLM locally"), "run LiteLLM locally");
}

#[test]
fn test_ngram_two_token_beats_one_token() {
    let terms = vec![
        term("port", &[], SnapPolicy::AliasOnly, 1, None),
        term("portcullis", &["port colours"], SnapPolicy::AliasOnly, 2, None),
    ];
    assert_eq!(run_with_registry(terms, "lower the port colours"), "lower the portcullis");
}

#[test]
fn test_conservative_immich_leaves_image_alone() {
    let terms = vec![term("immich", &[], SnapPolicy::Conservative, 1, None)];
    assert_eq!(run_with_registry(terms.clone(), "attach the image"), "attach the image");
    assert_eq!(run_with_registry(terms.clone(), "image"), "image");
}

#[test]
fn test_alias_only_immich_leaves_image_alone() {
    let terms = vec![term("immich", &[], SnapPolicy::AliasOnly, 1, None)];
    assert_eq!(run_with_registry(terms.clone(), "view the image gallery"), "view the image gallery");
}

#[test]
fn test_phonetic_portcullis_does_not_snap_standalone_colours() {
    let terms = vec![portcullis_term(SnapPolicy::Phonetic)];
    assert_eq!(run_with_registry(terms, "the colours of autumn"), "the colours of autumn");
}

#[test]
fn test_phonetic_folder_does_not_snap_to_vaultwarden() {
    let terms = vec![vaultwarden_term()];
    assert_eq!(run_with_registry(terms.clone(), "open the folder"), "open the folder");
    assert_eq!(run_with_registry(terms.clone(), "folder"), "folder");
}

#[test]
fn test_phonetic_filter_does_not_snap_to_vaultwarden() {
    let terms = vec![vaultwarden_term()];
    assert_eq!(run_with_registry(terms.clone(), "apply the filter"), "apply the filter");
}

#[test]
fn test_phonetic_genuine_variants_still_snap() {
    let portcullis = portcullis_term(SnapPolicy::Phonetic);
    assert_eq!(run_with_registry(vec![portcullis], "lower the portcolours"), "lower the portcullis");
    let portcullis2 = portcullis_term(SnapPolicy::Phonetic);
    assert_eq!(run_with_registry(vec![portcullis2], "lower the port colours"), "lower the portcullis");
}

#[test]
fn test_threshold_boundary() {
    let conservative_terms = vec![term("portcullis", &[], SnapPolicy::Conservative, 1, Some(0.85))];
    assert_eq!(run_with_registry(conservative_terms.clone(), "portculis"), "portcullis");
    assert_eq!(run_with_registry(conservative_terms.clone(), "portklezm"), "portklezm");
    let phonetic_terms = vec![term("portcullis", &[], SnapPolicy::Phonetic, 1, Some(0.85))];
    assert_eq!(run_with_registry(phonetic_terms, "portculis"), "portcullis");
}

#[test]
fn test_per_term_threshold_override() {
    let strict_terms = [term("portcullis", &[], SnapPolicy::Conservative, 1, Some(0.99))];
    assert_eq!(run_with_registry(strict_terms.to_vec(), "portculis"), "portculis");
}

#[test]
fn test_seed_deduplication() {
    let dict_entries = vec![
        DictionaryEntry { from: "port cullis".to_string(), to: "portcullis".to_string(), case_sensitive: false },
        DictionaryEntry { from: "portcolours".to_string(), to: "portcullis".to_string(), case_sensitive: false },
        DictionaryEntry { from: "portcolors".to_string(), to: "portcullis".to_string(), case_sensitive: false },
    ];
    let terms = seed_terms(&dict_entries);
    assert_eq!(terms.len(), 1, "Three entries with same `to` must collapse to one term");
    assert_eq!(terms[0].term, "portcullis");
    assert_eq!(terms[0].aliases.len(), 3);
    assert_eq!(terms[0].policy, SnapPolicy::AliasOnly);
    assert_eq!(terms[0].max_words, 3);
    assert_eq!(terms[0].threshold_bits, None);
}

#[test]
fn seeding_groups_by_lowercase_target_and_sorts_by_term() {
    let entries = vec![
        DictionaryEntry { from: "zed one".to_string(), to: "Zed".to_string(), case_sensitive: false },
        DictionaryEntry { from: "alpha".to_string(), to: "Beta".to_string(), case_sensitive: false },
        DictionaryEntry { from: "ZED TWO".to_string(), to: "zed".to_string(), case_sensitive: false },
        DictionaryEntry { from: "Zed".to_string(), to: "ZED".to_string(), case_sensitive: false },
        DictionaryEntry { from: "ALPHA".to_string(), to: "beta".to_string(), case_sensitive: false },
    ];
    let terms = seed_terms(&entries);
    assert_eq!(terms.len(), 2);
    assert_eq!(terms[0].term, "Beta");
    assert_eq!(terms[0].aliases, vec!["alpha".to_string()]);
    assert_eq!(terms[1].term, "Zed");
    assert_eq!(terms[1].aliases, vec!["zed one".to_string(), "ZED TWO".to_string()]);
}

#[test]
fn test_seed_policy_defaults_to_alias_only() {
    let t = CanonicalTerm {
        term: "portcullis".to_string(),
        aliases: vec![],
        policy: SnapPolicy::default(),
        max_words: default_max_words(),
        threshold_bits: None,
    };
    assert_eq!(t.policy, SnapPolicy::AliasOnly);
    assert_eq!(t.max_words, 3);
}

#[test]
fn test_verbatim_casing_for_cased_terms() {
    let terms = vec![litellm_term(SnapPolicy::AliasOnly)];
    assert_eq!(run_with_registry(terms.clone(), "LITE LLM works"), "LiteLLM works");
    assert_eq!(run_with_registry(terms.clone(), "Lite Llm works"), "LiteLLM works");
}

#[test]
fn test_restore_case_for_lowercase_terms() {
    let terms = vec![portcullis_term(SnapPolicy::AliasOnly)];
    assert_eq!(run_with_registry(terms.clone(), "PORTCULIS in the castle"), "PORTCULLIS in the castle");
    assert_eq!(run_with_registry(terms.clone(), "Port cullis stands"), "Portcullis stands");
}

#[test]
fn casing_rules_in_isolation() {
    assert_eq!(restore_case("NASA", "portcullis"), "PORTCULLIS");
    assert_eq!(restore_case("Nasa", "portcullis"), "Portcullis");
    assert_eq!(restore_case("nasa", "portcullis"), "portcullis");
    assert_eq!(restore_case("42", "portcullis"), "portcullis");
    assert_eq!(output_form("LiteLLM", "lite"), "LiteLLM");
    assert_eq!(output_form("stdio", "Standard"), "Stdio");
}

#[test]
fn test_no_match_returns_identical() {
    let terms = vec![portcullis_term(SnapPolicy::Phonetic)];
    let text = "the quick brown fox jumps, over the lazy dog.";
    assert_eq!(run_with_registry(terms, text), text, "no-match text must be byte-identical");
}

#[test]
fn no_terms_leave_any_text_alone() {
    let empty: Vec<Vec<Vec<bool>>> = Vec::new();
    assert_eq!(snap_with_terms(&[], "  anything at all ", &empty), "  anything at all ");
    let registry = CanonicalRegistry::default();
    assert_eq!(apply_canonical(&registry, "Oh sí.", &empty), "Oh sí.");
}

#[test]
fn test_punctuation_preserved_around_snap() {
    let terms = vec![portcullis_term(SnapPolicy::AliasOnly)];
    assert_eq!(run_with_registry(terms.clone(), "lower the port cullis!"), "lower the portcullis!");
    assert_eq!(run_with_registry(terms.clone(), "(port cullis)"), "(portcullis)");
}

#[test]
fn test_length_guard_skips_short_candidates() {
    let terms = vec![term("tic", &[], SnapPolicy::Phonetic, 1, None)];
    let text = "a tic here";
    assert_eq!(run_with_registry(terms, text), text);
}

#[test]
fn test_fold_to_ascii_accented_latin() {
    assert_eq!(fold_to_ascii("café"), "cafe");
    assert_eq!(fold_to_ascii("sí"), "si");
    assert_eq!(fold_to_ascii("naïve"), "naive");
    assert_eq!(fold_to_ascii("résumé"), "resume");
}

#[test]
fn test_fold_to_ascii_non_latin_folds_to_empty() {
    assert_eq!(fold_to_ascii("Привет"), "");
    assert_eq!(fold_to_ascii("こんにちは"), "");
}

#[test]
fn test_fold_to_ascii_emoji_folds_to_empty() {
    assert_eq!(fold_to_ascii("🎙️"), "");
}

#[test]
fn test_phonetic_match_no_panic_on_non_ascii() {
    let result = phonetic_match("oh sí", "gods wood");
    assert!(!result, "unrelated strings must not match");
}

#[test]
fn test_phonetic_match_accented_matches_ascii_form() {
    assert!(phonetic_match("café", "cafe"));
    assert!(phonetic_match("naïve", "naive"));
}

#[test]
fn a_word_starting_with_a_non_ascii_letter_is_passed_through() {
    let terms = vec![portcullis_term(SnapPolicy::Phonetic)];
    for t in [" Привет мир", "Wrote to Émile.", "· ñandú"] {
        assert_eq!(run_with_registry(terms.clone(), t), t);
    }
}

#[test]
fn test_apply_canonical_no_panic_with_non_ascii_transcript() {
    let terms = vec![term("godswood", &["gods wood"], SnapPolicy::Phonetic, 2, None)];
    assert_eq!(run_with_registry(terms, "Oh sí."), "Oh sí.");
}

#[test]
fn test_a_fuzzy_window_does_not_swallow_the_following_word() {
    let terms = vec![portcullis_term(SnapPolicy::Phonetic)];
    for (input, expected) in [
        ("removed from port cullis. You'll need to run that", "removed from portcullis. You'll need to run that"),
        ("removed from Portcullis. You'll need to run that", "removed from Portcullis. You'll need to run that"),
        ("the container for Portcullis. It's not going to have it", "the container for Portcullis. It's not going to have it"),
        ("if you look in Portcullis, you'll see it", "if you look in Portcullis, you'll see it"),
        ("I still need to unlock Portcullis. I'm the only one", "I still need to unlock Portcullis. I'm the only one"),
    ] {
        assert_eq!(run_with_registry(terms.clone(), input), expected);
    }
}

#[test]
fn test_a_fuzzy_window_does_not_reach_across_a_clause_boundary() {
    let terms = vec![portcullis_term(SnapPolicy::Phonetic)];
    assert_eq!(run_with_registry(terms.clone(), "unlock portcullus. You'll see"), "unlock portcullis. You'll see");
    assert_eq!(run_with_registry(terms.clone(), "unlock portcullus, you'll see"), "unlock portcullis, you'll see");
    assert_eq!(run_with_registry(terms, "unlock portcullus. It's fine"), "unlock portcullis. It's fine");
}

#[test]
fn test_an_exact_alias_still_matches_across_punctuation() {
    let terms = vec![term("stdio", &["standard I O"], SnapPolicy::AliasOnly, 3, None)];
    assert_eq!(run_with_registry(terms, "over standard I. O transport"), "over stdio transport");
}

#[test]
fn test_a_multi_word_fuzzy_variant_still_snaps() {
    let terms = vec![portcullis_term(SnapPolicy::Phonetic)];
    assert_eq!(run_with_registry(terms, "lower the port colours now"), "lower the portcullis now");
}

#[test]
fn window_candidates_are_single_spaced_word_runs() {
    let terms = vec![portcullis_term(SnapPolicy::Phonetic)];
    let c = window_candidates(&terms, "a,  b c");
    assert_eq!(c.len(), 3);
    assert_eq!(c[0], vec!["a".to_string(), "a b".to_string(), "a b c".to_string()]);
    assert_eq!(c[2], vec!["c".to_string()]);
}

#[test]
fn editing_the_term_list() {
    let mut terms: Vec<CanonicalTerm> = Vec::new();
    assert!(add_canonical_term(&mut terms, portcullis_term(SnapPolicy::AliasOnly)).is_ok());
    assert_eq!(
        add_canonical_term(&mut terms, term("PortCullis", &[], SnapPolicy::AliasOnly, 1, None)).unwrap_err(),
        "A canonical term for 'PortCullis' already exists"
    );
    assert_eq!(
        add_canonical_term(&mut terms, term("  ", &[], SnapPolicy::AliasOnly, 1, None)).unwrap_err(),
        "Term cannot be empty"
    );
    assert!(add_canonical_term(&mut terms, litellm_term(SnapPolicy::AliasOnly)).is_ok());
    assert!(update_canonical_term(&mut terms, 0, term("Portcullis", &[], SnapPolicy::Phonetic, 3, None)).is_ok());
    assert_eq!(terms[0].policy, SnapPolicy::Phonetic);
    assert!(update_canonical_term(&mut terms, 0, term("litellm", &[], SnapPolicy::Phonetic, 3, None)).is_err());
    assert_eq!(
        update_canonical_term(&mut terms, 9, term("x", &[], SnapPolicy::Phonetic, 3, None)).unwrap_err(),
        "Invalid index: 9"
    );
    assert_eq!(remove_canonical_term(&mut terms, 5).unwrap_err(), "Invalid index: 5");
    assert!(remove_canonical_term(&mut terms, 0).is_ok());
    assert_eq!(terms.len(), 1);
    assert_eq!(terms[0].term, "LiteLLM");
}

#[test]
fn an_alias_only_term_ignores_fuzzy_verdicts() {
    let terms = vec![term("portcullis", &[], SnapPolicy::AliasOnly, 3, None)];
    let text = "open the portculis now";
    let all_yes: Vec<Vec<Vec<bool>>> = (0..4).map(|_| vec![vec![true]; 3]).collect();
    assert_eq!(snap_with_terms(&terms, text, &all_yes), text);
    let terms = vec![term("portcullis", &[], SnapPolicy::Phonetic, 1, None)];
    assert_ne!(snap_with_terms(&terms, text, &all_yes), text);
}

#[test]
fn fuzzy_references_keep_spellings_with_the_candidates_word_count() {
    let ct = term("Portcullis", &["Port Cullis", "portculis", "port colours"], SnapPolicy::Phonetic, 3, None);
    assert_eq!(fuzzy_references("portcolis", &ct), vec!["portcullis".to_string(), "portculis".to_string()]);
    assert_eq!(fuzzy_references("port kullis", &ct), vec!["port cullis".to_string(), "port colours".to_string()]);
    assert!(fuzzy_references("the port of cullis", &ct).is_empty());
    assert_eq!(count_words("  two  words "), 2);
}
