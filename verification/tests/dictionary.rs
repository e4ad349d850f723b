use thoth::dictionary::{
    add_entry_locked, apply_dictionary, get_vocabulary_for_context, remove_dictionary_entry_by_from, replace_whole_word, resolve_unique_from,
    validate_entry, Dictionary, DictionaryEntry,
};
use thoth::paths::get_dictionary_path;

fn entry(from: &str, to: &str) -> DictionaryEntry {
    DictionaryEntry { from: from.to_string(), to: to.to_string(), case_sensitive: false }
}

#[test]
fn test_whole_word_does_not_match_substring() {
    assert_eq!(replace_whole_word("the webhook fired", "hook", "look", false), "the webhook fired");
    assert_eq!(replace_whole_word("classification", "class", "klass", false), "classification");
}

#[test]
fn test_whole_word_matches_standalone() {
    assert_eq!(replace_whole_word("grab the hook", "hook", "look", false), "grab the look");
    assert_eq!(replace_whole_word("the hook, please", "hook", "look", false), "the look, please");
}

#[test]
fn test_whole_word_case_insensitive() {
    assert_eq!(replace_whole_word("Hello HELLO hello", "hello", "hi", false), "hi hi hi");
}

#[test]
fn test_whole_word_case_sensitive() {
    assert_eq!(replace_whole_word("Hello hello HELLO", "hello", "hi", true), "Hello hi HELLO");
}

#[test]
fn test_whole_word_multi_word_entry() {
    assert_eq!(replace_whole_word("I love machine learning a lot", "machine learning", "ML", false), "I love ML a lot");
}

#[test]
fn test_whole_word_regex_metacharacters_are_literal() {
    assert_eq!(replace_whole_word("use node.js here", "node.js", "Node", false), "use Node here");
    assert_eq!(replace_whole_word("nodexjs", "node.js", "Node", false), "nodexjs");
}

#[test]
fn test_whole_word_trailing_punctuation_does_not_anchor() {
    assert_eq!(replace_whole_word("the c++ code", "c++", "cpp", false), "the c++ code");
}

#[test]
fn test_whole_word_replacement_is_literal_not_capture() {
    assert_eq!(replace_whole_word("see foo here", "foo", "$1 bar", false), "see $1 bar here");
}

#[test]
fn test_whole_word_empty_from() {
    assert_eq!(replace_whole_word("Empty from", "", "replacement", false), "Empty from");
}

#[test]
fn test_whole_word_no_match() {
    assert_eq!(replace_whole_word("The quick brown fox", "cat", "dog", false), "The quick brown fox");
}

#[test]
fn test_whole_word_unicode() {
    assert_eq!(replace_whole_word("a café here", "café", "coffee", false), "a coffee here");
}

#[test]
fn test_resolve_from_finds_the_named_entry() {
    let entries = vec![entry("teh", "the"), entry("immich", "Immich"), entry("ell", "LLM")];
    assert_eq!(resolve_unique_from(&entries, "immich").unwrap(), 1);
    assert_eq!(resolve_unique_from(&entries, "teh").unwrap(), 0);
    assert_eq!(resolve_unique_from(&entries, "ell").unwrap(), 2);
}

#[test]
fn test_resolve_from_is_case_insensitive() {
    let entries = vec![entry("LiteLLM", "LiteLLM")];
    assert_eq!(resolve_unique_from(&entries, "litellm").unwrap(), 0);
}

#[test]
fn test_resolve_from_matches_whole_value_not_substring() {
    let entries = vec![entry("webhook", "web hook")];
    assert!(resolve_unique_from(&entries, "hook").is_err());
}

#[test]
fn test_resolve_from_refuses_when_absent() {
    let entries = vec![entry("teh", "the")];
    let err = resolve_unique_from(&entries, "nope").unwrap_err().to_string();
    assert!(err.contains("No dictionary entry"), "unhelpful error: {err}");
}

#[test]
fn test_resolve_from_refuses_when_ambiguous() {
    let entries = vec![entry("teh", "the"), entry("ell", "LLM"), entry("TEH", "the")];
    let err = resolve_unique_from(&entries, "teh").unwrap_err().to_string();
    assert!(err.contains("refusing to guess"), "unhelpful error: {err}");
    assert!(err.contains('0') && err.contains('2'), "indices missing: {err}");
}

#[test]
fn test_entry_validation() {
    let empty_from = DictionaryEntry { from: "".to_string(), to: "replacement".to_string(), case_sensitive: false };
    assert!(empty_from.from.trim().is_empty());
    let valid_entry = DictionaryEntry { from: "teh".to_string(), to: "the".to_string(), case_sensitive: false };
    assert!(!valid_entry.from.trim().is_empty());
    assert!(!valid_entry.to.trim().is_empty());
    assert!(validate_entry(&empty_from).is_err());
    assert!(validate_entry(&valid_entry).is_ok());
}

#[test]
fn test_entry_validation_whitespace_only() {
    let whitespace_from = DictionaryEntry { from: "   ".to_string(), to: "replacement".to_string(), case_sensitive: false };
    assert!(whitespace_from.from.trim().is_empty());
    let whitespace_to = DictionaryEntry { from: "valid".to_string(), to: "   ".to_string(), case_sensitive: false };
    assert!(whitespace_to.to.trim().is_empty());
    assert_eq!(validate_entry(&whitespace_from).unwrap_err(), "The 'from' field cannot be empty");
    assert_eq!(validate_entry(&whitespace_to).unwrap_err(), "The 'to' field cannot be empty");
}

#[test]
fn test_entry_validation_with_newlines() {
    let entry_with_newline = DictionaryEntry { from: "from\ntext".to_string(), to: "to\ntext".to_string(), case_sensitive: false };
    assert!(!entry_with_newline.from.trim().is_empty());
    assert!(!entry_with_newline.to.trim().is_empty());
    assert!(validate_entry(&entry_with_newline).is_ok());
}

#[test]
fn test_dictionary_entry_clone() {
    let entry = DictionaryEntry { from: "original".to_string(), to: "replacement".to_string(), case_sensitive: true };
    let cloned = entry.clone();
    assert_eq!(entry.from, cloned.from);
    assert_eq!(entry.to, cloned.to);
    assert_eq!(entry.case_sensitive, cloned.case_sensitive);
}

#[test]
fn test_dictionary_default() {
    let dict = Dictionary::default();
    assert!(dict.entries.is_empty());
}

#[test]
fn test_dictionary_path_format() {
    let path_str = get_dictionary_path(None);
    assert!(path_str.contains(".thoth"));
    assert!(path_str.ends_with("dictionary.json"));
    assert_eq!(get_dictionary_path(Some("/data")), "/data/dictionary.json");
}

#[test]
fn test_case_sensitive_vs_insensitive_replacement() {
    let text = "Hello hello HELLO";
    assert_eq!(replace_whole_word(text, "hello", "hi", false), "hi hi hi");
    assert_eq!(replace_whole_word(text, "hello", "hi", true), "Hello hi HELLO");
}

#[test]
fn a_duplicate_entry_is_refused_ignoring_case() {
    let mut dict = Dictionary::default();
    assert!(add_entry_locked(&mut dict, entry("teh", "the")).is_ok());
    let err = add_entry_locked(&mut dict, entry("TEH", "the")).unwrap_err();
    assert_eq!(err, "An entry for 'TEH' already exists");
    assert_eq!(dict.entries.len(), 1);
}

#[test]
fn an_added_entry_can_be_removed_by_its_from_text() {
    let mut dict = Dictionary::default();
    add_entry_locked(&mut dict, entry("teh", "the")).unwrap();
    add_entry_locked(&mut dict, entry("ell", "LLM")).unwrap();
    assert_eq!(remove_dictionary_entry_by_from(&mut dict, "TEH").unwrap(), 0);
    assert_eq!(dict.entries.len(), 1);
    assert_eq!(dict.entries[0].from, "ell");
}

#[test]
fn entries_are_applied_in_order_as_whole_words() {
    let mut dict = Dictionary::default();
    add_entry_locked(&mut dict, entry("teh", "the")).unwrap();
    add_entry_locked(&mut dict, entry("hook", "look")).unwrap();
    assert_eq!(apply_dictionary(&dict, "teh webhook and teh hook"), "the webhook and the look");
}

#[test]
fn vocabulary_lists_each_replacement_word_once() {
    let dict = Dictionary { entries: vec![entry("teh", "the"), entry("imich", "Immich"), entry("hte", "the")] };
    assert_eq!(get_vocabulary_for_context(&dict), vec!["the".to_string(), "Immich".to_string()]);
    assert!(get_vocabulary_for_context(&Dictionary { entries: vec![] }).is_empty());
}

#[test]
fn escaping_matches_the_regex_crate() {
    for s in ["a.b", "C++ (beta)", "x-y~z", r"back\slash", "[a]{1}^$#&|*?", "plain words", "naïve"] {
        assert_eq!(thoth::dictionary::regex_escape(s), regex::escape(s), "for {s}");
    }
}
