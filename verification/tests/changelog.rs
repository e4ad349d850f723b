use thoth::changelog::{parse, parse_item, parse_version_heading, release_from, whats_new_from};

#[test]
fn a_bold_lead_is_split_from_its_body() {
    let item = parse_item("**Something broke.** And here is why.");
    assert_eq!(item.lead.as_deref(), Some("Something broke."));
    assert_eq!(item.body, "And here is why.");
}

#[test]
fn a_plain_bullet_keeps_all_its_text() {
    let item = parse_item("Just a plain note.");
    assert_eq!(item.lead, None);
    assert_eq!(item.body, "Just a plain note.");
}

#[test]
fn an_unclosed_bold_lead_is_left_alone() {
    let item = parse_item("**Never closed");
    assert_eq!(item.lead, None);
    assert_eq!(item.body, "**Never closed");
}

#[test]
fn a_version_heading_without_a_date_still_parses() {
    assert_eq!(
        parse_version_heading("[2026.1.0]"),
        Some(("2026.1.0".to_string(), None))
    );
    assert_eq!(parse_version_heading("[Unreleased]"), None);
    assert_eq!(parse_version_heading("Changelog"), None);
}

#[test]
fn a_wrapped_bullet_is_one_item() {
    let source = "## [2026.1.0] - 2026-01-01\n\n### Fixed\n\n- **Lead.** First line\n  second line\n";
    let releases = parse(source);
    let items = &releases[0].sections[0].items;
    assert_eq!(items.len(), 1);
    assert_eq!(items[0].body, "First line second line");
}

#[test]
fn a_bullet_with_no_section_heading_is_kept() {
    let source = "## [2026.1.0] - 2026-01-01\n\n- A loose note\n";
    let releases = parse(source);
    assert_eq!(releases[0].sections.len(), 1);
    assert_eq!(releases[0].sections[0].heading, "");
    assert_eq!(releases[0].sections[0].items[0].body, "A loose note");
}

#[test]
fn a_release_written_as_prose_is_kept() {
    let source = "## [1.0.0] - Swift Version (Archived)\n\nInitial implementation.\n";
    let releases = parse(source);
    assert_eq!(releases[0].version, "1.0.0");
    assert_eq!(releases[0].date.as_deref(), Some("Swift Version (Archived)"));
    assert_eq!(releases[0].sections[0].items[0].body, "Initial implementation.");
}

const SAMPLE: &str = "# Changelog\n\n## [Unreleased]\n\n- Not shipped yet\n\n## [2026.6.7] - 2026-06-25\n\n### Fixed\n\n- **Crash on start.** It no longer crashes.\n\n### Added\n\n- A new thing\n\n## [2026.5.0] - 2026-05-01\n\n### Changed\n\n- Something else\n\n[Unreleased]: https://example.invalid/compare\n";

#[test]
fn unreleased_work_and_link_footers_are_not_releases() {
    let releases = parse(SAMPLE);
    assert_eq!(releases.len(), 2);
    assert_eq!(releases[0].version, "2026.6.7");
    assert_eq!(releases[1].version, "2026.5.0");
    for r in &releases {
        assert!(r.version.starts_with(|c: char| c.is_ascii_digit()));
    }
}

#[test]
fn release_lookup_finds_a_known_version_only() {
    let found = release_from(SAMPLE, "2026.6.7").expect("present");
    assert_eq!(found.date.as_deref(), Some("2026-06-25"));
    assert!(found.sections.iter().any(|s| s.heading == "Fixed"));
    assert_eq!(found.sections[0].items[0].lead.as_deref(), Some("Crash on start."));
    assert!(release_from(SAMPLE, "1999.1.0").is_none());
    assert!(release_from(SAMPLE, "Unreleased").is_none());
}

#[test]
fn whats_new_is_shown_once_per_version() {
    assert!(whats_new_from(SAMPLE, "2026.6.7", None).is_some());
    assert!(whats_new_from(SAMPLE, "2026.6.7", Some("2026.5.0")).is_some());
    assert!(whats_new_from(SAMPLE, "2026.6.7", Some("2026.6.7")).is_none());
    assert!(whats_new_from(SAMPLE, "0.0.1-dev", Some("2026.6.7")).is_none());
}

#[test]
fn crlf_line_endings_parse_like_lf() {
    let source = "## [2026.1.0] - 2026-01-01\r\n\r\n### Fixed\r\n\r\n- **Lead.** Body\r\n";
    let releases = parse(source);
    assert_eq!(releases[0].date.as_deref(), Some("2026-01-01"));
    assert_eq!(releases[0].sections[0].heading, "Fixed");
    assert_eq!(releases[0].sections[0].items[0].body, "Body");
}
