use thoth::control_api::{
    bearer_authorized,
    check_dictionary_index, expand_user_path, expand_user_path_with, generate_token,
    get_or_create_token, is_loopback_hostname, nonempty_trimmed, resolve, rotate, AppError,
    TOKEN_PREFIX,
};
use thoth::jobs::{prune_jobs, JobRegistry, TranscribeJob, JOB_STATUS_EXPIRED, JOB_TTL_MS, MAX_JOBS};

const NOW: u64 = 10_000_000_000;

fn aged_job(status: &str, age_ms: u64, transcript: Option<&str>) -> TranscribeJob {
    TranscribeJob {
        status: status.to_string(),
        transcript: transcript.map(str::to_string),
        error: None,
        created_ms: NOW - age_ms,
    }
}

#[test]
fn prune_expires_transcripts_past_the_ttl() {
    let mut jobs = JobRegistry::new();
    jobs.insert("old".to_string(), aged_job("completed", JOB_TTL_MS + 1_000, Some("hello")));
    jobs.insert("fresh".to_string(), aged_job("completed", 1_000, Some("hello")));

    prune_jobs(&mut jobs, NOW);

    let old = jobs.get("old").unwrap();
    assert_eq!(old.status, JOB_STATUS_EXPIRED);
    assert!(old.transcript.is_none(), "expired job kept its transcript");

    let fresh = jobs.get("fresh").unwrap();
    assert_eq!(fresh.status, "completed", "a fresh job was expired");
    assert_eq!(fresh.transcript.as_deref(), Some("hello"));
}

#[test]
fn prune_caps_the_registry_oldest_first() {
    let mut jobs = JobRegistry::new();
    for i in 0..(MAX_JOBS + 50) {
        let age = ((MAX_JOBS + 50 - i) as u64) * 1_000;
        jobs.insert(format!("job-{i}"), aged_job("completed", age, Some("x")));
    }

    prune_jobs(&mut jobs, NOW);

    assert_eq!(jobs.len(), MAX_JOBS, "registry was not capped");
    assert!(!jobs.contains_key("job-0"), "oldest job survived the cap");
    assert!(jobs.contains_key(&format!("job-{}", MAX_JOBS + 49)), "newest job was evicted");
}

#[test]
fn prune_never_evicts_an_in_flight_job() {
    let mut jobs = JobRegistry::new();
    jobs.insert("running".to_string(), aged_job("processing", (MAX_JOBS as u64 + 100) * 1_000, None));
    jobs.insert("waiting".to_string(), aged_job("queued", (MAX_JOBS as u64 + 99) * 1_000, None));
    for i in 0..(MAX_JOBS + 50) {
        let age = ((MAX_JOBS + 50 - i) as u64) * 1_000;
        jobs.insert(format!("job-{i}"), aged_job("completed", age, Some("x")));
    }

    prune_jobs(&mut jobs, NOW);

    assert!(jobs.contains_key("running"), "a processing job was evicted");
    assert!(jobs.contains_key("waiting"), "a queued job was evicted");
}

#[test]
fn lookup_reports_expiry_distinctly_from_an_unknown_id() {
    let mut jobs = JobRegistry::new();
    jobs.insert("late".to_string(), aged_job("completed", JOB_TTL_MS + 1_000, Some("hi")));
    let expired = jobs.lookup("late", NOW).expect("an expired job must still resolve");
    assert_eq!(expired.status, JOB_STATUS_EXPIRED);
    assert!(expired.transcript.is_none());
    assert!(jobs.lookup("never-issued", NOW).is_none());
}

#[test]
fn a_job_runs_from_queued_to_completed() {
    let mut jobs = JobRegistry::new();
    jobs.submit("j".to_string(), NOW);
    assert_eq!(jobs.get("j").unwrap().status, "queued");
    jobs.mark_processing("j");
    assert_eq!(jobs.get("j").unwrap().status, "processing");
    jobs.finish("j", Ok("text".to_string()));
    let j = jobs.get("j").unwrap();
    assert_eq!(j.status, "completed");
    assert_eq!(j.transcript.as_deref(), Some("text"));
    jobs.submit("k".to_string(), NOW);
    jobs.finish("k", Err("boom".to_string()));
    let k = jobs.get("k").unwrap();
    assert_eq!(k.status, "failed");
    assert_eq!(k.error.as_deref(), Some("boom"));
}

#[test]
fn stored_token_wins_over_legacy_and_generation() {
    let t = resolve(Some("sk-thoth-stored".to_string()), Some("sk-thoth-legacy".to_string()));
    assert_eq!(t, "sk-thoth-stored");
}

#[test]
fn legacy_token_is_migrated_when_store_empty() {
    let t = resolve(None, Some("sk-thoth-existing".to_string()));
    assert_eq!(t, "sk-thoth-existing");
}

#[test]
fn fresh_token_minted_when_nothing_to_migrate() {
    let t = resolve(None, None);
    assert!(t.starts_with("sk-thoth-"), "should mint a canonical token: {t}");
}

#[test]
fn only_an_empty_store_is_written() {
    let (t, write) = get_or_create_token(Some("sk-thoth-a".to_string()), None);
    assert_eq!(t, "sk-thoth-a");
    assert!(!write);
    let (t, write) = get_or_create_token(None, Some("sk-thoth-b".to_string()));
    assert_eq!(t, "sk-thoth-b");
    assert!(write);
    assert_eq!(nonempty_trimmed("  sk-thoth-c \n"), Some("sk-thoth-c".to_string()));
    assert_eq!(nonempty_trimmed("   "), None);
}

#[test]
fn token_has_canonical_shape() {
    let t = generate_token();
    assert!(t.starts_with("sk-thoth-"), "prefix: {}", t);
    assert_eq!(t.len(), TOKEN_PREFIX.len() + 40, "length: {}", t);
    let secret = &t[TOKEN_PREFIX.len()..];
    assert!(secret.bytes().all(|b| b.is_ascii_alphanumeric()), "secret must be base62: {}", secret);
}

#[test]
fn tokens_are_unique() {
    let a = generate_token();
    let b = generate_token();
    assert_ne!(a, b);
    assert_ne!(rotate(), a);
}

#[test]
fn tilde_slash_path_expands_to_the_home_directory() {
    let home = dirs::home_dir().expect("home directory required for this test");
    let expanded = expand_user_path("~/memo.m4a").expect("`~/...` must expand");
    assert_eq!(std::path::PathBuf::from(&expanded), home.join("memo.m4a"));
    assert!(std::path::Path::new(&expanded).is_absolute());
}

#[test]
fn bare_tilde_expands_to_the_home_directory() {
    let home = dirs::home_dir().expect("home directory required for this test");
    assert_eq!(std::path::PathBuf::from(expand_user_path("~").expect("`~` must expand")), home);
}

#[test]
fn absolute_path_is_returned_unchanged() {
    let path = "/var/audio/memo.wav";
    assert_eq!(expand_user_path(path).expect("absolute paths must pass through"), path);
}

#[test]
fn relative_path_is_returned_unchanged() {
    let path = "audio/memo.wav";
    assert_eq!(expand_user_path(path).expect("relative paths must pass through"), path);
}

#[test]
fn tilde_user_path_is_rejected_by_naming_the_real_cause() {
    let err = expand_user_path("~someone/memo.wav").expect_err("`~user` paths must be rejected");
    assert!(!err.contains("file not found"), "error must not look like a missing file: {err}");
    assert!(err.contains("~user"), "error must name the unsupported form: {err}");
}

#[test]
fn expansion_against_a_given_home() {
    assert_eq!(expand_user_path_with("~/a/b.wav", Some("/home/u")).unwrap(), "/home/u/a/b.wav");
    assert_eq!(expand_user_path_with("~", Some("/home/u")).unwrap(), "/home/u");
    assert_eq!(
        expand_user_path_with("~", None).unwrap_err(),
        "could not determine the home directory to expand `~`"
    );
    assert_eq!(expand_user_path_with("~x", Some("/home/u")).unwrap_err(),
        "unsupported home-relative path: ~x. Only `~` and `~/...` are supported; `~user` paths are not. Use an absolute path instead.");
}

#[test]
fn a_dictionary_index_past_the_end_is_not_found() {
    assert!(check_dictionary_index(2, 3).is_ok());
    match check_dictionary_index(3, 3) {
        Err(AppError::NotFound(m)) => assert_eq!(m, "dictionary index 3 out of range (have 3 entries)"),
        other => panic!("unexpected: {:?}", other),
    }
}

#[test]
fn only_loopback_hosts_are_accepted() {
    assert!(is_loopback_hostname("localhost"));
    assert!(is_loopback_hostname("LocalHost"));
    assert!(is_loopback_hostname("127.0.0.1"));
    assert!(is_loopback_hostname("[::1]"));
    assert!(!is_loopback_hostname("evil.example"));
    assert!(!is_loopback_hostname("127.0.0.2"));
}

#[test]
fn only_the_exact_bearer_token_is_authorised() {
    let token = "sk-thoth-abc";
    assert!(bearer_authorized(Some("Bearer sk-thoth-abc"), token));
    assert!(!bearer_authorized(Some("Bearer sk-thoth-abd"), token));
    assert!(!bearer_authorized(Some("Bearer sk-thoth-ab"), token));
    assert!(!bearer_authorized(Some("bearer sk-thoth-abc"), token));
    assert!(!bearer_authorized(Some("Bearer  sk-thoth-abc"), token));
    assert!(!bearer_authorized(Some("sk-thoth-abc"), token));
    assert!(!bearer_authorized(None, token));
}
