use thoth::paths::{config_path_in, get_database_path, path_join, prompts_path_in, thoth_dir_in, token_path};

#[test]
fn test_database_path_format() {
    let path = get_database_path().unwrap();
    assert!(path.contains(".thoth"));
    assert!(path.ends_with("thoth.db"));
}

#[test]
fn data_files_live_under_the_thoth_directory() {
    assert_eq!(thoth_dir_in("/home/u"), "/home/u/.thoth");
    assert_eq!(config_path_in("/home/u"), "/home/u/.thoth/config.json");
    assert_eq!(prompts_path_in("/home/u"), "/home/u/.thoth/prompts.json");
    assert!(token_path().ends_with(".thoth/control_api_token"));
}

#[test]
fn joining_matches_path_buf_semantics() {
    assert_eq!(path_join("/a", "b"), "/a/b");
    assert_eq!(path_join("/a/", "b"), "/a/b");
    assert_eq!(path_join("/a", "/b"), "/b");
    assert_eq!(
        path_join("/a", "b"),
        std::path::Path::new("/a").join("b").to_string_lossy()
    );
}
