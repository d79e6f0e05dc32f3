use efficiency_benchmark::config::{is_valid_repo_url, split_command_tokens, ConfigError,
    RunConfiguration};

#[test]
fn http_url_is_accepted() {
    assert!(is_valid_repo_url(b"http://example.com/repo.git"));
}

#[test]
fn https_url_is_accepted() {
    assert!(is_valid_repo_url(b"https://github.com/rust-lang/rustlings.git"));
}

#[test]
fn ssh_remote_is_accepted() {
    assert!(is_valid_repo_url(b"git@github.com:rust-lang/rustlings.git"));
}

#[test]
fn other_schemes_are_rejected() {
    assert!(!is_valid_repo_url(b"ftp://example.com/repo"));
    assert!(!is_valid_repo_url(b"ssh://git@example.com/repo"));
    assert!(!is_valid_repo_url(b"file:///tmp/repo"));
}

#[test]
fn empty_and_truncated_identifiers_are_rejected() {
    assert!(!is_valid_repo_url(b""));
    assert!(!is_valid_repo_url(b"htt"));
    assert!(!is_valid_repo_url(b"git"));
    assert!(!is_valid_repo_url(b"http:/example.com"));
}

#[test]
fn leading_space_is_rejected() {
    assert!(!is_valid_repo_url(b" http://example.com"));
}

#[test]
fn bare_prefix_alone_is_accepted() {
    assert!(is_valid_repo_url(b"git@"));
    assert!(is_valid_repo_url(b"http://"));
}

#[test]
fn command_splits_on_whitespace() {
    let tokens = split_command_tokens(b"cargo build");
    assert_eq!(tokens, vec![b"cargo".to_vec(), b"build".to_vec()]);
}

#[test]
fn command_split_collapses_repeated_spaces() {
    let tokens = split_command_tokens(b"  make   all ");
    assert_eq!(tokens, vec![b"make".to_vec(), b"all".to_vec()]);
}

#[test]
fn command_split_handles_tabs_and_newlines() {
    let tokens = split_command_tokens(b"cargo\tbuild\n--release");
    assert_eq!(
        tokens,
        vec![b"cargo".to_vec(), b"build".to_vec(), b"--release".to_vec()]
    );
}

#[test]
fn empty_command_splits_to_nothing() {
    assert_eq!(split_command_tokens(b""), Vec::<Vec<u8>>::new());
    assert_eq!(split_command_tokens(b"   "), Vec::<Vec<u8>>::new());
}

#[test]
fn configuration_accepts_valid_input() {
    let config = RunConfiguration::new(
        b"https://github.com/rust-lang/rustlings.git".to_vec(),
        b"cargo build",
        b"repo-dir".to_vec(),
        b"build-dir".to_vec(),
    )
    .unwrap();
    assert_eq!(config.repo_url, b"https://github.com/rust-lang/rustlings.git".to_vec());
    assert_eq!(config.build_command, vec![b"cargo".to_vec(), b"build".to_vec()]);
    assert_eq!(config.source_dir, b"repo-dir".to_vec());
    assert_eq!(config.build_dir, b"build-dir".to_vec());
}

#[test]
fn configuration_rejects_bad_url() {
    let r = RunConfiguration::new(
        b"example.com/repo".to_vec(),
        b"cargo build",
        b"repo-dir".to_vec(),
        b"build-dir".to_vec(),
    );
    assert_eq!(r.unwrap_err(), ConfigError::InvalidRepositoryUrl);
}

#[test]
fn configuration_rejects_empty_command() {
    let r = RunConfiguration::new(
        b"http://example.com/repo".to_vec(),
        b" \t ",
        b"repo-dir".to_vec(),
        b"build-dir".to_vec(),
    );
    assert_eq!(r.unwrap_err(), ConfigError::EmptyBuildCommand);
}
