use ra_multiplex::logging::{
    LogBackend, LoggerBootstrap, resolve_filter, rotation_needed, select_backend,
};

#[test]
fn file_mode_selects_file_backend() {
    assert_eq!(select_backend("file"), LogBackend::File);
}

#[test]
fn every_other_mode_selects_terminal_backend() {
    assert_eq!(select_backend("terminal"), LogBackend::Terminal);
    assert_eq!(select_backend(""), LogBackend::Terminal);
    assert_eq!(select_backend("files"), LogBackend::Terminal);
}

#[test]
fn valid_environment_override_beats_configured_filter() {
    let env = "debug".to_string();
    assert_eq!(resolve_filter(Some(&env), "warn"), "debug");
}

#[test]
fn invalid_environment_override_falls_back_to_configured() {
    let env = "foo=bar=baz".to_string();
    assert_eq!(resolve_filter(Some(&env), "warn"), "warn");
}

#[test]
fn invalid_configured_filter_falls_back_to_info() {
    assert_eq!(resolve_filter(None, "foo=bar=baz"), "info");
    let env = "foo=bar=baz".to_string();
    assert_eq!(resolve_filter(Some(&env), "foo=bar=baz"), "info");
}

#[test]
fn unreadable_filter_degrades_instead_of_aborting() {
    let env = "info, \u{e4}pp=debug".to_string();
    assert_eq!(resolve_filter(Some(&env), "warn"), "warn");
    assert_eq!(resolve_filter(None, " \u{e4}=x"), "info");
}

#[test]
fn non_ascii_filter_without_leading_whitespace_accepted() {
    let env = "\u{e4}pp=debug".to_string();
    assert_eq!(resolve_filter(Some(&env), "warn"), "\u{e4}pp=debug");
}

#[test]
fn rotation_triggers_at_one_mebibyte() {
    assert!(rotation_needed(true, 1048576));
    assert!(rotation_needed(true, 2000000));
    assert!(!rotation_needed(true, 1048575));
    assert!(!rotation_needed(false, 2000000));
}

#[test]
fn initialization_happens_exactly_once() {
    let mut bootstrap = LoggerBootstrap::new();
    let plan = bootstrap.initialize("file", "info", None).expect("first call plans");
    assert_eq!(plan.backend, LogBackend::File);
    assert_eq!(plan.filter, "info");
    assert!(bootstrap.initialize("file", "info", None).is_none());
    assert!(bootstrap.initialize("terminal", "debug", None).is_none());
}
