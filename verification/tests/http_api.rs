use codex_trace::http_api::{
    load_session_from_path, origin_allowed, parse_extra_origins, parse_u16, pick_host, pick_port,
    resolve_allowed_origins_from, session_load_error_status, sessions_dir_error,
    DEFAULT_ALLOWED_ORIGINS, DEFAULT_HTTP_HOST, DEFAULT_HTTP_PORT, NO_SESSION_PATH_PROVIDED,
};

#[test]
fn pick_host_uses_default_when_missing() {
    assert_eq!(pick_host(None), DEFAULT_HTTP_HOST);
}

#[test]
fn pick_host_uses_default_when_empty() {
    assert_eq!(pick_host(Some(String::new())), DEFAULT_HTTP_HOST);
}

#[test]
fn pick_host_uses_provided_value() {
    assert_eq!(pick_host(Some("0.0.0.0".to_string())), "0.0.0.0");
}

#[test]
fn pick_port_uses_default_when_missing() {
    assert_eq!(pick_port(None), DEFAULT_HTTP_PORT);
}

#[test]
fn pick_port_uses_default_when_unparsable() {
    assert_eq!(pick_port(Some("not-a-number".to_string())), DEFAULT_HTTP_PORT);
}

#[test]
fn pick_port_uses_parsed_value() {
    assert_eq!(pick_port(Some("8080".to_string())), 8080);
}

#[test]
fn ports_parse_exactly_as_std_does() {
    for s in ["0", "65535", "+80", "007", "", "+", "-1", "65536", " 80", "80 ", "1e3"] {
        assert_eq!(parse_u16(s), s.parse::<u16>().ok(), "{s:?}");
    }
    assert_eq!(pick_port(Some("70000".into())), DEFAULT_HTTP_PORT);
}

#[test]
fn parse_extra_origins_is_empty_when_missing() {
    assert!(parse_extra_origins(None).is_empty());
}

#[test]
fn parse_extra_origins_splits_and_trims() {
    assert_eq!(
        parse_extra_origins(Some(" http://a.example , http://b.example ".to_string())),
        vec!["http://a.example", "http://b.example"],
    );
}

#[test]
fn parse_extra_origins_drops_empty_entries() {
    assert!(parse_extra_origins(Some(" , ,".to_string())).is_empty());
}

#[test]
fn default_origins_are_the_dev_web_ui() {
    assert_eq!(
        DEFAULT_ALLOWED_ORIGINS,
        ["http://localhost:1420", "http://127.0.0.1:1420"],
    );
}

#[test]
fn default_origins_parse_to_valid_header_values() {
    for origin in DEFAULT_ALLOWED_ORIGINS {
        assert!(axum::http::HeaderValue::from_str(origin).is_ok(), "{origin}");
    }
}

#[test]
fn the_static_allowlist_is_the_defaults_then_the_env_origins() {
    assert_eq!(
        resolve_allowed_origins_from(Some("https://x.example,".into())),
        vec!["http://localhost:1420", "http://127.0.0.1:1420", "https://x.example"],
    );
    assert_eq!(resolve_allowed_origins_from(None).len(), 2);
}

#[test]
fn origin_allowed_matches_a_static_origin() {
    let static_origins = vec!["http://localhost:1420".to_string()];
    assert!(origin_allowed("http://localhost:1420", &static_origins, &[]));
}

#[test]
fn origin_allowed_matches_a_live_settings_origin() {
    let live = vec!["https://trace.example".to_string()];
    assert!(origin_allowed("https://trace.example", &[], &live));
}

#[test]
fn origin_allowed_rejects_an_unlisted_origin() {
    let static_origins = vec!["http://localhost:1420".to_string()];
    assert!(!origin_allowed("https://evil.example", &static_origins, &[]));
}

#[test]
fn origin_allowed_rejects_a_prefix_extension_of_an_allowed_origin() {
    // A suffix/prefix match would let `http://localhost:1420.evil.com`
    // through; the comparison must stay exact.
    let static_origins = vec!["http://localhost:1420".to_string()];
    assert!(!origin_allowed("http://localhost:1420.evil.com", &static_origins, &[]));
    assert!(!origin_allowed("http://evil.com/http://localhost:1420", &static_origins, &[]));
}

#[test]
fn origin_allowed_is_case_sensitive_and_scheme_sensitive() {
    let static_origins = vec!["http://localhost:1420".to_string()];
    assert!(!origin_allowed("https://localhost:1420", &static_origins, &[]));
    assert!(!origin_allowed("http://LOCALHOST:1420", &static_origins, &[]));
}

#[test]
fn origin_allowed_rejects_everything_when_both_lists_are_empty() {
    assert!(!origin_allowed("http://localhost:1420", &[], &[]));
}

#[test]
fn load_session_from_path_rejects_empty_path() {
    let result: Result<(), String> = load_session_from_path("", |_| Ok(()));

    assert_eq!(result.unwrap_err(), "no session path provided");
}

#[test]
fn a_session_path_is_handed_to_the_parser() {
    let result = load_session_from_path("/s.jsonl", |p| Ok(p.len()));
    assert_eq!(result, Ok(8));
}

#[test]
fn a_missing_path_is_a_bad_request_and_anything_else_a_server_error() {
    assert_eq!(session_load_error_status(NO_SESSION_PATH_PROVIDED), 400);
    assert_eq!(session_load_error_status("cannot read"), 500);
}

#[test]
fn a_sessions_dir_must_exist_and_be_a_directory() {
    assert_eq!(
        sessions_dir_error("/x", false, false).as_deref(),
        Some("path does not exist: /x")
    );
    assert_eq!(
        sessions_dir_error("/x", true, false).as_deref(),
        Some("path is not a directory: /x")
    );
    assert!(sessions_dir_error("/x", true, true).is_none());
}
