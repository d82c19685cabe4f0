use codex_trace::auth::{
    auth_disabled_by, authenticate_in, builtin_credential, builtin_credential_path,
    check_registry, choose_signing_key, cookie_carrier_allowed, cookie_value,
    corrupt_backup_path, corrupt_registry_warning, credential_cookie_header,
    credential_is_current, credential_sync, credential_targets, ephemeral_key,
    generate_secret_hex, hex_to_bytes, host_allowed, host_of_origin, is_html, is_shell_path,
    is_shell_response, issue_credential, needs_credential, parse_client_id, percent_decode,
    presented_credentials, query_param, registry_adoptable, registry_path, scan_credentials,
    secret_path, shell_cookie, signing_key, strip_port, to_hex_lower,
    unpersisted_web_ui_credential, AuthMode, CredentialScan, KeySource, RequestCarriers,
    TOKEN_COOKIE, TOKEN_HEADER,
};
use codex_trace::clients::{ClientRegistry, WEB_UI};
use codex_trace::jwt::{verify, Claims};

const KEY: &[u8] = b"0123456789abcdef0123456789abcdef";

fn id_text(id: u128) -> String {
    uuid::Uuid::from_u128(id).to_string()
}

// -- decoders ----------------------------------------------------------------

#[test]
fn non_ascii_input_never_panics_the_decoders() {
    assert_eq!(hex_to_bytes("aéb"), None);
    assert_eq!(hex_to_bytes("éé"), None);
    assert_eq!(percent_decode("%aé"), "%aé");
    assert_eq!(percent_decode("é%41"), "éA");
    assert_eq!(percent_decode("%"), "%");
    assert_eq!(percent_decode("%2"), "%2");
}

#[test]
fn hex_to_bytes_round_trips_a_generated_secret() {
    let hex = generate_secret_hex();
    assert_eq!(hex.len(), 64);
    assert_eq!(hex_to_bytes(&hex).unwrap().len(), 32);
}

#[test]
fn hex_to_bytes_rejects_odd_length_and_empty() {
    assert_eq!(hex_to_bytes(""), None);
    assert_eq!(hex_to_bytes("abc"), None);
    assert_eq!(hex_to_bytes("zz"), None);
}

#[test]
fn percent_decode_handles_an_encoded_credential() {
    let token = "aaa.bbb.cc-_d";
    assert_eq!(percent_decode(token), token);
    assert_eq!(percent_decode("a%2Bb"), "a+b");
}

#[test]
fn hex_decoding_reads_pairs_as_from_str_radix_does() {
    assert_eq!(hex_to_bytes("00ff7F"), Some(vec![0, 255, 127]));
    assert_eq!(hex_to_bytes("+a"), Some(vec![10]), "a sign is accepted");
    assert_eq!(hex_to_bytes("-a"), None);
    assert_eq!(hex_to_bytes("++"), None);
    assert_eq!(to_hex_lower(&[0, 10, 255]), "000aff");
    assert_eq!(hex_to_bytes(&to_hex_lower(&[1, 2, 3, 254])), Some(vec![1, 2, 3, 254]));
}

#[test]
fn percent_decoding_keeps_a_plus_and_repairs_broken_utf8() {
    assert_eq!(percent_decode("a+b"), "a+b");
    assert_eq!(percent_decode("%e2%82%ac"), "€");
    assert_eq!(percent_decode("%ff"), "\u{fffd}");
    assert_eq!(percent_decode("%zz%41"), "%zzA");
}

#[test]
fn debug_output_never_contains_the_key() {
    let mode = AuthMode::Enabled {
        key: KEY.to_vec(),
        source: KeySource::File,
    };
    let shown = mode.debug_text();
    assert!(!shown.contains(std::str::from_utf8(KEY).unwrap()), "{shown}");
    assert!(shown.contains("redacted"), "{shown}");
}

#[test]
fn modes_report_their_source() {
    assert_eq!(AuthMode::Disabled.source(), "disabled");
    assert_eq!(AuthMode::Disabled.debug_text(), "Disabled");
    let file = AuthMode::Enabled { key: KEY.to_vec(), source: KeySource::File };
    let eph = AuthMode::Enabled { key: vec![1, 2], source: KeySource::Ephemeral };
    assert_eq!(file.source(), "file");
    assert_eq!(eph.source(), "ephemeral");
    assert!(file.is_enabled() && !AuthMode::Disabled.is_enabled());
    assert_eq!(file.key(), Some(KEY));
    assert_eq!(AuthMode::Disabled.key(), None);
    assert_eq!(
        eph.debug_text(),
        "Enabled { key: <redacted 2 bytes>, source: Ephemeral }"
    );
}

// -- files -------------------------------------------------------------------

#[test]
fn config_files_live_under_the_root() {
    assert_eq!(secret_path("/cfg"), "/cfg/api-secret");
    assert_eq!(registry_path("/cfg/"), "/cfg/clients.json");
    assert_eq!(builtin_credential_path("/cfg", WEB_UI), "/cfg/clients/web-ui.jwt");
    assert_eq!(corrupt_backup_path("/cfg", 42), "/cfg/clients.json.corrupt-42");
    assert_eq!(registry_path(""), "clients.json");
}

// -- resolution --------------------------------------------------------------

#[test]
fn auth_off_is_case_and_whitespace_insensitive() {
    assert!(auth_disabled_by(Some("off")));
    assert!(auth_disabled_by(Some("  OFF ")));
}

#[test]
fn any_other_auth_value_leaves_verification_on() {
    for v in ["on", "", "yes", "0", "false"] {
        assert!(!auth_disabled_by(Some(v)), "{v:?} must not disable verification");
    }
    assert!(!auth_disabled_by(None));
}

#[test]
fn a_hex_key_file_is_used_as_the_key() {
    let hex = to_hex_lower(KEY);
    let choice = choose_signing_key(Some(("/cfg/api-secret".into(), Ok(hex))));
    assert_eq!(choice.key, KEY);
    assert_eq!(choice.source, KeySource::File);
    assert!(choice.warning.is_none());
}

#[test]
fn a_non_hex_or_short_key_falls_back_to_an_ephemeral_key() {
    let choice = choose_signing_key(Some((
        "/cfg/api-secret".into(),
        Ok("definitely not hex".into()),
    )));
    assert_eq!(choice.source, KeySource::Ephemeral);
    assert_eq!(choice.key.len(), 32);
    assert!(choice.warning.unwrap().contains("hex"));

    let short = choose_signing_key(Some(("/k".into(), Ok("00112233".into()))));
    assert_eq!(short.source, KeySource::Ephemeral);
}

#[test]
fn no_config_dir_falls_back_to_an_ephemeral_key() {
    let choice = choose_signing_key(None);
    assert_eq!(choice.source, KeySource::Ephemeral);
    assert_eq!(choice.warning.as_deref(), Some("no config directory available"));
    let failed = choose_signing_key(Some(("/k".into(), Err("denied".into()))));
    assert_eq!(
        failed.warning.as_deref(),
        Some("could not persist the signing key (denied)")
    );
    assert_eq!(ephemeral_key().len(), 32);
}

#[test]
fn a_corrupt_registry_warning_says_where_it_went() {
    let moved = corrupt_registry_warning("bad json", "/cfg/clients.json.corrupt-1", &Ok(()));
    assert!(moved.contains("moved it to /cfg/clients.json.corrupt-1"));
    let kept = corrupt_registry_warning("bad json", "/b", &Err("busy".into()));
    assert!(kept.contains("could not move it aside (busy)"));
}

#[test]
fn the_builtin_credential_verifies_against_the_resolved_key() {
    let mut registry = ClientRegistry::default();
    registry.ensure_builtins(100);
    let targets = credential_targets("/cfg", &registry);
    assert_eq!(targets.len(), 1);
    assert!(targets[0].is_web_ui);
    assert_eq!(targets[0].path, "/cfg/clients/web-ui.jwt");
    let client = &registry.clients[targets[0].index];

    let fresh = builtin_credential(client, KEY, None, 200);
    assert!(fresh.rewrite);
    let claims = verify(&fresh.credential, KEY).unwrap();
    assert_eq!(claims.name, WEB_UI);
    assert_eq!(claims.sub, id_text(client.id));
    assert!(claims.iat >= client.issued_at);

    let again = builtin_credential(client, KEY, Some(&fresh.credential), 300);
    assert!(!again.rewrite, "a current credential is kept");
    assert_eq!(again.credential, fresh.credential);
}

#[test]
fn a_stale_credential_file_is_rewritten() {
    let mut registry = ClientRegistry::default();
    registry.ensure_builtins(100);
    let client = registry.clients[0].clone();
    let rewritten = builtin_credential(&client, KEY, Some("not.a.credential"), 150);
    assert!(rewritten.rewrite);
    assert_ne!(rewritten.credential, "not.a.credential");
}

#[test]
fn a_credential_issued_before_a_reissue_is_rewritten() {
    let mut registry = ClientRegistry::default();
    registry.ensure_builtins(100);
    let id = registry.clients[0].id;
    let stale = builtin_credential(&registry.clients[0], KEY, None, 100).credential;
    registry.reissue(id, 160).unwrap();
    let again = builtin_credential(&registry.clients[0], KEY, Some(&stale), 160);
    assert!(again.rewrite);
    assert_ne!(again.credential, stale);
}

#[test]
fn a_revoked_web_ui_gets_no_credential() {
    let mut registry = ClientRegistry::default();
    registry.ensure_builtins(100);
    assert!(unpersisted_web_ui_credential(&registry, KEY, 110).is_some());
    let id = registry.clients[0].id;
    registry.revoke(id, 120).unwrap();
    assert!(unpersisted_web_ui_credential(&registry, KEY, 130).is_none());
    assert!(credential_targets("/cfg", &registry).is_empty());
}

#[test]
fn credentials_follow_the_registry() {
    let mut registry = ClientRegistry::default();
    let c = registry.register("ci", 10).unwrap();
    let token = issue_credential(&c, KEY, 10);
    assert!(credential_is_current(&token, &c, KEY));
    assert!(!credential_is_current(&token, &c, b"another key entirely, 32 bytes!"));
    let claims = verify(&token, KEY).unwrap();
    assert_eq!(
        authenticate_in(&registry, &claims).map(|i| i.name),
        Some("ci".to_string())
    );
    let reissued = registry.reissue(c.id, 11).unwrap();
    assert!(!credential_is_current(&token, &reissued, KEY));
    assert!(authenticate_in(&registry, &claims).is_none());
    assert!(check_registry(&registry, c.id, reissued.issued_at).is_some());
}

#[test]
fn claims_whose_sub_is_not_an_id_authenticate_nobody() {
    let registry = ClientRegistry::default();
    let claims = Claims { sub: "nobody".into(), name: "x".into(), iat: 1 };
    assert!(authenticate_in(&registry, &claims).is_none());
}

#[test]
fn managing_clients_needs_verification_on() {
    assert!(signing_key(&AuthMode::Disabled).unwrap_err().contains("disabled"));
    let mode = AuthMode::Enabled { key: KEY.to_vec(), source: KeySource::File };
    assert_eq!(signing_key(&mode).unwrap(), KEY);
    assert!(needs_credential(false, &mode));
    assert!(!needs_credential(true, &mode), "preflights pass");
    assert!(!needs_credential(false, &AuthMode::Disabled));
    assert!(parse_client_id("nope").is_err());
}

#[test]
fn a_builtin_reissue_rewrites_its_file_and_the_live_cookie() {
    let mut registry = ClientRegistry::default();
    registry.ensure_builtins(1);
    let other = registry.register("ci", 2).unwrap();
    let web = &registry.clients[0];
    let sync = credential_sync(web, Some("/cfg"));
    assert_eq!(sync.file.as_deref(), Some("/cfg/clients/web-ui.jwt"));
    assert!(sync.live_web_ui);
    let none = credential_sync(&other, Some("/cfg"));
    assert!(none.file.is_none() && !none.live_web_ui);
    assert!(registry_adoptable(&registry));
    assert!(!registry_adoptable(&ClientRegistry::default()));
}

// -- carriers ----------------------------------------------------------------

fn carriers(headers: Vec<(&str, &str)>, query: Option<&str>) -> RequestCarriers {
    let get = |name: &str| {
        headers
            .iter()
            .find(|(k, _)| k.eq_ignore_ascii_case(name))
            .map(|(_, v)| v.to_string())
    };
    RequestCarriers {
        token_header: get(TOKEN_HEADER),
        authorization: get("authorization"),
        query: query.map(str::to_string),
        sec_fetch_site: get("sec-fetch-site"),
        cookie: get("cookie"),
    }
}

#[test]
fn credentials_are_read_from_every_carrier_in_order() {
    let cookie = format!("{TOKEN_COOKIE}=from-cookie; other=x");
    let req = carriers(
        vec![
            (TOKEN_HEADER, "from-header"),
            ("authorization", "Bearer from-bearer"),
            ("cookie", &cookie),
        ],
        Some("token=from-query"),
    );
    assert_eq!(
        presented_credentials(&req),
        vec!["from-header", "from-bearer", "from-query", "from-cookie"],
    );
}

#[test]
fn a_lowercase_bearer_prefix_is_accepted() {
    let req = carriers(vec![("authorization", "bearer x")], None);
    assert_eq!(presented_credentials(&req), vec!["x"]);
}

#[test]
fn a_non_bearer_authorization_scheme_is_ignored() {
    let req = carriers(vec![("authorization", "Basic abc")], None);
    assert!(presented_credentials(&req).is_empty());
}

#[test]
fn blank_carriers_are_dropped() {
    let req = carriers(
        vec![(TOKEN_HEADER, "   "), ("authorization", "Bearer   ")],
        Some("token="),
    );
    assert!(presented_credentials(&req).is_empty());
}

#[test]
fn the_query_carrier_is_percent_decoded() {
    let req = carriers(vec![], Some("token=a%2Bb&x=1"));
    assert_eq!(presented_credentials(&req), vec!["a+b"]);
}

#[test]
fn the_cookie_is_ignored_for_cross_site_and_same_site_requests() {
    for site in ["cross-site", "same-site"] {
        let cookie = format!("{TOKEN_COOKIE}=c");
        let req = carriers(vec![("cookie", &cookie), ("sec-fetch-site", site)], None);
        assert!(
            presented_credentials(&req).is_empty(),
            "{site} must not use the cookie carrier"
        );
    }
}

#[test]
fn the_cookie_is_used_for_same_origin_none_and_absent_sec_fetch_site() {
    for site in [Some("same-origin"), Some("none"), None] {
        let cookie = format!("{TOKEN_COOKIE}=c");
        let mut headers = vec![("cookie", cookie.as_str())];
        if let Some(s) = site {
            headers.push(("sec-fetch-site", s));
        }
        let req = carriers(headers, None);
        assert!(cookie_carrier_allowed(&req));
        assert_eq!(presented_credentials(&req), vec!["c"], "{site:?}");
    }
}

#[test]
fn query_and_cookie_values_are_found_by_exact_key() {
    assert_eq!(query_param("a=1&token=x%20y&token=z", "token"), Some("x y".into()));
    assert_eq!(query_param("tokenx=1&flag", "token"), None);
    assert_eq!(cookie_value(" a = 1 ;b= 2 ", "b"), Some("2".into()));
    assert_eq!(cookie_value("a=1", "b"), None);
}

#[test]
fn the_first_credential_naming_a_live_client_is_used() {
    let mut registry = ClientRegistry::default();
    let a = registry.register("a", 1).unwrap();
    let b = registry.register("b", 1).unwrap();
    let tok_a = issue_credential(&a, KEY, 1);
    let tok_b = issue_credential(&b, KEY, 1);
    registry.revoke(a.id, 2).unwrap();
    let presented = vec!["garbage".to_string(), tok_a, tok_b];
    match scan_credentials(&presented, KEY, &registry, 0) {
        CredentialScan::Missed { index, id, .. } => {
            assert_eq!(index, 1);
            assert_eq!(id, a.id);
        }
        _ => panic!("the revoked client's credential is a miss"),
    }
    match scan_credentials(&presented, KEY, &registry, 2) {
        CredentialScan::Found(identity) => assert_eq!(identity.name, "b"),
        _ => panic!("the live client's credential is found"),
    }
    assert!(matches!(
        scan_credentials(&presented, KEY, &registry, 3),
        CredentialScan::Exhausted
    ));
}

// -- cookie issuance ---------------------------------------------------------

#[test]
fn loopback_hosts_always_receive_the_cookie() {
    for host in ["localhost", "localhost:1422", "127.0.0.1:1422", "[::1]:80"] {
        assert!(host_allowed(host, &[]), "{host}");
    }
}

#[test]
fn an_unlisted_host_does_not_receive_the_cookie() {
    assert!(!host_allowed("trace.example:1422", &[]));
    assert!(!host_allowed("", &[]));
}

#[test]
fn a_host_matching_an_allowlisted_origin_receives_the_cookie() {
    let origins = vec!["https://trace.example".to_string()];
    assert!(host_allowed("trace.example:1422", &origins));
    assert!(host_allowed("TRACE.EXAMPLE", &origins));
    assert!(!host_allowed("other.example", &origins));
}

#[test]
fn strip_port_handles_ipv6_and_bare_hosts() {
    assert_eq!(strip_port("[::1]:8080"), "::1");
    assert_eq!(strip_port("::1"), "::1");
    assert_eq!(strip_port("host:80"), "host");
    assert_eq!(strip_port("host"), "host");
}

#[test]
fn origin_hosts_lose_their_brackets() {
    assert_eq!(host_of_origin("http://[::1]:1420"), Some("::1".into()));
    assert_eq!(host_of_origin("https://trace.example"), Some("trace.example".into()));
    assert_eq!(host_of_origin("not a uri"), None);
}

#[test]
fn the_cookie_is_httponly_and_samesite_strict() {
    let value = credential_cookie_header("abc").unwrap();
    let text = value.as_str();
    assert!(text.starts_with(&format!("{TOKEN_COOKIE}=abc;")), "{text}");
    assert!(text.contains("HttpOnly"), "{text}");
    assert!(text.contains("SameSite=Strict"), "{text}");
}

#[test]
fn the_cookie_text_is_exact_and_fits_in_a_header() {
    let text = credential_cookie_header("abc").unwrap();
    assert_eq!(text, "codextrace_token=abc; Path=/; HttpOnly; SameSite=Strict");
    assert!(axum::http::HeaderValue::from_str(&text).is_ok());
    assert_eq!(
        shell_cookie(Some("127.0.0.1:1422"), &[], Some("xyz")).as_deref(),
        Some("codextrace_token=xyz; Path=/; HttpOnly; SameSite=Strict")
    );
}

#[test]
fn a_credential_with_header_breaking_characters_yields_no_cookie() {
    assert!(credential_cookie_header("bad\nvalue").is_none());
}

#[test]
fn the_shell_cookie_needs_an_allowed_host_and_a_credential() {
    assert!(shell_cookie(Some("localhost:1422"), &[], Some("abc")).is_some());
    assert!(shell_cookie(Some("evil.example"), &[], Some("abc")).is_none());
    assert!(shell_cookie(None, &[], Some("abc")).is_none());
    assert!(shell_cookie(Some("localhost"), &[], None).is_none());
}

#[test]
fn shell_paths_are_recognised_for_a_304() {
    assert!(is_shell_path("/"));
    assert!(is_shell_path("/index.html"));
    assert!(is_shell_path("/sub/"));
    assert!(!is_shell_path("/assets/app.js"));
}

#[test]
fn a_304_on_a_shell_path_still_counts_as_the_shell() {
    assert!(is_shell_response(None, 304, true));
    assert!(!is_shell_response(None, 304, false), "assets are untouched");
}

#[test]
fn a_200_is_recognised_as_the_shell_by_content_type() {
    assert!(is_shell_response(Some("text/html; charset=utf-8"), 200, false));
    assert!(!is_shell_response(Some("text/javascript"), 200, false));
    assert!(is_html(Some("text/html")));
    assert!(!is_html(None));
}

#[test]
fn only_a_file_backed_key_persists_the_registry() {
    assert_eq!(
        codex_trace::auth::persisted_root(Some("/cfg"), KeySource::File).as_deref(),
        Some("/cfg")
    );
    assert!(codex_trace::auth::persisted_root(Some("/cfg"), KeySource::Ephemeral).is_none());
    assert!(codex_trace::auth::persisted_root(None, KeySource::File).is_none());
}
