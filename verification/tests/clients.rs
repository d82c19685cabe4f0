use codex_trace::auth::parse_client_id;
use codex_trace::clients::{now, unix_secs, validate_name, ClientRegistry, MAX_NAME_LEN, WEB_UI};

fn uuid_text(id: u128) -> String {
    uuid::Uuid::from_u128(id).to_string()
}

#[test]
fn ensure_builtins_adds_web_ui_once() {
    let mut reg = ClientRegistry::default();
    assert!(reg.ensure_builtins(100));
    assert_eq!(reg.clients.len(), 1);
    assert!(reg.clients.iter().all(|c| c.builtin));
    assert!(reg.find_by_name("web-ui").is_some());
    assert!(reg.find_by_name("WEB-UI").is_some(), "lookup is case-insensitive");
    assert!(!reg.ensure_builtins(200), "second call is a no-op");
    assert_eq!(reg.clients.len(), 1);
}

#[test]
fn register_validates_and_dedupes_names() {
    let mut reg = ClientRegistry::default();
    reg.ensure_builtins(1);
    let c = reg.register("  ci-script ", 5).unwrap();
    assert_eq!(c.name, "ci-script");
    assert!(!c.builtin);
    assert_eq!((c.created_at, c.issued_at, c.revoked_at), (5, 5, None));

    assert!(reg.register("CI-SCRIPT", 6).is_err(), "duplicate, any case");
    assert!(reg.register("web-ui", 6).is_err(), "built-in name is taken");
}

#[test]
fn validate_name_rejects_empty_overlong_and_control_characters() {
    assert!(validate_name("   ").is_err());
    assert!(validate_name(&"a".repeat(MAX_NAME_LEN + 1)).is_err());
    assert!(validate_name("bad\nname").is_err());
    assert!(validate_name(&"a".repeat(MAX_NAME_LEN)).is_ok());
}

#[test]
fn validate_name_counts_characters_not_bytes() {
    // 64 multi-byte characters is 64 characters, not 192 bytes.
    assert!(validate_name(&"é".repeat(MAX_NAME_LEN)).is_ok());
    assert!(validate_name(&"é".repeat(MAX_NAME_LEN + 1)).is_err());
}

#[test]
fn revoke_is_idempotent_and_keeps_the_first_timestamp() {
    let mut reg = ClientRegistry::default();
    let c = reg.register("x", 1).unwrap();
    assert_eq!(reg.revoke(c.id, 10).unwrap().revoked_at, Some(10));
    assert_eq!(
        reg.revoke(c.id, 20).unwrap().revoked_at,
        Some(10),
        "a second revoke does not move the timestamp"
    );
}

#[test]
fn reissue_clears_revocation_and_advances_issued_at() {
    let mut reg = ClientRegistry::default();
    let c = reg.register("x", 1).unwrap();
    reg.revoke(c.id, 10).unwrap();
    let back = reg.reissue(c.id, 20).unwrap();
    assert_eq!(back.revoked_at, None);
    assert_eq!(back.issued_at, 20);
}

#[test]
fn reissue_always_advances_even_within_the_same_second() {
    let mut reg = ClientRegistry::default();
    let c = reg.register("x", 100).unwrap();
    let first = reg.reissue(c.id, 100).unwrap().issued_at;
    let second = reg.reissue(c.id, 100).unwrap().issued_at;
    assert!(first > 100, "same-second reissue still invalidates");
    assert!(second > first, "and the next one advances again");
}

#[test]
fn reissue_never_moves_issued_at_backwards() {
    let mut reg = ClientRegistry::default();
    let c = reg.register("x", 1000).unwrap();
    // A clock that jumped backwards must not resurrect older credentials.
    assert!(reg.reissue(c.id, 5).unwrap().issued_at > 1000);
}

#[test]
fn mutating_an_unknown_id_is_an_error() {
    let mut reg = ClientRegistry::default();
    let missing = 0x1234_5678_9abc_4def_8123_456789abcdefu128;
    assert!(reg.revoke(missing, 1).is_err());
    assert!(reg.reissue(missing, 1).is_err());
}

#[test]
fn validate_name_trims_and_names_each_refusal() {
    assert_eq!(validate_name("  ok  ").unwrap(), "ok");
    assert_eq!(validate_name("").unwrap_err(), "client name must not be empty");
    assert_eq!(
        validate_name(&"b".repeat(65)).unwrap_err(),
        "client name must be at most 64 characters"
    );
    assert_eq!(
        validate_name("tab\there").unwrap_err(),
        "client name must not contain control characters"
    );
}

#[test]
fn an_unknown_id_is_named_in_the_error() {
    let mut reg = ClientRegistry::default();
    let id = 0x0123_4567_89ab_4cde_8f01_23456789abcdu128;
    assert_eq!(
        reg.revoke(id, 1).unwrap_err(),
        "unknown client 01234567-89ab-4cde-8f01-23456789abcd"
    );
}

#[test]
fn a_duplicate_name_is_quoted_in_the_error() {
    let mut reg = ClientRegistry::default();
    reg.register("dup", 1).unwrap();
    assert_eq!(
        reg.register(" DUP ", 2).unwrap_err(),
        "a client named \"DUP\" already exists"
    );
}

#[test]
fn find_returns_the_client_with_that_id() {
    let mut reg = ClientRegistry::default();
    let a = reg.register("a", 1).unwrap();
    let b = reg.register("b", 2).unwrap();
    assert_eq!(reg.find(a.id).unwrap().name, "a");
    assert_eq!(reg.find(b.id).unwrap().name, "b");
    assert!(reg.find(0).is_none());
}

#[test]
fn new_ids_are_version_4_uuids() {
    let mut reg = ClientRegistry::default();
    let c = reg.register("x", 1).unwrap();
    let text = uuid_text(c.id);
    assert_eq!(text.len(), 36);
    assert_eq!(&text[14..15], "4");
    assert!(matches!(&text[19..20], "8" | "9" | "a" | "b"));
    assert_eq!(WEB_UI, "web-ui");
}

#[test]
fn a_client_id_parses_back_from_its_text() {
    let id = 0x6f1d4a3e_0000_4000_8000_000000000001u128;
    let text = uuid_text(id);
    assert_eq!(text, "6f1d4a3e-0000-4000-8000-000000000001");
    assert_eq!(parse_client_id(&format!("  {text} ")), Ok(id));
    assert_eq!(
        parse_client_id("not-a-uuid").unwrap_err(),
        "invalid client id: not-a-uuid"
    );
}

#[test]
fn now_is_after_2020() {
    assert!(now() > 1_577_836_800);
}

#[test]
fn a_clock_reading_becomes_signed_seconds() {
    assert_eq!(unix_secs(Some(1_700_000_000)), 1_700_000_000);
    assert_eq!(unix_secs(None), 0, "a clock before the epoch reads as 0");
    assert_eq!(unix_secs(Some(u64::MAX)), -1, "as `as i64` casts");
}
