use codex_trace::auth::{authenticate_in, AuthMode, KeySource};
use codex_trace::clients::ClientRegistry;
use codex_trace::jwt::verify;
use codex_trace::session::{CodexSession, CodexSessionInfo, CodexTurn, ToolCall};
use codex_trace::state::{
    apply_watched_ongoing, cached_session, cached_sessions, clear_parsed_session,
    parsed_session_fresh, register_client, reissue_client, revoke_client, sessions_cache_fresh,
    store_parsed_session, store_sessions, turn_at, ParsedSessionCache, SessionsCache, SseEvent,
    NO_TURN_AT_INDEX,
};

const KEY: &[u8] = b"0123456789abcdef0123456789abcdef";

fn enabled() -> AuthMode {
    AuthMode::Enabled { key: KEY.to_vec(), source: KeySource::Ephemeral }
}

fn id_text(id: u128) -> String {
    uuid::Uuid::from_u128(id).to_string()
}

#[test]
fn register_returns_a_credential_that_verifies_and_lists_without_it() {
    let mut registry = ClientRegistry::default();
    let issued = register_client(&enabled(), &mut registry, "ci-script", 5).unwrap();
    let claims = verify(&issued.credential, KEY).unwrap();
    assert_eq!(claims.sub, id_text(issued.client.id));
    assert_eq!(claims.name, "ci-script");

    let listed = &registry.clients;
    assert!(listed.iter().any(|c| c.id == issued.client.id));
    let shown = format!("{listed:?}");
    assert!(!shown.contains(&issued.credential), "credentials are never listed");
}

#[test]
fn reissue_and_revoke_take_string_ids_and_reject_bad_ones() {
    let mode = enabled();
    let mut registry = ClientRegistry::default();
    let issued = register_client(&mode, &mut registry, "a", 5).unwrap();
    let id = codex_trace::auth::parse_client_id(&format!(" {} ", id_text(issued.client.id))).unwrap();

    let re = reissue_client(&mode, &mut registry, id, 5).unwrap();
    assert_ne!(re.credential, issued.credential);
    assert!(re.client.issued_at > issued.client.issued_at);

    let revoked = revoke_client(&mode, &mut registry, id, 6).unwrap();
    assert!(revoked.is_revoked());

    assert!(codex_trace::auth::parse_client_id("not-a-uuid")
        .unwrap_err()
        .contains("invalid client id"));
    assert!(revoke_client(&mode, &mut registry, 7, 7).is_err());
}

#[test]
fn a_reissued_credential_authenticates_and_the_old_one_stops() {
    let mode = enabled();
    let mut registry = ClientRegistry::default();
    let first = register_client(&mode, &mut registry, "a", 5).unwrap();
    let second = reissue_client(&mode, &mut registry, first.client.id, 5).unwrap();

    let old = verify(&first.credential, KEY).unwrap();
    let new = verify(&second.credential, KEY).unwrap();
    assert!(authenticate_in(&registry, &new).is_some(), "the new one works");
    assert!(authenticate_in(&registry, &old).is_none(), "the old one is dead");
}

#[test]
fn revoking_one_client_leaves_the_others_working() {
    let mode = enabled();
    let mut registry = ClientRegistry::default();
    let a = register_client(&mode, &mut registry, "a", 5).unwrap();
    let b = register_client(&mode, &mut registry, "b", 5).unwrap();

    revoke_client(&mode, &mut registry, a.client.id, 6).unwrap();

    let a_claims = verify(&a.credential, KEY).unwrap();
    let b_claims = verify(&b.credential, KEY).unwrap();
    assert!(authenticate_in(&registry, &a_claims).is_none());
    assert!(authenticate_in(&registry, &b_claims).is_some());
}

#[test]
fn a_duplicate_name_is_rejected() {
    let mode = enabled();
    let mut registry = ClientRegistry::default();
    register_client(&mode, &mut registry, "dup", 1).unwrap();
    assert!(register_client(&mode, &mut registry, "DUP", 2).is_err());
    assert_eq!(registry.clients.len(), 1);
}

#[test]
fn disabled_auth_cannot_issue_credentials() {
    let mut registry = ClientRegistry::default();
    let err = register_client(&AuthMode::Disabled, &mut registry, "a", 1).unwrap_err();
    assert!(err.contains("disabled"), "{err}");
    assert!(registry.clients.is_empty());
}

fn session_with_turns(n: usize) -> CodexSession {
    CodexSession {
        turns: (0..n).map(|i| CodexTurn::new(format!("turn-{i}"))).collect(),
        ..Default::default()
    }
}

#[test]
fn load_turn_reports_an_index_past_the_end() {
    let session = session_with_turns(2);
    let err = turn_at(&session, 99).unwrap_err();
    assert!(err.starts_with(NO_TURN_AT_INDEX), "{err}");
    assert_eq!(err, "no turn at index 99");
    assert_eq!(turn_at(&session, 1).unwrap().turn_id, "turn-1");
}

#[test]
fn the_sessions_cache_answers_only_its_own_directory_for_two_seconds() {
    assert!(sessions_cache_fresh("/a", "/a", 1999));
    assert!(!sessions_cache_fresh("/a", "/a", 2000));
    assert!(!sessions_cache_fresh("/a", "/b", 0));
}

#[test]
fn an_unreadable_mtime_re_parses_rather_than_serving_stale() {
    assert!(parsed_session_fresh("/s", Some((5, 0)), "/s", Some((5, 0))));
    assert!(!parsed_session_fresh("/s", Some((5, 0)), "/s", None));
    assert!(!parsed_session_fresh("/s", None, "/s", None));
    assert!(!parsed_session_fresh("/s", Some((5, 0)), "/s", Some((6, 0))));
    assert!(!parsed_session_fresh("/s", Some((5, 0)), "/t", Some((5, 0))));
}

#[test]
fn the_watched_session_carries_its_live_flag() {
    let mut sessions = vec![
        CodexSessionInfo { path: "/a".into(), ..Default::default() },
        CodexSessionInfo { path: "/b".into(), ..Default::default() },
    ];
    apply_watched_ongoing(&mut sessions, &Some(("/b".into(), true)));
    assert!(!sessions[0].is_ongoing);
    assert!(sessions[1].is_ongoing);
    apply_watched_ongoing(&mut sessions, &None);
    assert!(sessions[1].is_ongoing);
    let e = SseEvent::new("picker-refresh", "{}");
    assert_eq!((e.event.as_str(), e.data.as_str()), ("picker-refresh", "{}"));
}

/// A two-turn session whose second turn carries a large tool output, so a
/// test can tell the index apart from the bodies by size alone.
fn paged_session() -> CodexSession {
    let mut second = CodexTurn::new("turn-2".to_string());
    second.tool_calls = vec![ToolCall {
        call_id: "c1".into(),
        name: "shell".into(),
        arguments: Some(r#"{"command":["ls"]}"#.into()),
        output: Some("x".repeat(50_000)),
    }];
    CodexSession {
        id: "paged".into(),
        turns: vec![CodexTurn::new("turn-1".to_string()), second],
        ..Default::default()
    }
}

#[test]
fn the_session_index_carries_summaries_but_no_turn_bodies() {
    let mut session = paged_session();

    let index = codex_trace::summary::SessionIndex::of_cached(&mut session);

    assert_eq!(index.summaries.len(), 2);
    assert!(index.session.turns.is_empty());
    let shown = format!("{index:?}");
    assert!(!shown.contains(&"x".repeat(1_000)), "the index must not carry tool output");
}

#[test]
fn load_turn_returns_the_bodies_the_index_left_out() {
    let session = paged_session();

    let turn = turn_at(&session, 1).unwrap();

    assert_eq!(turn.tool_calls.len(), 1);
    assert_eq!(turn.tool_calls[0].output.as_deref().unwrap().len(), 50_000);
}

#[test]
fn reading_the_index_leaves_the_cached_bodies_in_place() {
    let mut session = paged_session();

    let index = codex_trace::summary::SessionIndex::of_cached(&mut session);
    assert_eq!(index.summaries.len(), 2);
    assert!(index.session.turns.is_empty(), "the index carries no bodies");

    // Straight after the index read, the cached session still has the bodies.
    let turn = turn_at(&session, 1).unwrap();
    assert_eq!(turn.tool_calls[0].output.as_deref().unwrap().len(), 50_000);

    // And the turns are still there for a second index read.
    assert_eq!(codex_trace::summary::SessionIndex::of_cached(&mut session).summaries.len(), 2);
}

#[test]
fn discovered_sessions_are_served_from_memory_until_stale() {
    let mut cache: Option<SessionsCache> = None;
    assert!(cached_sessions(&cache, "/s", 0).is_none());
    let one = vec![CodexSessionInfo::default()];
    assert!(store_sessions(&mut cache, "/s", 1000, Ok(one)).is_ok());
    assert_eq!(cached_sessions(&cache, "/s", 2999).map(|v| v.len()), Some(1));
    assert!(cached_sessions(&cache, "/s", 3000).is_none(), "two seconds old is stale");
    assert!(cached_sessions(&cache, "/t", 1500).is_none(), "another directory is discovered");
    assert_eq!(
        store_sessions(&mut cache, "/t", 1500, Err("gone".to_owned())),
        Err("gone".to_owned())
    );
    assert_eq!(cache.as_ref().map(|c| c.dir.as_str()), Some("/s"), "an error keeps the cache");
}

#[test]
fn a_parsed_session_is_reused_until_its_file_changes_or_it_is_cleared() {
    let mut cache: Option<ParsedSessionCache> = None;
    assert!(store_parsed_session(&mut cache, "/a.jsonl", Some((5, 0)), Ok(session_with_turns(2))).is_ok());
    assert_eq!(cached_session(&cache, "/a.jsonl", Some((5, 0))).map(|s| s.turns.len()), Some(2));
    assert!(cached_session(&cache, "/a.jsonl", Some((6, 0))).is_none(), "a changed file is re-parsed");
    assert!(cached_session(&cache, "/a.jsonl", None).is_none(), "an unreadable mtime is re-parsed");
    assert!(cached_session(&cache, "/b.jsonl", Some((5, 0))).is_none());
    assert!(store_parsed_session(&mut cache, "/b.jsonl", Some((7, 0)), Err("bad".to_owned())).is_err());
    assert!(cached_session(&cache, "/a.jsonl", Some((5, 0))).is_some(), "an error keeps the cache");
    clear_parsed_session(&mut cache);
    assert!(cached_session(&cache, "/a.jsonl", Some((5, 0))).is_none());
}
