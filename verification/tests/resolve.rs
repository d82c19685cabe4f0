use codex_trace::auth::{credential_is_current, hex_to_bytes, issue_credential, AuthMode, KeySource, ResolvedAuth};
use codex_trace::clients::{ClientRegistry, WEB_UI};
use codex_trace::resolve::{resolve_step, Phase, Resolution, ResolveAction, ResolveEvent};

const HEX_KEY: &str = "00112233445566778899aabbccddeeff";
const NOW: i64 = 1_700_000_000;

fn start(env: Option<&str>, root: Option<&str>) -> (Resolution, ResolveAction) {
    let mut state = Resolution::new();
    let action = resolve_step(
        &mut state,
        ResolveEvent::Start {
            env_auth: env.map(str::to_owned),
            root: root.map(str::to_owned),
            now: NOW,
        },
    );
    (state, action)
}

fn done(action: ResolveAction) -> ResolvedAuth {
    match action {
        ResolveAction::Done(r) => r,
        _ => panic!("expected the resolution to be over"),
    }
}

fn path_of(action: &ResolveAction) -> String {
    match action {
        ResolveAction::ReadSecret { path }
        | ResolveAction::ReadRegistry { path }
        | ResolveAction::SaveRegistry { path }
        | ResolveAction::ReadCredential { path }
        | ResolveAction::WriteCredential { path, .. } => path.clone(),
        _ => panic!("expected a file action"),
    }
}

fn source_of(r: &ResolvedAuth) -> Option<KeySource> {
    match &r.mode {
        AuthMode::Enabled { source, .. } => Some(*source),
        AuthMode::Disabled => None,
    }
}

/// Start with a config root and a good key file: the registry is read next.
fn to_registry() -> Resolution {
    let (mut state, action) = start(None, Some("/cfg"));
    assert_eq!(path_of(&action), "/cfg/api-secret");
    let action = resolve_step(
        &mut state,
        ResolveEvent::SecretRead { secret: Ok(HEX_KEY.to_owned()), now: NOW },
    );
    assert_eq!(path_of(&action), "/cfg/clients.json");
    assert!(matches!(action, ResolveAction::ReadRegistry { .. }));
    state
}

#[test]
fn off_disables_verification_and_keeps_the_root() {
    let (state, action) = start(Some("  OFF "), Some("/cfg"));
    let r = done(action);
    assert!(matches!(r.mode, AuthMode::Disabled));
    assert_eq!(r.config_root.as_deref(), Some("/cfg"));
    assert!(r.registry.clients.is_empty());
    assert!(r.web_ui_credential.is_none());
    assert!(r.warnings.is_empty());
    assert_eq!(state.phase, Phase::Finished);
}

#[test]
fn no_config_directory_runs_on_a_one_off_key() {
    let (_, action) = start(None, None);
    let r = done(action);
    match &r.mode {
        AuthMode::Enabled { key, source } => {
            assert_eq!(*source, KeySource::Ephemeral);
            assert_eq!(key.len(), 32);
        }
        AuthMode::Disabled => panic!("must fail closed"),
    }
    assert!(r.config_root.is_none());
    assert_eq!(r.warnings, vec!["no config directory available".to_owned()]);
    assert_eq!(r.registry.clients.len(), 1);
    assert_eq!(r.registry.clients[0].name, WEB_UI);
    assert!(r.web_ui_credential.is_some());
}

#[test]
fn an_unusable_key_file_fails_closed() {
    let (mut state, _) = start(Some("on"), Some("/cfg"));
    let r = done(resolve_step(
        &mut state,
        ResolveEvent::SecretRead { secret: Err("read-only file system".to_owned()), now: NOW },
    ));
    assert_eq!(source_of(&r), Some(KeySource::Ephemeral));
    assert!(r.config_root.is_none());
    assert_eq!(
        r.warnings,
        vec!["could not persist the signing key (read-only file system)".to_owned()]
    );

    let (mut state, _) = start(None, Some("/cfg"));
    let r = done(resolve_step(
        &mut state,
        ResolveEvent::SecretRead { secret: Ok("not hex".to_owned()), now: NOW },
    ));
    assert_eq!(source_of(&r), Some(KeySource::Ephemeral));
    assert_eq!(
        r.warnings,
        vec!["/cfg/api-secret is not a hex key; using a one-off key for this run".to_owned()]
    );
}

#[test]
fn a_first_run_saves_the_registry_and_writes_the_web_ui_credential() {
    let mut state = to_registry();
    let action = resolve_step(
        &mut state,
        ResolveEvent::RegistryRead { registry: Ok(ClientRegistry::default()), now: NOW },
    );
    assert!(matches!(action, ResolveAction::SaveRegistry { .. }));
    assert_eq!(path_of(&action), "/cfg/clients.json");
    assert_eq!(state.registry().clients.len(), 1);
    assert_eq!(state.registry().clients[0].name, WEB_UI);

    let action = resolve_step(&mut state, ResolveEvent::Saved { saved: Ok(()), now: NOW });
    assert!(matches!(action, ResolveAction::ReadCredential { .. }));
    assert_eq!(path_of(&action), "/cfg/clients/web-ui.jwt");

    let action = resolve_step(&mut state, ResolveEvent::CredentialRead { existing: None, now: NOW });
    let contents = match &action {
        ResolveAction::WriteCredential { path, contents } => {
            assert_eq!(path, "/cfg/clients/web-ui.jwt");
            contents.clone()
        }
        _ => panic!("a missing credential file must be written"),
    };
    assert!(contents.ends_with('\n'));

    let r = done(resolve_step(
        &mut state,
        ResolveEvent::CredentialWritten { written: Ok(()), now: NOW },
    ));
    assert_eq!(source_of(&r), Some(KeySource::File));
    assert_eq!(r.config_root.as_deref(), Some("/cfg"));
    assert!(r.warnings.is_empty());
    let credential = r.web_ui_credential.clone().unwrap();
    assert_eq!(format!("{credential}\n"), contents);
    let key = hex_to_bytes(HEX_KEY).unwrap();
    assert!(credential_is_current(&credential, &r.registry.clients[0], &key));
}

#[test]
fn an_unreadable_registry_is_moved_aside_not_overwritten() {
    let mut state = to_registry();
    let action = resolve_step(
        &mut state,
        ResolveEvent::RegistryRead { registry: Err("cannot parse /cfg/clients.json".to_owned()), now: NOW },
    );
    match &action {
        ResolveAction::MoveAside { from, to } => {
            assert_eq!(from, "/cfg/clients.json");
            assert_eq!(to, "/cfg/clients.json.corrupt-1700000000");
        }
        _ => panic!("an unreadable registry must be moved aside"),
    }
    let action = resolve_step(&mut state, ResolveEvent::Moved { moved: Ok(()), now: NOW });
    assert!(matches!(action, ResolveAction::SaveRegistry { .. }));
    assert_eq!(state.registry().clients.len(), 1);
    let action = resolve_step(
        &mut state,
        ResolveEvent::Saved { saved: Err("disk full".to_owned()), now: NOW },
    );
    assert!(matches!(action, ResolveAction::ReadCredential { .. }));
    let action = resolve_step(&mut state, ResolveEvent::CredentialRead { existing: None, now: NOW });
    assert!(matches!(action, ResolveAction::WriteCredential { .. }));
    let r = done(resolve_step(
        &mut state,
        ResolveEvent::CredentialWritten { written: Err("permission denied".to_owned()), now: NOW },
    ));
    assert_eq!(
        r.warnings,
        vec![
            "cannot parse /cfg/clients.json; moved it to /cfg/clients.json.corrupt-1700000000 and \
             started a fresh client registry — every previously issued credential is now invalid"
                .to_owned(),
            "could not save the client registry: disk full".to_owned(),
            "could not write /cfg/clients/web-ui.jwt: permission denied".to_owned(),
        ]
    );
    assert!(r.web_ui_credential.is_some());
}

#[test]
fn a_registry_with_its_builtins_is_not_saved_and_a_current_file_is_kept() {
    let mut registry = ClientRegistry::default();
    registry.ensure_builtins(NOW - 100);
    let key = hex_to_bytes(HEX_KEY).unwrap();
    let on_file = issue_credential(&registry.clients[0], &key, NOW - 50);

    let mut state = to_registry();
    let action = resolve_step(&mut state, ResolveEvent::RegistryRead { registry: Ok(registry), now: NOW });
    assert!(matches!(action, ResolveAction::ReadCredential { .. }));
    let r = done(resolve_step(
        &mut state,
        ResolveEvent::CredentialRead { existing: Some(on_file.clone()), now: NOW },
    ));
    assert_eq!(r.web_ui_credential, Some(on_file));
    assert!(r.warnings.is_empty());
}

#[test]
fn a_persisted_run_with_a_revoked_web_ui_hands_out_no_credential() {
    let mut registry = ClientRegistry::default();
    registry.ensure_builtins(NOW - 100);
    registry.clients[0].revoked_at = Some(NOW - 10);
    let mut state = to_registry();
    let r = done(resolve_step(
        &mut state,
        ResolveEvent::RegistryRead { registry: Ok(registry), now: NOW },
    ));
    assert_eq!(source_of(&r), Some(KeySource::File));
    assert!(r.web_ui_credential.is_none());
}

#[test]
fn an_event_out_of_order_changes_nothing() {
    let mut state = to_registry();
    let action = resolve_step(&mut state, ResolveEvent::Saved { saved: Ok(()), now: NOW });
    assert!(matches!(action, ResolveAction::Unexpected));
    assert_eq!(state.phase, Phase::Registry);
    let (mut finished, _) = start(Some("off"), None);
    let action = resolve_step(
        &mut finished,
        ResolveEvent::Start { env_auth: None, root: None, now: NOW },
    );
    assert!(matches!(action, ResolveAction::Unexpected));
}

fn web_ui_sub_and_iat(r: &ResolvedAuth) -> (String, i64) {
    let key = match &r.mode {
        AuthMode::Enabled { key, .. } => key.clone(),
        AuthMode::Disabled => panic!("enabled expected"),
    };
    let credential = r.web_ui_credential.clone().expect("a web UI credential");
    let claims = codex_trace::jwt::verify(&credential, &key).expect("it verifies under the key");
    (claims.sub, claims.iat)
}

#[test]
fn a_one_off_setup_holds_exactly_the_builtin_web_ui_and_its_credential() {
    for r in [
        done(start(None, None).1),
        {
            let (mut state, _) = start(None, Some("/cfg"));
            done(resolve_step(
                &mut state,
                ResolveEvent::SecretRead { secret: Ok("definitely not hex".to_owned()), now: NOW },
            ))
        },
    ] {
        assert_eq!(source_of(&r), Some(KeySource::Ephemeral));
        assert_eq!(r.registry.clients.len(), 1);
        let w = &r.registry.clients[0];
        assert_eq!(w.name, WEB_UI);
        assert!(w.builtin && w.revoked_at.is_none());
        assert_eq!((w.created_at, w.issued_at), (NOW, NOW));
        let (sub, iat) = web_ui_sub_and_iat(&r);
        assert_eq!(sub, uuid::Uuid::from_u128(w.id).to_string());
        assert!(iat >= w.issued_at);
    }
}

/// One persisted run over a directory holding `registry` (read from
/// `clients.json`) and `on_file` (read from `clients/web-ui.jwt`); returns
/// the result and what was written to the credential file, if anything.
fn persisted_run(registry: ClientRegistry, on_file: Option<String>) -> (ResolvedAuth, Option<String>) {
    let mut state = to_registry();
    let mut action = resolve_step(&mut state, ResolveEvent::RegistryRead { registry: Ok(registry), now: NOW });
    if matches!(action, ResolveAction::SaveRegistry { .. }) {
        action = resolve_step(&mut state, ResolveEvent::Saved { saved: Ok(()), now: NOW });
    }
    assert!(matches!(action, ResolveAction::ReadCredential { .. }));
    let action = resolve_step(&mut state, ResolveEvent::CredentialRead { existing: on_file, now: NOW });
    match action {
        ResolveAction::WriteCredential { contents, .. } => {
            let r = done(resolve_step(
                &mut state,
                ResolveEvent::CredentialWritten { written: Ok(()), now: NOW },
            ));
            (r, Some(contents))
        }
        other => (done(other), None),
    }
}

#[test]
fn a_second_run_over_an_unchanged_directory_reuses_the_key_and_credential() {
    let (first, written) = persisted_run(ClientRegistry::default(), None);
    let written = written.expect("a first run writes the credential file");
    let on_file = written.trim_end().to_owned();
    assert_eq!(first.web_ui_credential.as_deref(), Some(on_file.as_str()));
    let (second, rewritten) = persisted_run(first.registry.clone(), Some(on_file.clone()));
    assert!(rewritten.is_none(), "a current credential file is kept");
    assert_eq!(second.web_ui_credential, first.web_ui_credential);
    assert_eq!(second.registry, first.registry);
    match (&first.mode, &second.mode) {
        (AuthMode::Enabled { key: k1, .. }, AuthMode::Enabled { key: k2, .. }) => assert_eq!(k1, k2),
        _ => panic!("both runs are enabled"),
    }
}

#[test]
fn a_stale_credential_file_is_rewritten_and_the_new_one_returned() {
    let (first, _) = persisted_run(ClientRegistry::default(), None);
    let (r, written) = persisted_run(first.registry.clone(), Some("not.a.credential".to_owned()));
    let written = written.expect("a stale file is rewritten");
    let c = r.web_ui_credential.clone().unwrap();
    assert_ne!(c, "not.a.credential");
    assert_eq!(format!("{c}\n"), written);
    let (sub, iat) = web_ui_sub_and_iat(&r);
    assert_eq!(sub, uuid::Uuid::from_u128(r.registry.clients[0].id).to_string());
    assert!(iat >= r.registry.clients[0].issued_at);
}

#[test]
fn the_registry_saved_after_a_move_aside_is_the_fresh_builtin_alone() {
    let mut state = to_registry();
    resolve_step(
        &mut state,
        ResolveEvent::RegistryRead { registry: Err("cannot parse".to_owned()), now: NOW },
    );
    resolve_step(&mut state, ResolveEvent::Moved { moved: Ok(()), now: NOW + 1 });
    let saved = state.registry();
    assert_eq!(saved.clients.len(), 1);
    assert_eq!(saved.clients[0].name, WEB_UI);
    assert!(saved.clients[0].builtin && saved.clients[0].revoked_at.is_none());
    assert_eq!(saved.clients[0].issued_at, NOW + 1);
}
