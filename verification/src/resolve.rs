//! Startup resolution of client verification as a step machine.
//!
//! Resolution reads the key file, then the client registry, then each built-in
//! client's credential file, and decides after each read what to do next. The
//! caller owns the files: it asks [`resolve_step`] for the next action,
//! performs it, and feeds the outcome back as the next event, until the action
//! is `Done` with the [`ResolvedAuth`] the server runs on.
//!
//! What the machine promises, step by step (see `resolve_step`):
//! - it fails closed: every run that `CODEXTRACE_API_AUTH` does not turn off
//!   ends with verification enabled on a key of at least 16 bytes;
//! - a registry that cannot be read is moved aside, never written over;
//! - the registry is saved only when the built-in clients were added to it;
//! - the web UI gets a credential exactly when its client is active.

use vstd::prelude::*;

use crate::auth::{
    auth_disabled_by, builtin_active, builtin_credential, choose_signing_key, claims_current,
    corrupt_backup_path, corrupt_registry_warning, corrupt_registry_warning_of, credential_targets,
    disabled_by, disabled_resolution, file_key_of, key_warning_of, later, path_join, persisted_root,
    registry_path, secret_path, unpersisted_web_ui_credential, AuthMode, CredentialTarget,
    KeySource, ResolvedAuth,
};
use crate::clients::{
    builtin_client, is_v4_id, position_of_name, uuid_hyphenated, ClientRegistry, ClientView, WEB_UI,
};
use crate::jwt::opt_string;
use crate::text::{chars_of, push_all, string_of};

verus! {

/// Where a resolution stands: which outcome it waits for.
#[derive(Clone, Copy, Debug, PartialEq, Eq, Structural)]
pub enum Phase {
    /// Nothing read yet; waits for `Start`.
    Begin,
    /// Waits for the key file (`SecretRead`).
    Secret,
    /// Waits for the registry (`RegistryRead`).
    Registry,
    /// Waits for the unreadable registry to be moved aside (`Moved`).
    Moving,
    /// Waits for the registry to be saved (`Saved`).
    Saving,
    /// Waits for the next built-in credential file (`CredentialRead`).
    Credentials,
    /// Waits for a built-in credential file to be written (`CredentialWritten`).
    Writing,
    /// Resolution is over.
    Finished,
}

/// The outcome of the last action, handed back by the caller. Each carries
/// the clock reading (Unix seconds) taken when it was observed.
pub enum ResolveEvent {
    /// The raw `CODEXTRACE_API_AUTH` value and the config directory, if any.
    Start { env_auth: Option<String>, root: Option<String>, now: i64 },
    /// The key file's trimmed text (created first if missing), or why it
    /// could not be had.
    SecretRead { secret: Result<String, String>, now: i64 },
    /// The registry as loaded (empty when the file does not exist), or why
    /// it could not be read or parsed.
    RegistryRead { registry: Result<ClientRegistry, String>, now: i64 },
    /// Whether moving the unreadable registry aside worked.
    Moved { moved: Result<(), String>, now: i64 },
    /// Whether saving the registry worked.
    Saved { saved: Result<(), String>, now: i64 },
    /// The trimmed text of a built-in client's credential file, if readable.
    CredentialRead { existing: Option<String>, now: i64 },
    /// Whether writing a built-in client's credential file worked.
    CredentialWritten { written: Result<(), String>, now: i64 },
}

/// What the caller does next.
pub enum ResolveAction {
    /// Read (creating when missing) the key file at `path`.
    ReadSecret { path: String },
    /// Load the registry at `path`.
    ReadRegistry { path: String },
    /// Rename the unreadable registry `from` to `to`.
    MoveAside { from: String, to: String },
    /// Save the resolution's registry (`Resolution::registry`) to `path`.
    SaveRegistry { path: String },
    /// Read a built-in client's credential file.
    ReadCredential { path: String },
    /// Write `contents` to a built-in client's credential file (owner-only).
    WriteCredential { path: String, contents: String },
    /// Resolution is over: run on this.
    Done(ResolvedAuth),
    /// The event does not answer the action asked for; nothing changed.
    Unexpected,
}

/// The state of one resolution.
pub struct Resolution {
    pub phase: Phase,
    /// The config directory (set from `Start`).
    pub root: Option<String>,
    pub key: Vec<u8>,
    pub source: KeySource,
    pub registry: ClientRegistry,
    pub warnings: Vec<String>,
    /// Why the registry could not be read, while it is being moved aside.
    pub corrupt_error: String,
    /// Where the unreadable registry is being moved.
    pub backup: String,
    /// The built-in clients whose credential files are checked.
    pub targets: Vec<CredentialTarget>,
    /// How many of `targets` have been handled.
    pub next: usize,
    /// The file being written in `Writing`.
    pub write_path: String,
    /// The `web-ui` client's credential, once its file has been handled.
    pub web_ui: Option<String>,
}

/// `targets` are the active built-in clients of `registry`, in order, with
/// their credential files under `root` (what `credential_targets` returns).
pub open spec fn targets_ok(root: Seq<char>, registry: Seq<ClientView>, t: Seq<CredentialTarget>) -> bool {
    &&& forall|k: int|
        0 <= k < t.len() ==> {
            let x = #[trigger] t[k];
            &&& x.index < registry.len()
            &&& builtin_active(registry[x.index as int])
            &&& x.path@ == path_join(path_join(root, "clients"@), registry[x.index as int].name + ".jwt"@)
            &&& x.is_web_ui == (registry[x.index as int].name == WEB_UI@)
        }
    &&& forall|k: int, j: int| 0 <= k < j < t.len() ==> t[k].index < t[j].index
    &&& forall|i: int|
        0 <= i < registry.len() && builtin_active(#[trigger] registry[i]) ==> exists|k: int|
            0 <= k < t.len() && t[k].index == i
}

/// One of the first `n` targets is the web UI.
pub open spec fn web_ui_among(t: Seq<CredentialTarget>, n: int) -> bool {
    exists|k: int| 0 <= k < n && #[trigger] t[k].is_web_ui
}

/// An active built-in client named `web-ui` is registered.
pub open spec fn web_ui_active(r: Seq<ClientView>) -> bool {
    exists|i: int| 0 <= i < r.len() && builtin_active(#[trigger] r[i]) && r[i].name == WEB_UI@
}

/// Whether the web UI is owed a credential: with a persisted registry, when
/// its built-in client is active; without one, when the client named
/// `web-ui` (in any case) is not revoked.
pub open spec fn web_ui_due(persisted: bool, r: Seq<ClientView>) -> bool {
    if persisted {
        web_ui_active(r)
    } else {
        position_of_name(r, WEB_UI@) matches Some(i) && r[i].revoked_at is None
    }
}

/// `c` is a credential of `client` under `key`: either it verifies under the
/// key to the client's id at an `iat` no earlier than its last (re)issue, or
/// it was signed with the key for the client's id and name at such an `iat`.
pub open spec fn credential_for(c: Seq<char>, key: Seq<u8>, client: ClientView) -> bool {
    ||| claims_current(crate::jwt::verify_spec(c, key), client)
    ||| exists|iat: i64|
        iat >= client.issued_at && #[trigger] crate::jwt::signed_by(
            c,
            key,
            uuid_hyphenated(client.id),
            client.name,
            iat,
        )
}

/// `c` is a credential, under `key`, of a non-revoked client named `web-ui`.
pub open spec fn web_ui_credential_ok(c: Seq<char>, key: Seq<u8>, r: Seq<ClientView>) -> bool {
    exists|i: int|
        0 <= i < r.len() && r[i].name == WEB_UI@ && r[i].revoked_at is None && #[trigger] credential_for(
            c,
            key,
            r[i],
        )
}

/// A fresh registry: the built-in `web-ui` client alone, registered at `now`.
pub open spec fn fresh_registry(r: Seq<ClientView>, now: i64) -> bool {
    &&& r.len() == 1
    &&& r[0] == builtin_client(r[0].id, WEB_UI@, now)
    &&& is_v4_id(r[0].id)
}

/// The event answers what a resolution in `phase` waits for.
pub open spec fn expects(phase: Phase, event: ResolveEvent) -> bool {
    match (phase, event) {
        (Phase::Begin, ResolveEvent::Start { .. }) => true,
        (Phase::Secret, ResolveEvent::SecretRead { .. }) => true,
        (Phase::Registry, ResolveEvent::RegistryRead { .. }) => true,
        (Phase::Moving, ResolveEvent::Moved { .. }) => true,
        (Phase::Saving, ResolveEvent::Saved { .. }) => true,
        (Phase::Credentials, ResolveEvent::CredentialRead { .. }) => true,
        (Phase::Writing, ResolveEvent::CredentialWritten { .. }) => true,
        _ => false,
    }
}

/// The clock reading an event carries.
pub open spec fn event_now(event: ResolveEvent) -> i64 {
    match event {
        ResolveEvent::Start { now, .. } => now,
        ResolveEvent::SecretRead { now, .. } => now,
        ResolveEvent::RegistryRead { now, .. } => now,
        ResolveEvent::Moved { now, .. } => now,
        ResolveEvent::Saved { now, .. } => now,
        ResolveEvent::CredentialRead { now, .. } => now,
        ResolveEvent::CredentialWritten { now, .. } => now,
    }
}

/// Where the registry lives under a config root.
pub open spec fn registry_file(root: Seq<char>) -> Seq<char> {
    path_join(root, "clients.json"@)
}

/// Where an unreadable registry is moved at `now`.
pub open spec fn backup_file(root: Seq<char>, now: i64) -> Seq<char> {
    path_join(root, "clients.json.corrupt-"@ + crate::text::dec_i64(now))
}

/// The key-file outcome as `choose_signing_key` reads it.
pub open spec fn secret_outcome(root: Seq<char>, secret: Result<String, String>) -> Option<
    (Seq<char>, Result<Seq<char>, Seq<char>>),
> {
    match secret {
        Ok(t) => Some((path_join(root, "api-secret"@), Ok(t@))),
        Err(e) => Some((path_join(root, "api-secret"@), Err(e@))),
    }
}

impl Resolution {
    /// Past the key file on the persisted path: a config root and a
    /// file-backed key of at least 16 bytes.
    pub open spec fn persisted(&self) -> bool {
        &&& self.root is Some
        &&& self.source == KeySource::File
        &&& self.key@.len() >= 16
    }

    /// The built-in credential files are being handled: the targets are the
    /// registry's, and the web UI's credential is held exactly when its file
    /// has been handled.
    pub open spec fn handling_credentials(&self) -> bool {
        &&& self.persisted()
        &&& position_of_name(self.registry@, WEB_UI@) is Some
        &&& targets_ok(self.root->0@, self.registry@, self.targets@)
        &&& self.next <= self.targets@.len()
        &&& (self.web_ui is Some <==> web_ui_among(self.targets@, self.next as int))
        &&& (self.web_ui matches Some(c) ==> exists|k: int|
            0 <= k < self.next && self.targets@[k].is_web_ui && #[trigger] credential_for(
                c@,
                self.key@,
                self.registry@[self.targets@[k].index as int],
            ))
    }

    /// What holds of a resolution in each phase.
    pub open spec fn wf(&self) -> bool {
        match self.phase {
            Phase::Begin => true,
            Phase::Secret => self.root is Some,
            Phase::Registry => self.persisted(),
            Phase::Moving => self.persisted(),
            Phase::Saving => self.persisted() && position_of_name(self.registry@, WEB_UI@) is Some,
            Phase::Credentials => self.handling_credentials() && self.next < self.targets@.len(),
            Phase::Writing => self.handling_credentials(),
            Phase::Finished => true,
        }
    }

    /// A resolution that has read nothing yet.
    pub fn new() -> (r: Resolution)
        ensures
            r.phase == Phase::Begin,
            r.wf(),
    {
        Resolution {
            phase: Phase::Begin,
            root: None,
            key: Vec::new(),
            source: KeySource::Ephemeral,
            registry: ClientRegistry { clients: Vec::new() },
            warnings: Vec::new(),
            corrupt_error: String::new(),
            backup: String::new(),
            targets: Vec::new(),
            next: 0,
            write_path: String::new(),
            web_ui: None,
        }
    }

    /// The registry as resolved so far (what `SaveRegistry` saves).
    pub fn registry(&self) -> (r: &ClientRegistry)
        ensures
            r == &self.registry,
    {
        &self.registry
    }
}

/// Hand the credential file of the next target to the caller, or, when all
/// are handled, finish on the persisted path.
fn next_credential(state: &mut Resolution) -> (action: ResolveAction)
    requires
        old(state).handling_credentials(),
    ensures
        final(state).wf(),
        old(state).next < old(state).targets@.len() ==> {
            &&& action matches ResolveAction::ReadCredential { path } && path@
                == old(state).targets@[old(state).next as int].path@
            &&& *final(state) == (Resolution { phase: Phase::Credentials, ..*old(state) })
        },
        old(state).next == old(state).targets@.len() ==> {
            &&& final(state).phase == Phase::Finished
            &&& action matches ResolveAction::Done(r)
            &&& r.mode matches AuthMode::Enabled { key, source } && key@ == old(state).key@ && source
                == KeySource::File
            &&& r.registry@ == old(state).registry@
            &&& opt_string(r.config_root) == opt_string(old(state).root)
            &&& r.warnings@ == old(state).warnings@
            &&& opt_string(r.web_ui_credential) == opt_string(old(state).web_ui)
            &&& (r.web_ui_credential is Some <==> web_ui_active(r.registry@))
            &&& (r.web_ui_credential matches Some(c) ==> web_ui_credential_ok(c@, old(state).key@, r.registry@))
        },
{
    if state.next < state.targets.len() {
        let path = state.targets[state.next].path.clone();
        state.phase = Phase::Credentials;
        return ResolveAction::ReadCredential { path };
    }
    proof {
        let t = state.targets@;
        let r = state.registry@;
        if state.web_ui is Some {
            let k = choose|k: int| 0 <= k < t.len() && #[trigger] t[k].is_web_ui;
            let x = t[k];
            assert(builtin_active(r[x.index as int]) && r[x.index as int].name == WEB_UI@);
        }
        if web_ui_active(r) {
            let i = choose|i: int| 0 <= i < r.len() && builtin_active(#[trigger] r[i]) && r[i].name == WEB_UI@;
            let k = choose|k: int| 0 <= k < t.len() && t[k].index == i;
            assert(t[k].is_web_ui);
        }
        if state.web_ui is Some {
            let c = state.web_ui->0;
            let k = choose|k: int|
                0 <= k < state.next && t[k].is_web_ui && #[trigger] credential_for(
                    c@,
                    state.key@,
                    r[t[k].index as int],
                );
            assert(credential_for(c@, state.key@, r[t[k].index as int]));
        }
    }
    let mut key: Vec<u8> = Vec::new();
    std::mem::swap(&mut key, &mut state.key);
    let mut registry = ClientRegistry { clients: Vec::new() };
    std::mem::swap(&mut registry, &mut state.registry);
    let mut warnings: Vec<String> = Vec::new();
    std::mem::swap(&mut warnings, &mut state.warnings);
    let mut web_ui: Option<String> = None;
    std::mem::swap(&mut web_ui, &mut state.web_ui);
    let mut root: Option<String> = None;
    std::mem::swap(&mut root, &mut state.root);
    state.phase = Phase::Finished;
    ResolveAction::Done(
        ResolvedAuth {
            mode: AuthMode::Enabled { key, source: KeySource::File },
            registry,
            web_ui_credential: web_ui,
            config_root: root,
            warnings,
        },
    )
}

/// Start on the built-in credential files of the settled registry.
fn begin_credentials(state: &mut Resolution) -> (action: ResolveAction)
    requires
        old(state).persisted(),
        position_of_name(old(state).registry@, WEB_UI@) is Some,
    ensures
        final(state).wf(),
        action matches ResolveAction::ReadCredential { path } ==> {
            &&& final(state).phase == Phase::Credentials
            &&& final(state).next == 0
            &&& path@ == final(state).targets@[0].path@
            &&& final(state).registry@ == old(state).registry@
            &&& final(state).warnings@ == old(state).warnings@
            &&& final(state).root == old(state).root
            &&& final(state).key@ == old(state).key@
        },
        action matches ResolveAction::Done(r) ==> {
            &&& final(state).phase == Phase::Finished
            &&& r.mode matches AuthMode::Enabled { key, source } && key@ == old(state).key@ && source
                == KeySource::File
            &&& r.registry@ == old(state).registry@
            &&& opt_string(r.config_root) == opt_string(old(state).root)
            &&& r.warnings@ == old(state).warnings@
            &&& (r.web_ui_credential is Some <==> web_ui_active(r.registry@))
            &&& (r.web_ui_credential matches Some(c) ==> web_ui_credential_ok(c@, old(state).key@, r.registry@))
        },
        action is ReadCredential || action is Done,
{
    let targets = match &state.root {
        Some(root) => credential_targets(root.as_str(), &state.registry),
        None => Vec::new(),
    };
    state.targets = targets;
    state.next = 0;
    state.web_ui = None;
    next_credential(state)
}

/// Finish without a persisted registry: a fresh registry holding the
/// built-in clients, and the web UI's credential minted in memory.
fn finish_unpersisted(state: &mut Resolution, now: i64) -> (r: ResolvedAuth)
    requires
        old(state).key@.len() >= 16,
    ensures
        final(state).phase == Phase::Finished,
        r.mode matches AuthMode::Enabled { key, source } && key@ == old(state).key@ && source
            == old(state).source,
        r.config_root is None,
        fresh_registry(r.registry@, now),
        position_of_name(r.registry@, WEB_UI@) is Some,
        r.warnings@ == old(state).warnings@,
        r.web_ui_credential is Some,
        r.web_ui_credential is Some <==> web_ui_due(false, r.registry@),
        r.web_ui_credential matches Some(c) ==> web_ui_credential_ok(c@, old(state).key@, r.registry@),
{
    let mut registry = ClientRegistry { clients: Vec::new() };
    registry.ensure_builtins(now);
    let web_ui = unpersisted_web_ui_credential(&registry, state.key.as_slice(), now);
    proof {
        let rv = registry@;
        crate::clients::lemma_position_of_name(rv, WEB_UI@);
        assert(rv.last() == rv[0]);
        if web_ui is Some {
            let c = web_ui->0;
            assert(crate::jwt::signed_by(c@, state.key@, uuid_hyphenated(rv[0].id), rv[0].name, now));
            assert(credential_for(c@, state.key@, rv[0]));
        }
    }
    let mut key: Vec<u8> = Vec::new();
    std::mem::swap(&mut key, &mut state.key);
    let mut warnings: Vec<String> = Vec::new();
    std::mem::swap(&mut warnings, &mut state.warnings);
    state.phase = Phase::Finished;
    ResolvedAuth {
        mode: AuthMode::Enabled { key, source: state.source },
        registry,
        web_ui_credential: web_ui,
        config_root: None,
        warnings,
    }
}

/// `after` is `before` with `w` appended.
pub open spec fn pushed(after: Seq<String>, before: Seq<String>, w: Seq<char>) -> bool {
    &&& after.len() == before.len() + 1
    &&& after.drop_last() == before
    &&& after.last()@ == w
}

/// The warnings a step leaves: those of the resolved setup when it is done,
/// else those of the resolution.
pub open spec fn warnings_after(state: Resolution, action: ResolveAction) -> Seq<String> {
    match action {
        ResolveAction::Done(r) => r.warnings@,
        _ => state.warnings@,
    }
}

fn push_warning(state: &mut Resolution, w: String)
    ensures
        *final(state) == (Resolution { warnings: final(state).warnings, ..*old(state) }),
        pushed(final(state).warnings@, old(state).warnings@, w@),
{
    let ghost before = state.warnings@;
    state.warnings.push(w);
    assert(state.warnings@.drop_last() =~= before);
}

fn on_start(state: &mut Resolution, env_auth: Option<String>, root: Option<String>, now: i64) -> (action:
    ResolveAction)
    requires
        old(state).phase == Phase::Begin,
    ensures
        final(state).wf(),
        disabled_by(opt_string(env_auth)) ==> {
            &&& final(state).phase == Phase::Finished
            &&& action matches ResolveAction::Done(r)
            &&& r.mode is Disabled
            &&& opt_string(r.config_root) == opt_string(root)
            &&& r.registry@.len() == 0
            &&& r.web_ui_credential is None
            &&& r.warnings@.len() == 0
        },
        !disabled_by(opt_string(env_auth)) && root is Some ==> {
            &&& final(state).phase == Phase::Secret
            &&& final(state).root == root
            &&& final(state).warnings@ == old(state).warnings@
            &&& action matches ResolveAction::ReadSecret { path } && path@ == path_join(root->0@, "api-secret"@)
        },
        !disabled_by(opt_string(env_auth)) && root is None ==> {
            &&& final(state).phase == Phase::Finished
            &&& action matches ResolveAction::Done(r)
            &&& r.mode matches AuthMode::Enabled { key, source } && key@.len() == 32 && source
                == KeySource::Ephemeral
            &&& r.config_root is None
            &&& position_of_name(r.registry@, WEB_UI@) is Some
            &&& fresh_registry(r.registry@, now)
            &&& r.web_ui_credential is Some
            &&& (r.web_ui_credential is Some <==> web_ui_due(false, r.registry@))
            &&& (r.mode matches AuthMode::Enabled { key, .. } && (r.web_ui_credential matches Some(c)
                ==> web_ui_credential_ok(c@, key@, r.registry@)))
            &&& pushed(r.warnings@, old(state).warnings@, "no config directory available"@)
        },
{
    let env: Option<&str> = match &env_auth {
        Some(v) => Some(v.as_str()),
        None => None,
    };
    if auth_disabled_by(env) {
        let given: Option<&str> = match &root {
            Some(r) => Some(r.as_str()),
            None => None,
        };
        state.phase = Phase::Finished;
        return ResolveAction::Done(disabled_resolution(given));
    }
    match root {
        Some(r) => {
            let path = secret_path(r.as_str());
            state.root = Some(r);
            state.phase = Phase::Secret;
            ResolveAction::ReadSecret { path }
        },
        None => {
            let choice = choose_signing_key(None);
            proof {
                reveal_strlit("no config directory available");
            }
            match choice.warning {
                Some(w) => push_warning(state, w),
                None => {},
            }
            state.key = choice.key;
            state.source = choice.source;
            ResolveAction::Done(finish_unpersisted(state, now))
        },
    }
}

fn on_secret(state: &mut Resolution, secret: Result<String, String>, now: i64) -> (action: ResolveAction)
    requires
        old(state).phase == Phase::Secret,
        old(state).root is Some,
    ensures
        final(state).wf(),
        action is ReadRegistry <==> file_key_of(secret_outcome(old(state).root->0@, secret)) is Some,
        action is ReadRegistry || action is Done,
        action matches ResolveAction::ReadRegistry { path } ==> {
            &&& path@ == registry_file(old(state).root->0@)
            &&& final(state).phase == Phase::Registry
            &&& final(state).root == old(state).root
            &&& Some(final(state).key@) == file_key_of(secret_outcome(old(state).root->0@, secret))
            &&& final(state).warnings@ == old(state).warnings@
        },
        action matches ResolveAction::Done(r) ==> {
            &&& final(state).phase == Phase::Finished
            &&& r.mode matches AuthMode::Enabled { key, source } && key@.len() == 32 && source
                == KeySource::Ephemeral
            &&& r.config_root is None
            &&& position_of_name(r.registry@, WEB_UI@) is Some
            &&& fresh_registry(r.registry@, now)
            &&& r.web_ui_credential is Some
            &&& (r.web_ui_credential is Some <==> web_ui_due(false, r.registry@))
            &&& (r.mode matches AuthMode::Enabled { key, .. } && (r.web_ui_credential matches Some(c)
                ==> web_ui_credential_ok(c@, key@, r.registry@)))
            &&& key_warning_of_is(r.warnings@, old(state).warnings@, old(state).root->0@, secret)
        },
{
    let root: String = match &state.root {
        Some(r) => r.clone(),
        None => String::new(),
    };
    let path = secret_path(root.as_str());
    let choice = choose_signing_key(Some((path, secret)));
    proof {
        assert(crate::auth::secret_view(Some((path, secret))) == secret_outcome(root@, secret));
    }
    let ghost before = state.warnings@;
    match choice.warning {
        Some(w) => push_warning(state, w),
        None => {},
    }
    state.key = choice.key;
    state.source = choice.source;
    match persisted_root(Some(root.as_str()), choice.source) {
        Some(_) => {
            state.phase = Phase::Registry;
            ResolveAction::ReadRegistry { path: registry_path(root.as_str()) }
        },
        None => ResolveAction::Done(finish_unpersisted(state, now)),
    }
}

/// The warnings after an unusable key file: the key file's warning appended.
pub open spec fn key_warning_of_is(
    after: Seq<String>,
    before: Seq<String>,
    root: Seq<char>,
    secret: Result<String, String>,
) -> bool {
    crate::auth::key_warning_of(secret_outcome(root, secret)) matches Some(w) && pushed(after, before, w)
}

/// What a settled registry leads to on the persisted path: the first
/// credential file to read, or, with no built-in client to handle, the end.
pub open spec fn credentials_begun(
    old_state: Resolution,
    new_state: Resolution,
    registry: Seq<ClientView>,
    action: ResolveAction,
) -> bool {
    &&& action is ReadCredential || action is Done
    &&& action matches ResolveAction::ReadCredential { path } ==> {
        &&& new_state.phase == Phase::Credentials
        &&& new_state.next == 0
        &&& path@ == new_state.targets@[0].path@
        &&& new_state.registry@ == registry
        &&& new_state.root == old_state.root
        &&& new_state.key@ == old_state.key@
    }
    &&& action matches ResolveAction::Done(r) ==> {
        &&& new_state.phase == Phase::Finished
        &&& r.mode matches AuthMode::Enabled { key, source } && key@ == old_state.key@ && source
            == KeySource::File
        &&& r.registry@ == registry
        &&& opt_string(r.config_root) == opt_string(old_state.root)
        &&& position_of_name(r.registry@, WEB_UI@) is Some
        &&& (r.web_ui_credential is Some <==> web_ui_active(r.registry@))
        &&& (r.web_ui_credential matches Some(c) ==> web_ui_credential_ok(c@, old_state.key@, r.registry@))
    }
}

fn on_registry(state: &mut Resolution, registry: Result<ClientRegistry, String>, now: i64) -> (action:
    ResolveAction)
    requires
        old(state).phase == Phase::Registry,
        old(state).persisted(),
    ensures
        final(state).wf(),
        action is MoveAside <==> registry is Err,
        registry is Err ==> {
            &&& action matches ResolveAction::MoveAside { from, to } && from@ == registry_file(
                old(state).root->0@,
            ) && to@ == backup_file(old(state).root->0@, now)
            &&& final(state).phase == Phase::Moving
            &&& final(state).warnings@ == old(state).warnings@
        },
        registry matches Ok(reg) ==> (action is SaveRegistry <==> position_of_name(reg@, WEB_UI@) is None),
        registry matches Ok(reg) ==> position_of_name(reg@, WEB_UI@) is None ==> {
            &&& action matches ResolveAction::SaveRegistry { path } && path@ == registry_file(
                old(state).root->0@,
            )
            &&& final(state).phase == Phase::Saving
            &&& final(state).registry@.len() == reg@.len() + 1
            &&& final(state).registry@.drop_last() == reg@
            &&& final(state).registry@.last() == builtin_client(final(state).registry@.last().id, WEB_UI@, now)
            &&& is_v4_id(final(state).registry@.last().id)
            &&& final(state).warnings@ == old(state).warnings@
        },
        !(action is Done) ==> final(state).key@ == old(state).key@,
        registry matches Ok(reg) ==> position_of_name(reg@, WEB_UI@) is Some ==> credentials_begun(
            *old(state),
            *final(state),
            reg@,
            action,
        ) && warnings_after(*final(state), action) == old(state).warnings@,
{
    let root: String = match &state.root {
        Some(r) => r.clone(),
        None => String::new(),
    };
    match registry {
        Ok(reg) => {
            let mut reg = reg;
            let ghost before = reg@;
            let changed = reg.ensure_builtins(now);
            proof {
                if changed {
                    assert(reg@.drop_last() =~= reg@.subrange(0, before.len() as int));
                }
            }
            state.registry = reg;
            if changed {
                state.phase = Phase::Saving;
                ResolveAction::SaveRegistry { path: registry_path(root.as_str()) }
            } else {
                begin_credentials(state)
            }
        },
        Err(e) => {
            let from = registry_path(root.as_str());
            let to = corrupt_backup_path(root.as_str(), now);
            state.corrupt_error = e;
            state.backup = to.clone();
            state.phase = Phase::Moving;
            ResolveAction::MoveAside { from, to }
        },
    }
}

fn on_moved(state: &mut Resolution, moved: Result<(), String>, now: i64) -> (action: ResolveAction)
    requires
        old(state).phase == Phase::Moving,
        old(state).persisted(),
    ensures
        final(state).wf(),
        final(state).phase == Phase::Saving,
        action matches ResolveAction::SaveRegistry { path } && path@ == registry_file(old(state).root->0@),
        fresh_registry(final(state).registry@, now),
        final(state).key@ == old(state).key@,
        pushed(
            final(state).warnings@,
            old(state).warnings@,
            corrupt_registry_warning_of(
                old(state).corrupt_error@,
                old(state).backup@,
                match moved {
                    Ok(()) => Ok(()),
                    Err(e) => Err(e@),
                },
            ),
        ),
{
    let root: String = match &state.root {
        Some(r) => r.clone(),
        None => String::new(),
    };
    let w = corrupt_registry_warning(state.corrupt_error.as_str(), state.backup.as_str(), &moved);
    push_warning(state, w);
    let mut reg = ClientRegistry { clients: Vec::new() };
    reg.ensure_builtins(now);
    assert(reg@.last() == reg@[0]);
    state.registry = reg;
    state.phase = Phase::Saving;
    ResolveAction::SaveRegistry { path: registry_path(root.as_str()) }
}

fn on_saved(state: &mut Resolution, saved: Result<(), String>) -> (action: ResolveAction)
    requires
        old(state).phase == Phase::Saving,
        old(state).persisted(),
        position_of_name(old(state).registry@, WEB_UI@) is Some,
    ensures
        final(state).wf(),
        credentials_begun(*old(state), *final(state), old(state).registry@, action),
        match saved {
            Ok(()) => warnings_after(*final(state), action) == old(state).warnings@,
            Err(e) => pushed(
                warnings_after(*final(state), action),
                old(state).warnings@,
                "could not save the client registry: "@ + e@,
            ),
        },
{
    match saved {
        Ok(()) => {},
        Err(e) => {
            let mut w = chars_of("could not save the client registry: ");
            push_all(&mut w, chars_of(e.as_str()).as_slice());
            push_warning(state, string_of(w.as_slice()));
        },
    }
    begin_credentials(state)
}

/// The web UI's credential a step leaves: the resolved setup's when it is
/// done, else the resolution's.
pub open spec fn web_ui_after(state: Resolution, action: ResolveAction) -> Option<Seq<char>> {
    match action {
        ResolveAction::Done(r) => opt_string(r.web_ui_credential),
        _ => opt_string(state.web_ui),
    }
}

/// The registry a step leaves: the resolved setup's when it is done, else
/// the resolution's.
pub open spec fn registry_after(state: Resolution, action: ResolveAction) -> Seq<ClientView> {
    match action {
        ResolveAction::Done(r) => r.registry@,
        _ => state.registry@,
    }
}

/// The credential a `WriteCredential` writes: its contents without the final
/// line break.
pub open spec fn written_credential(action: ResolveAction) -> Option<Seq<char>> {
    match action {
        ResolveAction::WriteCredential { contents, .. } => Some(contents@.drop_last()),
        _ => None,
    }
}

/// The web UI's credential after its file was read: the credential written
/// when the file is rewritten, else the one on file.
pub open spec fn credential_from_file(existing: Option<String>, action: ResolveAction) -> Option<Seq<char>> {
    match written_credential(action) {
        Some(w) => Some(w),
        None => opt_string(existing),
    }
}

/// The client whose credential file the next target names.
pub open spec fn current_client(state: Resolution) -> ClientView {
    state.registry@[state.targets@[state.next as int].index as int]
}

/// A credential file that still authenticates its client under the key.
pub open spec fn still_current(existing: Option<String>, key: Seq<u8>, client: ClientView) -> bool {
    existing matches Some(e) && claims_current(crate::jwt::verify_spec(e@, key), client)
}

/// What the caller hears after a credential file was handled: the next file
/// to read, or the end of the persisted path.
pub open spec fn credential_handled(old_state: Resolution, new_state: Resolution, action: ResolveAction) -> bool {
    &&& action is ReadCredential || action is Done
    &&& action matches ResolveAction::ReadCredential { path } ==> {
        &&& new_state.phase == Phase::Credentials
        &&& path@ == new_state.targets@[new_state.next as int].path@
    }
    &&& action matches ResolveAction::Done(r) ==> {
        &&& new_state.phase == Phase::Finished
        &&& r.mode matches AuthMode::Enabled { key, source } && key@ == old_state.key@ && source
            == KeySource::File
        &&& r.registry@ == old_state.registry@
        &&& opt_string(r.config_root) == opt_string(old_state.root)
        &&& position_of_name(r.registry@, WEB_UI@) is Some
        &&& (r.web_ui_credential is Some <==> web_ui_active(r.registry@))
        &&& (r.web_ui_credential matches Some(c) ==> web_ui_credential_ok(c@, old_state.key@, r.registry@))
    }
}

fn on_credential_read(state: &mut Resolution, existing: Option<String>, now: i64) -> (action: ResolveAction)
    requires
        old(state).phase == Phase::Credentials,
        old(state).handling_credentials(),
        old(state).next < old(state).targets@.len(),
    ensures
        final(state).wf(),
        action is WriteCredential <==> !still_current(existing, old(state).key@, current_client(*old(state))),
        action is WriteCredential || credential_handled(*old(state), *final(state), action),
        action matches ResolveAction::WriteCredential { path, contents } ==> {
            let c = current_client(*old(state));
            &&& final(state).phase == Phase::Writing
            &&& path@ == old(state).targets@[old(state).next as int].path@
            &&& final(state).write_path@ == path@
            &&& contents@.len() > 0
            &&& contents@.last() == '\n'
            &&& crate::jwt::signed_by(
                contents@.drop_last(),
                old(state).key@,
                uuid_hyphenated(c.id),
                c.name,
                later(now, c.issued_at),
            )
        },
        warnings_after(*final(state), action) == old(state).warnings@,
        web_ui_after(*final(state), action) == (if old(state).targets@[old(state).next as int].is_web_ui {
            credential_from_file(existing, action)
        } else {
            opt_string(old(state).web_ui)
        }),
        !(action is Done) ==> final(state).key@ == old(state).key@ && final(state).registry@ == old(
            state,
        ).registry@,
{
    let count = state.targets.len();
    let index = state.targets[state.next].index;
    let is_web_ui = state.targets[state.next].is_web_ui;
    let path = state.targets[state.next].path.clone();
    let existing_text: Option<&str> = match &existing {
        Some(e) => Some(e.as_str()),
        None => None,
    };
    proof {
        assert(state.registry@[index as int] == state.registry.clients@[index as int]@);
    }
    let decided = builtin_credential(
        &state.registry.clients[index],
        state.key.as_slice(),
        existing_text,
        now,
    );
    let ghost n = state.next as int;
    let ghost t = state.targets@;
    let ghost client = state.registry@[index as int];
    let ghost before = state.web_ui;
    proof {
        if decided.rewrite {
            assert(crate::jwt::signed_by(
                decided.credential@,
                state.key@,
                uuid_hyphenated(client.id),
                client.name,
                later(now, client.issued_at),
            ));
        }
        assert(credential_for(decided.credential@, state.key@, client));
    }
    if is_web_ui {
        state.web_ui = Some(decided.credential.clone());
    }
    state.next = state.next + 1;
    proof {
        if !is_web_ui {
            assert(web_ui_among(t, n + 1) ==> web_ui_among(t, n)) by {
                if web_ui_among(t, n + 1) {
                    let k = choose|k: int| 0 <= k < n + 1 && #[trigger] t[k].is_web_ui;
                    assert(k != n);
                }
            }
            assert(web_ui_among(t, n) ==> web_ui_among(t, n + 1));
            if before is Some {
                let c = before->0;
                let k = choose|k: int|
                    0 <= k < n && t[k].is_web_ui && #[trigger] credential_for(
                        c@,
                        state.key@,
                        state.registry@[t[k].index as int],
                    );
                assert(credential_for(c@, state.key@, state.registry@[t[k].index as int]));
            }
        } else {
            assert(t[n].is_web_ui);
            assert(credential_for(state.web_ui->0@, state.key@, state.registry@[t[n].index as int]));
        }
    }
    if decided.rewrite {
        let mut contents = chars_of(decided.credential.as_str());
        contents.push('\n');
        assert(contents@.drop_last() =~= decided.credential@);
        state.write_path = path.clone();
        state.phase = Phase::Writing;
        ResolveAction::WriteCredential { path, contents: string_of(contents.as_slice()) }
    } else {
        next_credential(state)
    }
}

fn on_written(state: &mut Resolution, written: Result<(), String>) -> (action: ResolveAction)
    requires
        old(state).phase == Phase::Writing,
        old(state).handling_credentials(),
    ensures
        final(state).wf(),
        credential_handled(*old(state), *final(state), action),
        match written {
            Ok(()) => warnings_after(*final(state), action) == old(state).warnings@,
            Err(e) => pushed(
                warnings_after(*final(state), action),
                old(state).warnings@,
                "could not write "@ + old(state).write_path@ + ": "@ + e@,
            ),
        },
        web_ui_after(*final(state), action) == opt_string(old(state).web_ui),
        !(action is Done) ==> final(state).key@ == old(state).key@ && final(state).registry@ == old(
            state,
        ).registry@,
{
    match written {
        Ok(()) => {},
        Err(e) => {
            let mut w = chars_of("could not write ");
            push_all(&mut w, chars_of(state.write_path.as_str()).as_slice());
            push_all(&mut w, chars_of(": ").as_slice());
            push_all(&mut w, chars_of(e.as_str()).as_slice());
            push_warning(state, string_of(w.as_slice()));
        },
    }
    next_credential(state)
}

/// The warning a step appends, if any.
pub open spec fn step_warning(s: Resolution, event: ResolveEvent) -> Option<Seq<char>> {
    match event {
        ResolveEvent::Start { env_auth, root, .. } => if !disabled_by(opt_string(env_auth)) && root is None {
            Some("no config directory available"@)
        } else {
            None
        },
        ResolveEvent::SecretRead { secret, .. } => key_warning_of(secret_outcome(s.root->0@, secret)),
        ResolveEvent::Moved { moved, .. } => Some(
            corrupt_registry_warning_of(
                s.corrupt_error@,
                s.backup@,
                match moved {
                    Ok(()) => Ok(()),
                    Err(e) => Err(e@),
                },
            ),
        ),
        ResolveEvent::Saved { saved: Err(e), .. } => Some("could not save the client registry: "@ + e@),
        ResolveEvent::CredentialWritten { written: Err(e), .. } => Some(
            "could not write "@ + s.write_path@ + ": "@ + e@,
        ),
        _ => None,
    }
}

/// The registry could not be read: it is to be moved aside.
pub open spec fn moves_aside(phase: Phase, event: ResolveEvent) -> bool {
    phase == Phase::Registry && event matches ResolveEvent::RegistryRead { registry: Err(_), .. }
}

/// The registry is to be saved: the built-in clients were just added to it,
/// either to the registry as read or to the fresh one that replaces an
/// unreadable registry.
pub open spec fn saves_registry(phase: Phase, event: ResolveEvent) -> bool {
    match (phase, event) {
        (Phase::Registry, ResolveEvent::RegistryRead { registry: Ok(reg), .. }) => position_of_name(
            reg@,
            WEB_UI@,
        ) is None,
        (Phase::Moving, ResolveEvent::Moved { .. }) => true,
        _ => false,
    }
}

/// The event turns verification off.
pub open spec fn turns_off(event: ResolveEvent) -> bool {
    event matches ResolveEvent::Start { env_auth, .. } && disabled_by(opt_string(env_auth))
}

/// Advance a resolution by one outcome and say what to do next.
///
/// An event that does not answer the last action changes nothing and is
/// answered `Unexpected`. Otherwise:
/// - `Start`: `off` (any case, trimmed) ends at once with verification
///   disabled; with a config directory the key file is read next; without
///   one the run ends on a one-off key.
/// - `SecretRead`: a hex key of at least 16 bytes leads on to the registry;
///   anything else ends the run on a one-off key (fail closed), with no
///   registry or credential file touched.
/// - `RegistryRead`: a registry that could not be read is moved aside, never
///   saved over; a readable one gets the built-in clients, and is saved
///   exactly when they were missing.
/// - `Moved`: a fresh registry with the built-in clients, to be saved.
/// - `Saved`, `CredentialRead`, `CredentialWritten`: each active built-in
///   client's credential file is read in turn and rewritten when it no
///   longer authenticates its client; then the run ends, persisted.
pub fn resolve_step(state: &mut Resolution, event: ResolveEvent) -> (action: ResolveAction)
    requires
        old(state).wf(),
    ensures
        final(state).wf(),
        !expects(old(state).phase, event) ==> action is Unexpected && *final(state) == *old(state),
        expects(old(state).phase, event) ==> action !is Unexpected,
        action matches ResolveAction::Done(r) ==> {
            &&& final(state).phase == Phase::Finished
            &&& (r.mode is Disabled <==> turns_off(event))
            &&& (r.mode matches AuthMode::Enabled { key, source } ==> {
                &&& key@.len() >= 16
                &&& (r.config_root is Some <==> source == KeySource::File)
                &&& (r.config_root is Some ==> opt_string(r.config_root) == opt_string(old(state).root))
                &&& position_of_name(r.registry@, WEB_UI@) is Some
                &&& (r.web_ui_credential is Some <==> web_ui_due(r.config_root is Some, r.registry@))
                &&& (r.web_ui_credential matches Some(c) ==> web_ui_credential_ok(c@, key@, r.registry@))
                &&& (source == KeySource::Ephemeral ==> key@.len() == 32 && fresh_registry(
                    r.registry@,
                    event_now(event),
                ) && r.web_ui_credential is Some)
                &&& (source == KeySource::File ==> key@ == old(state).key@)
            })
        },
        old(state).phase == Phase::Begin ==> match event {
            ResolveEvent::Start { env_auth, root, .. } => if disabled_by(opt_string(env_auth)) {
                action matches ResolveAction::Done(r) && opt_string(r.config_root) == opt_string(root)
                    && r.registry@.len() == 0 && r.web_ui_credential is None && r.warnings@.len() == 0
            } else if root is Some {
                action matches ResolveAction::ReadSecret { path } && path@ == path_join(
                    root->0@,
                    "api-secret"@,
                ) && final(state).root == root
            } else {
                action matches ResolveAction::Done(r) && r.mode matches AuthMode::Enabled { source, .. }
                    && source == KeySource::Ephemeral
            },
            _ => true,
        },
        old(state).phase == Phase::Secret ==> (event matches ResolveEvent::SecretRead { secret, .. } ==> (
        action is ReadRegistry <==> file_key_of(secret_outcome(old(state).root->0@, secret)) is Some)),
        action matches ResolveAction::ReadRegistry { path } ==> path@ == registry_file(old(state).root->0@),
        action is MoveAside <==> moves_aside(old(state).phase, event),
        action matches ResolveAction::MoveAside { from, to } ==> from@ == registry_file(old(state).root->0@)
            && to@ == backup_file(old(state).root->0@, event_now(event)),
        action is SaveRegistry <==> saves_registry(old(state).phase, event),
        action matches ResolveAction::SaveRegistry { path } ==> path@ == registry_file(old(state).root->0@)
            && position_of_name(final(state).registry@, WEB_UI@) is Some,
        old(state).phase == Phase::Registry ==> (event matches ResolveEvent::RegistryRead {
            registry: Ok(reg),
            now,
        } ==> (position_of_name(reg@, WEB_UI@) is None ==> {
            &&& final(state).registry@.len() == reg@.len() + 1
            &&& final(state).registry@.drop_last() == reg@
            &&& final(state).registry@.last() == builtin_client(final(state).registry@.last().id, WEB_UI@, now)
            &&& is_v4_id(final(state).registry@.last().id)
        }) && (position_of_name(reg@, WEB_UI@) is Some ==> registry_after(*final(state), action) == reg@)),
        old(state).phase == Phase::Moving ==> (event is Moved ==> fresh_registry(
            final(state).registry@,
            event_now(event),
        )),
        old(state).phase == Phase::Saving || old(state).phase == Phase::Credentials || old(state).phase
            == Phase::Writing ==> registry_after(*final(state), action) == old(state).registry@,
        old(state).phase != Phase::Begin && old(state).phase != Phase::Secret && !(action is Done)
            ==> final(state).key@ == old(state).key@,
        old(state).phase == Phase::Credentials ==> (event matches ResolveEvent::CredentialRead { existing, .. }
            ==> web_ui_after(*final(state), action) == (if old(state).targets@[old(state).next as int].is_web_ui {
            credential_from_file(existing, action)
        } else {
            opt_string(old(state).web_ui)
        })),
        old(state).phase == Phase::Writing ==> web_ui_after(*final(state), action) == opt_string(
            old(state).web_ui,
        ),
        old(state).phase == Phase::Credentials ==> (event matches ResolveEvent::CredentialRead { existing, .. }
            ==> (action is WriteCredential <==> !still_current(
            existing,
            old(state).key@,
            current_client(*old(state)),
        ))),
        action matches ResolveAction::WriteCredential { path, contents } ==> {
            let c = current_client(*old(state));
            &&& old(state).phase == Phase::Credentials
            &&& path@ == old(state).targets@[old(state).next as int].path@
            &&& contents@.len() > 0
            &&& contents@.last() == '\n'
            &&& crate::jwt::signed_by(
                contents@.drop_last(),
                old(state).key@,
                uuid_hyphenated(c.id),
                c.name,
                later(event_now(event), c.issued_at),
            )
        },
        action matches ResolveAction::ReadCredential { path } ==> final(state).phase == Phase::Credentials
            && path@ == final(state).targets@[final(state).next as int].path@,
        expects(old(state).phase, event) && !turns_off(event) ==> match step_warning(*old(state), event) {
            Some(w) => pushed(warnings_after(*final(state), action), old(state).warnings@, w),
            None => warnings_after(*final(state), action) == old(state).warnings@,
        },
{
    match event {
        ResolveEvent::Start { env_auth, root, now } => {
            if state.phase == Phase::Begin {
                on_start(state, env_auth, root, now)
            } else {
                ResolveAction::Unexpected
            }
        },
        ResolveEvent::SecretRead { secret, now } => {
            if state.phase == Phase::Secret {
                on_secret(state, secret, now)
            } else {
                ResolveAction::Unexpected
            }
        },
        ResolveEvent::RegistryRead { registry, now } => {
            if state.phase == Phase::Registry {
                on_registry(state, registry, now)
            } else {
                ResolveAction::Unexpected
            }
        },
        ResolveEvent::Moved { moved, now } => {
            if state.phase == Phase::Moving {
                on_moved(state, moved, now)
            } else {
                ResolveAction::Unexpected
            }
        },
        ResolveEvent::Saved { saved, now: _ } => {
            if state.phase == Phase::Saving {
                on_saved(state, saved)
            } else {
                ResolveAction::Unexpected
            }
        },
        ResolveEvent::CredentialRead { existing, now } => {
            if state.phase == Phase::Credentials {
                on_credential_read(state, existing, now)
            } else {
                ResolveAction::Unexpected
            }
        },
        ResolveEvent::CredentialWritten { written, now: _ } => {
            if state.phase == Phase::Writing {
                on_written(state, written)
            } else {
                ResolveAction::Unexpected
            }
        },
    }
}

} // verus!
