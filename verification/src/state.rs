//! The decisions of the app's shared state: managing clients, the caches in
//! front of the disk, and the watched session's live flag.
//!
//! The state itself (locks, watchers, the event channel) belongs to the code
//! around this library, which calls these with the values it holds.

use vstd::prelude::*;

use crate::auth::{issue_credential, signing_key, AuthMode};
use crate::clients::{
    position_of, position_of_name, reissued_view, revoked_view, unknown_client_message,
    validated_name, Client, ClientRegistry, ClientView,
};
use crate::jwt::{signed_by, opt_string};
use crate::session::{CodexSession, CodexSessionInfo, CodexTurn};
use crate::text::{chars_eq, chars_of, push_all, string_of};

verus! {

/// A Server-Sent Event destined for browser clients.
#[derive(Clone, Debug)]
pub struct SseEvent {
    pub event: String,
    pub data: String,
}

impl SseEvent {
    pub fn new(event: &str, data: &str) -> (e: SseEvent)
        ensures
            e.event@ == event@,
            e.data@ == data@,
    {
        SseEvent { event: event.to_owned(), data: data.to_owned() }
    }
}

// ---------------------------------------------------------------------------
// Clients
// ---------------------------------------------------------------------------

/// A freshly minted credential. It is handed out exactly once: the backend
/// never stores it (built-in clients excepted).
#[derive(Debug)]
pub struct IssuedCredential {
    pub client: Client,
    pub credential: String,
}

/// Register a new client and mint its credential, issued at its creation.
/// Fails, changing nothing, when verification is off or the name is refused.
pub fn register_client(mode: &AuthMode, registry: &mut ClientRegistry, name: &str, now: i64) -> (r:
    Result<IssuedCredential, String>)
    ensures
        crate::clients::names_unique(old(registry)@) ==> crate::clients::names_unique(final(registry)@),
        match *mode {
            AuthMode::Disabled => (r matches Err(e) && e@ == crate::auth::disabled_message())
                && final(registry)@ == old(registry)@,
            AuthMode::Enabled { key, .. } => match validated_name(name@) {
                Err(e) => (r matches Err(m) && m@ == e) && final(registry)@ == old(registry)@,
                Ok(n) => if position_of_name(old(registry)@, n) is Some {
                    (r matches Err(m) && m@ == crate::clients::duplicate_name_message(n))
                        && final(registry)@ == old(registry)@
                } else {
                    r matches Ok(issued) && issued.client@ == (ClientView {
                        id: issued.client.id,
                        name: n,
                        builtin: false,
                        created_at: now,
                        issued_at: now,
                        revoked_at: None,
                    }) && crate::clients::is_v4_id(issued.client.id) && final(registry)@ == old(
                        registry,
                    )@.push(issued.client@) && signed_by(
                        issued.credential@,
                        key@,
                        crate::clients::uuid_hyphenated(issued.client.id),
                        n,
                        now,
                    )
                },
            },
        },
{
    let key = match signing_key(mode) {
        Ok(k) => k,
        Err(e) => {
            return Err(e);
        },
    };
    let client = match registry.register(name, now) {
        Ok(c) => c,
        Err(e) => {
            return Err(e);
        },
    };
    let credential = issue_credential(&client, key.as_slice(), client.issued_at);
    Ok(IssuedCredential { client, credential })
}

/// Reissue: mint a new credential (issued at the client's new `issued_at`) and
/// invalidate every older one. Fails, changing nothing, when verification is
/// off or the client is unknown.
pub fn reissue_client(mode: &AuthMode, registry: &mut ClientRegistry, id: u128, now: i64) -> (r: Result<
    IssuedCredential,
    String,
>)
    requires
        position_of(old(registry)@, id) matches Some(i) ==> old(registry)@[i].issued_at < i64::MAX,
    ensures
        crate::clients::names_unique(old(registry)@) ==> crate::clients::names_unique(final(registry)@),
        match *mode {
            AuthMode::Disabled => (r matches Err(e) && e@ == crate::auth::disabled_message())
                && final(registry)@ == old(registry)@,
            AuthMode::Enabled { key, .. } => match position_of(old(registry)@, id) {
                None => (r matches Err(m) && m@ == unknown_client_message(id)) && final(registry)@
                    == old(registry)@,
                Some(i) => {
                    let after = reissued_view(old(registry)@[i], now);
                    &&& r matches Ok(issued)
                    &&& issued.client@ == after
                    &&& final(registry)@ == old(registry)@.update(i, after)
                    &&& signed_by(
                        issued.credential@,
                        key@,
                        crate::clients::uuid_hyphenated(id),
                        after.name,
                        after.issued_at,
                    )
                },
            },
        },
{
    let key = match signing_key(mode) {
        Ok(k) => k,
        Err(e) => {
            return Err(e);
        },
    };
    proof {
        crate::clients::lemma_position_of(registry@, id);
    }
    let client = match registry.reissue(id, now) {
        Ok(c) => c,
        Err(e) => {
            return Err(e);
        },
    };
    let credential = issue_credential(&client, key.as_slice(), client.issued_at);
    Ok(IssuedCredential { client, credential })
}

/// Revoke: every credential of this client stops working immediately. Fails,
/// changing nothing, when verification is off or the client is unknown.
pub fn revoke_client(mode: &AuthMode, registry: &mut ClientRegistry, id: u128, now: i64) -> (r: Result<
    Client,
    String,
>)
    ensures
        crate::clients::names_unique(old(registry)@) ==> crate::clients::names_unique(final(registry)@),
        match *mode {
            AuthMode::Disabled => (r matches Err(e) && e@ == crate::auth::disabled_message())
                && final(registry)@ == old(registry)@,
            AuthMode::Enabled { .. } => match position_of(old(registry)@, id) {
                None => (r matches Err(m) && m@ == unknown_client_message(id)) && final(registry)@
                    == old(registry)@,
                Some(i) => (r matches Ok(c) && c@ == revoked_view(old(registry)@[i], now))
                    && final(registry)@ == old(registry)@.update(i, revoked_view(old(registry)@[i], now)),
            },
        },
{
    match signing_key(mode) {
        Ok(_) => {},
        Err(e) => {
            return Err(e);
        },
    }
    registry.revoke(id, now)
}

// ---------------------------------------------------------------------------
// Caches and the watched session
// ---------------------------------------------------------------------------

/// How long a directory's discovered sessions are served from memory.
pub const SESSIONS_CACHE_TTL_MS: u64 = 2000;

/// Whether the sessions cached for `cached_dir`, `age_ms` old, may answer a
/// request for `dir`.
pub fn sessions_cache_fresh(cached_dir: &str, dir: &str, age_ms: u64) -> (r: bool)
    ensures
        r == (cached_dir@ == dir@ && age_ms < SESSIONS_CACHE_TTL_MS),
{
    chars_eq(chars_of(cached_dir).as_slice(), chars_of(dir).as_slice()) && age_ms < SESSIONS_CACHE_TTL_MS
}

/// Whether the parsed session held for `cached_path` (whose file had the
/// modified time `cached_modified` then) may answer a read of `path`, whose
/// file has the modified time `modified` now. An unreadable modified time on
/// either side counts as changed, so the file is re-parsed rather than served
/// stale.
pub fn parsed_session_fresh(
    cached_path: &str,
    cached_modified: Option<(u64, u32)>,
    path: &str,
    modified: Option<(u64, u32)>,
) -> (r: bool)
    ensures
        r == (cached_path@ == path@ && modified is Some && cached_modified == modified),
{
    chars_eq(chars_of(cached_path).as_slice(), chars_of(path).as_slice()) && match (
        cached_modified,
        modified,
    ) {
        (Some(a), Some(b)) => a.0 == b.0 && a.1 == b.1,
        _ => false,
    }
}

/// The sessions last discovered for a directory, and when (in the caller's
/// milliseconds).
pub struct SessionsCache {
    pub dir: String,
    pub cached_at_ms: u64,
    pub sessions: Vec<CodexSessionInfo>,
}

/// How old a cache entry made at `cached_at_ms` is at `now_ms` (never less
/// than nothing: a clock reading before the entry counts as no time at all).
pub open spec fn age_of(cached_at_ms: u64, now_ms: u64) -> int {
    if now_ms >= cached_at_ms {
        now_ms - cached_at_ms
    } else {
        0
    }
}

/// The cache holds a fresh entry for `dir` at `now_ms`.
pub open spec fn sessions_cache_answers(cache: Option<SessionsCache>, dir: Seq<char>, now_ms: u64) -> bool {
    cache matches Some(c) && c.dir@ == dir && age_of(c.cached_at_ms, now_ms) < SESSIONS_CACHE_TTL_MS
}

/// The sessions to answer a request for `dir` with at `now_ms`, when the
/// cache holds them fresh; `None` when they must be discovered.
pub fn cached_sessions<'a>(cache: &'a Option<SessionsCache>, dir: &str, now_ms: u64) -> (r: Option<
    &'a Vec<CodexSessionInfo>,
>)
    ensures
        r is Some <==> sessions_cache_answers(*cache, dir@, now_ms),
        r matches Some(v) ==> *v == cache->0.sessions,
{
    match cache {
        Some(c) => {
            let age = if now_ms >= c.cached_at_ms {
                now_ms - c.cached_at_ms
            } else {
                0
            };
            if sessions_cache_fresh(c.dir.as_str(), dir, age) {
                Some(&c.sessions)
            } else {
                None
            }
        },
        None => None,
    }
}

/// Keep what discovering `dir` at `now_ms` gave: sessions replace the cache,
/// an error leaves it as it was and is handed back.
pub fn store_sessions(
    cache: &mut Option<SessionsCache>,
    dir: &str,
    now_ms: u64,
    found: Result<Vec<CodexSessionInfo>, String>,
) -> (r: Result<(), String>)
    ensures
        match found {
            Ok(s) => r is Ok && (*final(cache) matches Some(c) && c.dir@ == dir@ && c.cached_at_ms
                == now_ms && c.sessions == s),
            Err(e) => r == Err::<(), String>(e) && *final(cache) == *old(cache),
        },
{
    match found {
        Ok(sessions) => {
            *cache = Some(SessionsCache { dir: dir.to_owned(), cached_at_ms: now_ms, sessions });
            Ok(())
        },
        Err(e) => Err(e),
    }
}

/// The sessions a discovery stored are what the cache answers with, for the
/// same directory, until they are `SESSIONS_CACHE_TTL_MS` old; another
/// directory is never answered from them.
pub proof fn law_stored_sessions_are_served_until_stale(
    c: SessionsCache,
    dir: Seq<char>,
    stored_at: u64,
    now_ms: u64,
)
    requires
        c.cached_at_ms == stored_at,
    ensures
        c.dir@ == dir && stored_at <= now_ms < stored_at + SESSIONS_CACHE_TTL_MS ==> sessions_cache_answers(
            Some(c),
            dir,
            now_ms,
        ),
        now_ms >= stored_at + SESSIONS_CACHE_TTL_MS ==> !sessions_cache_answers(Some(c), dir, now_ms),
        c.dir@ != dir ==> !sessions_cache_answers(Some(c), dir, now_ms),
{
}

/// The session last parsed, with the file's modified time then.
pub struct ParsedSessionCache {
    pub path: String,
    pub modified: Option<(u64, u32)>,
    pub session: CodexSession,
}

/// The cache holds the session at `path`, parsed since the file last changed.
pub open spec fn parsed_session_answers(
    cache: Option<ParsedSessionCache>,
    path: Seq<char>,
    modified: Option<(u64, u32)>,
) -> bool {
    cache matches Some(c) && c.path@ == path && modified is Some && c.modified == modified
}

/// The parsed session for a read of `path` (whose file now has the modified
/// time `modified`), when the cache holds it; `None` when it must be parsed.
pub fn cached_session<'a>(
    cache: &'a Option<ParsedSessionCache>,
    path: &str,
    modified: Option<(u64, u32)>,
) -> (r: Option<&'a CodexSession>)
    ensures
        r is Some <==> parsed_session_answers(*cache, path@, modified),
        r matches Some(s) ==> *s == cache->0.session,
{
    match cache {
        Some(c) => {
            if parsed_session_fresh(c.path.as_str(), c.modified, path, modified) {
                Some(&c.session)
            } else {
                None
            }
        },
        None => None,
    }
}

/// Keep what parsing `path` gave: a session replaces the cache, an error
/// leaves it as it was and is handed back.
pub fn store_parsed_session(
    cache: &mut Option<ParsedSessionCache>,
    path: &str,
    modified: Option<(u64, u32)>,
    parsed: Result<CodexSession, String>,
) -> (r: Result<(), String>)
    ensures
        match parsed {
            Ok(s) => r is Ok && (*final(cache) matches Some(c) && c.path@ == path@ && c.modified
                == modified && c.session == s),
            Err(e) => r == Err::<(), String>(e) && *final(cache) == *old(cache),
        },
{
    match parsed {
        Ok(session) => {
            *cache = Some(ParsedSessionCache { path: path.to_owned(), modified, session });
            Ok(())
        },
        Err(e) => Err(e),
    }
}

/// Drop the parsed session, so the next read parses again.
pub fn clear_parsed_session(cache: &mut Option<ParsedSessionCache>)
    ensures
        *final(cache) is None,
{
    *cache = None;
}

/// A session parsed from a file is served again while the file's modified
/// time is unchanged (and readable), and parsed again once it changes, after
/// a clear, or for another file.
pub proof fn law_parsed_session_is_reused_while_unchanged(
    c: ParsedSessionCache,
    path: Seq<char>,
    modified: Option<(u64, u32)>,
)
    ensures
        c.path@ == path && modified is Some && c.modified == modified ==> parsed_session_answers(
            Some(c),
            path,
            modified,
        ),
        c.modified != modified ==> !parsed_session_answers(Some(c), path, modified),
        modified is None ==> !parsed_session_answers(Some(c), path, modified),
        c.path@ != path ==> !parsed_session_answers(Some(c), path, modified),
        !parsed_session_answers(None, path, modified),
{
}

/// The error for a turn index past the end of a session starts with this;
/// it is answered with a 404 rather than a 500.
pub const NO_TURN_AT_INDEX: &'static str = "no turn at index";

pub open spec fn no_turn_message(index: usize) -> Seq<char> {
    NO_TURN_AT_INDEX@ + " "@ + crate::text::dec_nat(index as nat)
}

/// One turn of a session, by position.
pub fn turn_at(session: &CodexSession, index: usize) -> (r: Result<&CodexTurn, String>)
    ensures
        index < session.turns@.len() ==> (r matches Ok(t) && *t == session.turns@[index as int]),
        index >= session.turns@.len() ==> (r matches Err(e) && e@ == no_turn_message(index)),
{
    if index < session.turns.len() {
        Ok(&session.turns[index])
    } else {
        let mut m = chars_of(NO_TURN_AT_INDEX);
        m.push(' ');
        push_all(&mut m, crate::text::dec_u64_chars(index as u64).as_slice());
        proof {
            reveal_strlit(" ");
        }
        assert(m@ =~= no_turn_message(index));
        Err(string_of(m.as_slice()))
    }
}

/// Index of the first session with this path.
pub open spec fn session_at_path(sessions: Seq<CodexSessionInfo>, path: Seq<char>) -> Option<int>
    decreases sessions.len(),
{
    if sessions.len() == 0 {
        None
    } else {
        match session_at_path(sessions.drop_last(), path) {
            Some(i) => Some(i),
            None => if sessions.last().path@ == path {
                Some(sessions.len() - 1)
            } else {
                None
            },
        }
    }
}

proof fn lemma_session_at_path(sessions: Seq<CodexSessionInfo>, path: Seq<char>)
    ensures
        session_at_path(sessions, path) matches Some(i) ==> 0 <= i < sessions.len() && sessions[i].path@
            == path && forall|k: int| 0 <= k < i ==> (#[trigger] sessions[k]).path@ != path,
        session_at_path(sessions, path) is None ==> forall|k: int|
            0 <= k < sessions.len() ==> (#[trigger] sessions[k]).path@ != path,
    decreases sessions.len(),
{
    if sessions.len() > 0 {
        let t = sessions.drop_last();
        lemma_session_at_path(t, path);
        assert(forall|k: int| 0 <= k < t.len() ==> t[k] == sessions[k]);
    }
}

/// The live flag of the watched session, applied to a fresh discovery: the
/// first session at the watched path gets it; nothing else changes.
pub fn apply_watched_ongoing(sessions: &mut Vec<CodexSessionInfo>, watched: &Option<(String, bool)>)
    ensures
        match *watched {
            Some((path, ongoing)) => match session_at_path(old(sessions)@, path@) {
                Some(i) => final(sessions)@ == old(sessions)@.update(
                    i,
                    CodexSessionInfo { is_ongoing: ongoing, ..old(sessions)@[i] },
                ),
                None => final(sessions)@ == old(sessions)@,
            },
            None => final(sessions)@ == old(sessions)@,
        },
{
    let (path, ongoing) = match watched {
        Some((p, o)) => (p, *o),
        None => {
            return;
        },
    };
    let wanted = chars_of(path.as_str());
    proof {
        lemma_session_at_path(sessions@, path@);
    }
    let mut i: usize = 0;
    while i < sessions.len()
        invariant
            wanted@ == path@,
            *watched matches Some((p, o)) && p@ == path@ && o == ongoing,
            i <= sessions@.len(),
            sessions@ == old(sessions)@,
            forall|k: int| 0 <= k < i ==> (#[trigger] sessions@[k]).path@ != path@,
        decreases sessions@.len() - i,
    {
        if chars_eq(chars_of(sessions[i].path.as_str()).as_slice(), wanted.as_slice()) {
            let ghost before = sessions@;
            let mut s = sessions.remove(i);
            s.is_ongoing = ongoing;
            sessions.insert(i, s);
            proof {
                lemma_session_at_path(before, path@);
                assert(sessions@ =~= before.update(
                    i as int,
                    CodexSessionInfo { is_ongoing: ongoing, ..before[i as int] },
                ));
            }
            return;
        }
        i = i + 1;
    }
}

} // verus!
