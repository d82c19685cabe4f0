//! User settings and where the app keeps its configuration.
//!
//! The settings themselves are read from and written to `settings.json` by the
//! code around this library; here are their shape, the config root rule, and
//! the response the Settings screen is built from.

use vstd::prelude::*;

use crate::auth::{path_join, source_name, AuthMode};
use crate::clients::Client;
use crate::jwt::opt_string;
use crate::text::{chars_of, string_of, trim, trim_chars};

verus! {

/// Env var that relocates the whole config root, so a test run never touches a
/// developer's real settings, signing key or client registry.
pub const ENV_CONFIG_DIR: &'static str = "CODEXTRACE_CONFIG_DIR";

pub struct Settings {
    pub sessions_dir: Option<String>,
    /// Extra origins allowed to call the local HTTP API cross-origin, on top of
    /// the built-in dev/web UI origins. Managed from Settings.
    pub allowed_origins: Vec<String>,
}

impl Default for Settings {
    fn default() -> (r: Self)
        ensures
            r.sessions_dir is None,
            r.allowed_origins@.len() == 0,
    {
        Settings { sessions_dir: None, allowed_origins: Vec::new() }
    }
}

/// The config root: the override when it is non-empty after trimming (used
/// trimmed), else `<OS config dir>/codex-trace`; `None` when there is neither.
pub open spec fn config_root_of(override_dir: Option<Seq<char>>, os_config: Option<Seq<char>>) -> Option<
    Seq<char>,
> {
    match override_dir {
        Some(d) => if trim(d).len() > 0 {
            Some(trim(d))
        } else {
            match os_config {
                Some(c) => Some(path_join(c, "codex-trace"@)),
                None => None,
            }
        },
        None => match os_config {
            Some(c) => Some(path_join(c, "codex-trace"@)),
            None => None,
        },
    }
}

/// The app's config root from `$CODEXTRACE_CONFIG_DIR` (raw) and the OS
/// config dir.
pub fn config_root_from(override_dir: Option<String>, os_config: Option<String>) -> (r: Option<String>)
    ensures
        opt_string(r) == config_root_of(opt_string(override_dir), opt_string(os_config)),
{
    match override_dir {
        Some(d) => {
            let t = trim_chars(chars_of(d.as_str()).as_slice());
            if t.len() > 0 {
                return Some(string_of(t.as_slice()));
            }
        },
        None => {},
    }
    match os_config {
        Some(c) => Some(crate::auth::join_path(c.as_str(), "codex-trace")),
        None => None,
    }
}

/// `<config root>/settings.json`.
pub fn settings_path(root: &str) -> (r: String)
    ensures
        r@ == path_join(root@, "settings.json"@),
{
    crate::auth::join_path(root, "settings.json")
}

/// The user's home directory per `dirs::home_dir`, as text (lossily, should it
/// not be UTF-8). What it is depends on the environment; nothing is promised.
#[verifier::external_body]
fn home_dir() -> (r: Option<String>) {
    dirs::home_dir().map(|h| h.to_string_lossy().to_string())
}

/// The sessions directory Codex uses under a home directory,
/// `<home>/.codex/sessions`; empty without a home.
pub open spec fn default_dir_of(home: Option<Seq<char>>) -> Seq<char> {
    match home {
        Some(h) => path_join(path_join(h, ".codex"@), "sessions"@),
        None => Seq::empty(),
    }
}

pub fn default_dir_for(home: Option<String>) -> (r: String)
    ensures
        r@ == default_dir_of(opt_string(home)),
{
    match home {
        Some(h) => {
            let codex = crate::auth::join_path(h.as_str(), ".codex");
            crate::auth::join_path(codex.as_str(), "sessions")
        },
        None => String::new(),
    }
}

/// `~/.codex/sessions` for the current user; empty when there is no home
/// directory.
pub fn platform_default_dir() -> (r: String)
    ensures
        exists|h: Option<Seq<char>>| r@ == default_dir_of(h),
{
    let home = home_dir();
    default_dir_for(home)
}

/// What the Settings screen shows.
pub struct SettingsResponse {
    pub sessions_dir: Option<String>,
    pub default_dir: String,
    /// Extra CORS origins allowed to call the local HTTP API, configured via the
    /// Settings UI.
    pub allowed_origins: Vec<String>,
    /// Whether the HTTP API requires a client credential (false only under
    /// `CODEXTRACE_API_AUTH=off`).
    pub api_auth_enabled: bool,
    /// Where the signing key comes from: `"file"`, `"ephemeral"` or `"disabled"`.
    pub api_auth_source: &'static str,
    /// The accepted clients (never their credentials).
    pub clients: Vec<Client>,
}

fn copy_strings(v: &Vec<String>) -> (r: Vec<String>)
    ensures
        crate::auth::strings(r@) == crate::auth::strings(v@),
{
    let mut out: Vec<String> = Vec::new();
    let mut i: usize = 0;
    while i < v.len()
        invariant
            i <= v@.len(),
            crate::auth::strings(out@) == crate::auth::strings(v@).subrange(0, i as int),
        decreases v@.len() - i,
    {
        let ghost before = crate::auth::strings(out@);
        out.push(v[i].clone());
        assert(crate::auth::strings(out@) =~= before.push(v@[i as int]@));
        assert(crate::auth::strings(out@) =~= crate::auth::strings(v@).subrange(0, i + 1));
        i = i + 1;
    }
    assert(crate::auth::strings(v@).subrange(0, v@.len() as int) =~= crate::auth::strings(v@));
    out
}

/// The Settings screen's data: the settings as they are, the platform default
/// directory, the verification mode, and the clients given.
pub fn build_settings_response(settings: &Settings, auth: &AuthMode, clients: Vec<Client>) -> (r:
    SettingsResponse)
    ensures
        opt_string(r.sessions_dir) == opt_string(settings.sessions_dir),
        exists|h: Option<Seq<char>>| r.default_dir@ == default_dir_of(h),
        crate::auth::strings(r.allowed_origins@) == crate::auth::strings(settings.allowed_origins@),
        r.api_auth_enabled == (*auth is Enabled),
        r.api_auth_source@ == source_name(*auth),
        r.clients@ == clients@,
{
    SettingsResponse {
        sessions_dir: match &settings.sessions_dir {
            Some(d) => Some(d.clone()),
            None => None,
        },
        default_dir: platform_default_dir(),
        allowed_origins: copy_strings(&settings.allowed_origins),
        api_auth_enabled: auth.is_enabled(),
        api_auth_source: auth.source(),
        clients,
    }
}


/// Without a usable override the config root is `codex-trace` under the OS
/// config directory, whenever there is one, the same for an absent override
/// as for a blank one; a non-blank override is used trimmed, whatever the OS
/// config directory; with neither there is no config root.
pub proof fn law_config_root_falls_back_to_the_os_config_dir(
    d: Seq<char>,
    c: Seq<char>,
    other: Option<Seq<char>>,
)
    ensures
        config_root_of(None, Some(c)) is Some,
        c.len() > 0 && c.last() != '/' ==> config_root_of(None, Some(c)) == Some(c + "/codex-trace"@),
        config_root_of(None, Some(c)) == Some(path_join(c, "codex-trace"@)),
        trim(d).len() == 0 ==> config_root_of(Some(d), other) == config_root_of(None, other),
        trim(d).len() > 0 ==> config_root_of(Some(d), other) == Some(trim(d)),
        config_root_of(None, None) is None,
{
    reveal_strlit("codex-trace");
    reveal_strlit("/codex-trace");
    assert(seq!['/'] + "codex-trace"@ =~= "/codex-trace"@);
    assert(c + seq!['/'] + "codex-trace"@ =~= c + "/codex-trace"@);
}

} // verus!
