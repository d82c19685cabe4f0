//! The local HTTP API's startup choices and request-side rules: bind address,
//! the CORS origin allowlist, and how a failed session load is answered.
//!
//! Reading the environment, serving requests and streaming events are left to
//! the server around this module, which hands in the raw values.

use vstd::prelude::*;

use crate::auth::strings;
use crate::jwt::opt_string;
use crate::text::{chars_eq, chars_of, split_char, split_chars, string_of, trim, trim_chars, views};

verus! {

pub const DEFAULT_HTTP_HOST: &'static str = "127.0.0.1";

pub const DEFAULT_HTTP_PORT: u16 = 11424;

/// The first built-in CORS origin: the dev web UI on `localhost`.
pub const DEV_ORIGIN_LOCALHOST: &'static str = "http://localhost:1420";

/// The second built-in CORS origin: the dev web UI on the loopback address.
pub const DEV_ORIGIN_LOOPBACK: &'static str = "http://127.0.0.1:1420";

/// Origins the browser UI is served from. In web/dev mode the frontend runs on
/// `localhost:1420` and calls the API on port 11424 (a distinct origin), so
/// these are allowlisted for CORS. The desktop webview talks to the backend
/// over IPC and the Docker image serves the UI same-origin, so neither needs
/// an entry here. Extra origins can be added at launch via
/// `CODEXTRACE_ALLOWED_ORIGINS` or at runtime from Settings; the two are
/// unioned, not replaced.
pub const DEFAULT_ALLOWED_ORIGINS: [&'static str; 2] = [DEV_ORIGIN_LOCALHOST, DEV_ORIGIN_LOOPBACK];

/// The host to bind: the given one unless it is missing or empty.
pub fn pick_host(raw: Option<String>) -> (r: String)
    ensures
        r@ == match opt_string(raw) {
            Some(h) => if h.len() > 0 {
                h
            } else {
                DEFAULT_HTTP_HOST@
            },
            None => DEFAULT_HTTP_HOST@,
        },
{
    match raw {
        Some(h) => {
            if h.as_str().is_empty() {
                String::from_str(DEFAULT_HTTP_HOST)
            } else {
                h
            }
        },
        None => String::from_str(DEFAULT_HTTP_HOST),
    }
}

pub open spec fn is_digit(c: char) -> bool {
    48 <= c as u32 <= 57
}

/// The value of a run of decimal digits.
pub open spec fn digits_value(d: Seq<char>) -> nat
    decreases d.len(),
{
    if d.len() == 0 {
        0
    } else {
        digits_value(d.drop_last()) * 10 + (d.last() as u32 - 48) as nat
    }
}

/// The text after an optional leading `+`.
pub open spec fn sign_stripped(s: Seq<char>) -> Seq<char> {
    if s.len() > 0 && s[0] == '+' {
        s.drop_first()
    } else {
        s
    }
}

pub open spec fn all_digits(d: Seq<char>) -> bool {
    forall|k: int| 0 <= k < d.len() ==> is_digit(#[trigger] d[k])
}

/// `str::parse::<u16>`: an optional `+`, then one or more decimal digits whose
/// value fits in 16 bits. No white space, no `-`.
pub open spec fn parse_u16_of(s: Seq<char>) -> Option<u16> {
    let d = sign_stripped(s);
    if d.len() == 0 || !all_digits(d) {
        None
    } else if digits_value(d) > 65535 {
        None
    } else {
        Some(digits_value(d) as u16)
    }
}

proof fn lemma_digits_value_grows(d: Seq<char>, k: int)
    requires
        0 <= k <= d.len(),
        forall|j: int| 0 <= j < d.len() ==> is_digit(#[trigger] d[j]),
    ensures
        digits_value(d) >= digits_value(d.subrange(0, k)),
    decreases d.len() - k,
{
    if k < d.len() {
        let t = d.drop_last();
        if k < d.len() {
            assert(t.subrange(0, k) =~= d.subrange(0, k));
            assert forall|j: int| 0 <= j < t.len() implies is_digit(#[trigger] t[j]) by {
                assert(t[j] == d[j]);
            }
            if k <= t.len() {
                lemma_digits_value_grows(t, k);
            }
        }
    } else {
        assert(d.subrange(0, k) =~= d);
    }
}

/// Parse a port number the way `str::parse::<u16>` does.
pub fn parse_u16(text: &str) -> (r: Option<u16>)
    ensures
        r == parse_u16_of(text@),
{
    let s = chars_of(text);
    let start: usize = if s.len() > 0 && s[0] == '+' {
        1
    } else {
        0
    };
    let n = s.len();
    let ghost d = sign_stripped(s@);
    assert(d =~= s@.subrange(start as int, n as int));
    if start == n {
        return None;
    }
    let mut acc: u32 = 0;
    let mut i: usize = start;
    assert(d.subrange(0, 0) =~= Seq::<char>::empty());
    while i < n
        invariant
            start <= i <= n,
            n == s@.len(),
            s@ == text@,
            d == sign_stripped(s@),
            d == s@.subrange(start as int, n as int),
            forall|j: int| start <= j < i ==> is_digit(#[trigger] s@[j]),
            acc == digits_value(d.subrange(0, i - start)),
            acc <= 65535,
        decreases n - i,
    {
        let c = s[i];
        if !(48 <= (c as u32) && (c as u32) <= 57) {
            assert(d[i - start] == c);
            assert(!is_digit(d[i - start]));
            assert(parse_u16_of(text@) is None);
            return None;
        }
        let v = (c as u32) - 48;
        let ghost pre = d.subrange(0, i - start);
        let ghost next = d.subrange(0, i + 1 - start);
        assert(next.drop_last() =~= pre);
        assert(next.last() == c);
        let grown: u32 = acc * 10 + v;
        assert(grown == digits_value(next));
        if grown > 65535 {
            proof {
                assert forall|j: int| 0 <= j < d.len() implies is_digit(#[trigger] d[j]) || j
                    >= i + 1 - start by {
                    if j < i + 1 - start {
                        assert(d[j] == s@[start + j]);
                    }
                }
                if all_digits(d) {
                    lemma_digits_value_grows(d, i + 1 - start);
                }
            }
            return None;
        }
        acc = grown;
        i = i + 1;
    }
    assert(d.subrange(0, n - start) =~= d);
    assert forall|j: int| 0 <= j < d.len() implies is_digit(#[trigger] d[j]) by {
        assert(d[j] == s@[start + j]);
    }
    Some(acc as u16)
}

/// The port to bind: the given one when it parses as a `u16`, else the default.
pub fn pick_port(raw: Option<String>) -> (r: u16)
    ensures
        r == match opt_string(raw) {
            Some(t) => match parse_u16_of(t) {
                Some(p) => p,
                None => DEFAULT_HTTP_PORT,
            },
            None => DEFAULT_HTTP_PORT,
        },
{
    match raw {
        Some(t) => match parse_u16(t.as_str()) {
            Some(p) => p,
            None => DEFAULT_HTTP_PORT,
        },
        None => DEFAULT_HTTP_PORT,
    }
}

/// The pieces of a comma-separated list, trimmed, with the empty ones dropped.
pub open spec fn nonempty_trimmed(parts: Seq<Seq<char>>) -> Seq<Seq<char>>
    decreases parts.len(),
{
    if parts.len() == 0 {
        Seq::empty()
    } else {
        let rest = nonempty_trimmed(parts.drop_last());
        if trim(parts.last()).len() > 0 {
            rest.push(trim(parts.last()))
        } else {
            rest
        }
    }
}

pub open spec fn extra_origins_of(raw: Option<Seq<char>>) -> Seq<Seq<char>> {
    match raw {
        Some(s) => nonempty_trimmed(split_char(s, ',')),
        None => Seq::empty(),
    }
}

/// Split a raw `CODEXTRACE_ALLOWED_ORIGINS` value into individual origins,
/// dropping empty entries and surrounding white space.
pub fn parse_extra_origins(raw: Option<String>) -> (r: Vec<String>)
    ensures
        strings(r@) == extra_origins_of(opt_string(raw)),
{
    let mut out: Vec<String> = Vec::new();
    match raw {
        None => {
            assert(strings(out@) =~= Seq::<Seq<char>>::empty());
            out
        },
        Some(s) => {
            let parts = split_chars(chars_of(s.as_str()).as_slice(), ',');
            let ghost all = views(parts@);
            let mut i: usize = 0;
            assert(strings(out@) =~= nonempty_trimmed(all.subrange(0, 0)));
            while i < parts.len()
                invariant
                    all == views(parts@),
                    i <= parts@.len(),
                    strings(out@) == nonempty_trimmed(all.subrange(0, i as int)),
                decreases parts@.len() - i,
            {
                let t = trim_chars(parts[i].as_slice());
                let ghost next = all.subrange(0, i + 1);
                assert(next.drop_last() =~= all.subrange(0, i as int));
                assert(next.last() == parts@[i as int]@);
                if t.len() > 0 {
                    let ghost before = strings(out@);
                    out.push(string_of(t.as_slice()));
                    assert(strings(out@) =~= before.push(t@));
                }
                i = i + 1;
            }
            assert(all.subrange(0, parts@.len() as int) =~= all);
            out
        },
    }
}

pub open spec fn default_origins() -> Seq<Seq<char>> {
    seq![DEV_ORIGIN_LOCALHOST@, DEV_ORIGIN_LOOPBACK@]
}

/// The static half of the CORS allowlist: the built-in dev origins, then those
/// from the raw `CODEXTRACE_ALLOWED_ORIGINS` value.
pub fn resolve_allowed_origins_from(raw: Option<String>) -> (r: Vec<String>)
    ensures
        strings(r@) == default_origins() + extra_origins_of(opt_string(raw)),
{
    let mut out: Vec<String> = Vec::new();
    out.push(String::from_str(DEV_ORIGIN_LOCALHOST));
    out.push(String::from_str(DEV_ORIGIN_LOOPBACK));
    let extra = parse_extra_origins(raw);
    let ghost head = strings(out@);
    assert(head =~= default_origins());
    let mut i: usize = 0;
    while i < extra.len()
        invariant
            head == default_origins(),
            i <= extra@.len(),
            strings(out@) == head + strings(extra@).subrange(0, i as int),
        decreases extra@.len() - i,
    {
        let ghost before = strings(out@);
        out.push(extra[i].clone());
        assert(strings(out@) =~= before.push(extra@[i as int]@));
        assert(strings(out@) =~= head + strings(extra@).subrange(0, i + 1));
        i = i + 1;
    }
    assert(strings(extra@).subrange(0, extra@.len() as int) =~= strings(extra@));
    out
}

/// Exact membership: deliberately not a prefix or suffix match, so that
/// `http://localhost:1420.evil.com` does not pass for starting with an allowed
/// origin. Case and scheme count.
pub open spec fn origin_allowed_in(origin: Seq<char>, stat: Seq<Seq<char>>, live: Seq<Seq<char>>) -> bool {
    stat.contains(origin) || live.contains(origin)
}

fn listed(origin: &[char], list: &[String]) -> (r: bool)
    ensures
        r == strings(list@).contains(origin@),
{
    let mut i: usize = 0;
    while i < list.len()
        invariant
            i <= list@.len(),
            forall|k: int| 0 <= k < i ==> strings(list@)[k] != origin@,
        decreases list@.len() - i,
    {
        assert(strings(list@)[i as int] == list@[i as int]@);
        if chars_eq(chars_of(list[i].as_str()).as_slice(), origin) {
            return true;
        }
        i = i + 1;
    }
    false
}

/// Exact string match against either half of the allowlist.
pub fn origin_allowed(origin: &str, static_origins: &[String], live_origins: &[String]) -> (r: bool)
    ensures
        r == origin_allowed_in(origin@, strings(static_origins@), strings(live_origins@)),
{
    let o = chars_of(origin);
    listed(o.as_slice(), static_origins) || listed(o.as_slice(), live_origins)
}

/// The error `load_session_from_path` gives for an empty path.
pub const NO_SESSION_PATH_PROVIDED: &'static str = "no session path provided";

/// The status a failed session load is answered with: `400` for a request
/// without a path, `500` for anything else.
pub fn session_load_error_status(msg: &str) -> (r: u16)
    ensures
        r == if msg@ == NO_SESSION_PATH_PROVIDED@ {
            400u16
        } else {
            500u16
        },
{
    if chars_eq(chars_of(msg).as_slice(), chars_of(NO_SESSION_PATH_PROVIDED).as_slice()) {
        400
    } else {
        500
    }
}

/// Load a session from `path` with `parse`, refusing an empty path before
/// anything is read.
pub fn load_session_from_path<T, F: Fn(&str) -> Result<T, String>>(path: &str, parse: F) -> (r:
    Result<T, String>)
    requires
        path@.len() > 0 ==> call_requires(parse, (path,)),
    ensures
        path@.len() == 0 ==> (r matches Err(e) && e@ == NO_SESSION_PATH_PROVIDED@),
        path@.len() > 0 ==> call_ensures(parse, (path,), r),
{
    if path.is_empty() {
        return Err(String::from_str(NO_SESSION_PATH_PROVIDED));
    }
    parse(path)
}

/// Why a new sessions directory is refused, if it is: it must exist and be a
/// directory.
pub fn sessions_dir_error(path: &str, exists: bool, is_dir: bool) -> (r: Option<String>)
    ensures
        !exists ==> (r matches Some(e) && e@ == "path does not exist: "@ + path@),
        exists && !is_dir ==> (r matches Some(e) && e@ == "path is not a directory: "@ + path@),
        exists && is_dir ==> r is None,
{
    if !exists {
        let mut m = chars_of("path does not exist: ");
        crate::text::push_all(&mut m, chars_of(path).as_slice());
        return Some(string_of(m.as_slice()));
    }
    if !is_dir {
        let mut m = chars_of("path is not a directory: ");
        crate::text::push_all(&mut m, chars_of(path).as_slice());
        return Some(string_of(m.as_slice()));
    }
    None
}


/// An origin is allowed exactly when one of the static origins or one of the
/// live (Settings) origins is that very origin: the two lists are unioned,
/// and being in either one is enough, whatever the other holds.
pub proof fn law_origins_are_the_union_of_both_lists(
    origin: Seq<char>,
    stat: Seq<Seq<char>>,
    live: Seq<Seq<char>>,
)
    ensures
        origin_allowed_in(origin, stat, live) <==> ((exists|i: int| 0 <= i < stat.len() && stat[i] == origin)
            || (exists|j: int| 0 <= j < live.len() && live[j] == origin)),
        forall|j: int| 0 <= j < live.len() && live[j] == origin ==> origin_allowed_in(origin, stat, live),
        forall|i: int| 0 <= i < stat.len() && stat[i] == origin ==> origin_allowed_in(origin, stat, live),
{
}

} // verus!
