//! Client verification for the local HTTP API.
//!
//! Every `/api/*` route requires the caller to present a signed credential that
//! identifies it as a registered, non-revoked *client* (see `crate::clients`).
//! Without this, any local process (or, when Docker binds `0.0.0.0`, any LAN
//! host) could read session transcripts or rewrite `settings.json`; and with a
//! single shared secret nobody could tell clients apart or revoke just one.
//!
//! Resolution at startup:
//!
//! 1. `CODEXTRACE_API_AUTH=off` disables verification entirely (loud warning).
//! 2. Otherwise the HS256 signing key lives in `<config root>/api-secret`,
//!    created on first run; the registry in `clients.json`; and the built-in
//!    clients' credentials in `clients/<name>.jwt`, rewritten whenever they are
//!    missing or no longer valid (reissue, new key).
//! 3. If the config dir is unusable the server runs on an in-memory key
//!    (`ephemeral`): still fail-closed, but only the same-origin web UI (which
//!    receives its credential from this very process) can authenticate.
//!
//! This module holds every decision of that resolution and of the request
//! side; reading and writing the files is left to the caller, which hands the
//! outcomes in as plain values.
//!
//! Accepted carriers on a request, in this order: `X-CodexTrace-Token` header,
//! `Authorization: Bearer`, `?token=` query (browser `EventSource` cannot set
//! headers), and the `codextrace_token` cookie the server itself sets on the
//! Docker same-origin UI.

use axum::http::HeaderValue;
use vstd::prelude::*;
use vstd::utf8::{decode_utf8, encode_utf8, is_ascii_chars, valid_utf8};

use crate::clients::{
    hex_lower_char, position_of, reissued_view, revoked_view, uuid_hyphenated, uuid_parse, uuid_parse_of, uuid_text,
    Client, ClientRegistry, ClientView,
};
use crate::jwt::{sign, verify, Claims};
use crate::text::{chars_of, push_all, string_of};

verus! {

/// Request header carrying the credential (primary carrier for the web UI).
pub const TOKEN_HEADER: &'static str = "x-codextrace-token";

/// Cookie the server sets for the same-origin (Docker) browser UI.
pub const TOKEN_COOKIE: &'static str = "codextrace_token";

/// Query parameter carrier, needed by browser `EventSource` for `/api/events`.
pub const TOKEN_QUERY: &'static str = "token";

/// Env var that disables verification when set to `off`.
pub const ENV_AUTH: &'static str = "CODEXTRACE_API_AUTH";

// ---------------------------------------------------------------------------
// Modes
// ---------------------------------------------------------------------------

/// Where the signing key came from.
#[derive(Clone, Copy, Debug, PartialEq, Eq, Structural)]
pub enum KeySource {
    /// `<config root>/api-secret`.
    File,
    /// In-memory only: the config dir could not be used. Credentials minted
    /// this run die with the process, and the dev server cannot read them.
    Ephemeral,
}

/// Live verification mode, read on every request.
#[derive(Clone)]
pub enum AuthMode {
    /// `CODEXTRACE_API_AUTH=off`: every request is accepted, no identity attached.
    Disabled,
    Enabled { key: Vec<u8>, source: KeySource },
}

pub open spec fn source_name(mode: AuthMode) -> Seq<char> {
    match mode {
        AuthMode::Disabled => "disabled"@,
        AuthMode::Enabled { source: KeySource::File, .. } => "file"@,
        AuthMode::Enabled { source: KeySource::Ephemeral, .. } => "ephemeral"@,
    }
}

pub open spec fn key_source_text(source: KeySource) -> Seq<char> {
    match source {
        KeySource::File => "File"@,
        KeySource::Ephemeral => "Ephemeral"@,
    }
}

/// The debug text of a mode: the key is shown only by its length.
pub open spec fn mode_debug_text(mode: AuthMode) -> Seq<char> {
    match mode {
        AuthMode::Disabled => "Disabled"@,
        AuthMode::Enabled { key, source } => "Enabled { key: <redacted "@ + crate::text::dec_nat(
            key@.len(),
        ) + " bytes>, source: "@ + key_source_text(source) + " }"@,
    }
}

impl AuthMode {
    pub fn is_enabled(&self) -> (r: bool)
        ensures
            r == (*self is Enabled),
    {
        match self {
            AuthMode::Disabled => false,
            AuthMode::Enabled { .. } => true,
        }
    }

    pub fn key(&self) -> (r: Option<&[u8]>)
        ensures
            match *self {
                AuthMode::Disabled => r is None,
                AuthMode::Enabled { key, .. } => r matches Some(k) && k@ == key@,
            },
    {
        match self {
            AuthMode::Disabled => None,
            AuthMode::Enabled { key, .. } => Some(key.as_slice()),
        }
    }

    /// Stable string for the frontend: `"disabled"`, `"file"`, or `"ephemeral"`.
    pub fn source(&self) -> (r: &'static str)
        ensures
            r@ == source_name(*self),
    {
        match self {
            AuthMode::Disabled => "disabled",
            AuthMode::Enabled { source: KeySource::File, .. } => "file",
            AuthMode::Enabled { source: KeySource::Ephemeral, .. } => "ephemeral",
        }
    }

    /// The mode as debug text. Never prints the signing key, only its length.
    pub fn debug_text(&self) -> (r: String)
        ensures
            r@ == mode_debug_text(*self),
    {
        match self {
            AuthMode::Disabled => String::from_str("Disabled"),
            AuthMode::Enabled { key, source } => {
                let mut out = chars_of("Enabled { key: <redacted ");
                let n = key.len();
                push_all(&mut out, crate::text::dec_u64_chars(n as u64).as_slice());
                push_all(&mut out, chars_of(" bytes>, source: ").as_slice());
                let name = match source {
                    KeySource::File => "File",
                    KeySource::Ephemeral => "Ephemeral",
                };
                push_all(&mut out, chars_of(name).as_slice());
                push_all(&mut out, chars_of(" }").as_slice());
                string_of(out.as_slice())
            },
        }
    }
}

// ---------------------------------------------------------------------------
// Files
// ---------------------------------------------------------------------------

/// `Path::join` on Unix: an absolute `seg` replaces the path; otherwise a `/`
/// separates the two unless `root` is empty or already ends with one.
pub open spec fn path_join(root: Seq<char>, seg: Seq<char>) -> Seq<char> {
    if seg.len() > 0 && seg[0] == '/' {
        seg
    } else if root.len() == 0 || root.last() == '/' {
        root + seg
    } else {
        root + seq!['/'] + seg
    }
}

pub fn join_path(root: &str, seg: &str) -> (r: String)
    ensures
        r@ == path_join(root@, seg@),
{
    let s = chars_of(seg);
    if s.len() > 0 && s[0] == '/' {
        return string_of(s.as_slice());
    }
    let mut out = chars_of(root);
    if out.len() > 0 && out[out.len() - 1] != '/' {
        out.push('/');
    }
    push_all(&mut out, s.as_slice());
    string_of(out.as_slice())
}

pub fn secret_path(root: &str) -> (r: String)
    ensures
        r@ == path_join(root@, "api-secret"@),
{
    join_path(root, "api-secret")
}

pub fn registry_path(root: &str) -> (r: String)
    ensures
        r@ == path_join(root@, "clients.json"@),
{
    join_path(root, "clients.json")
}

/// `<config root>/clients/<name>.jwt`: where a built-in client's credential is
/// kept so the Vite dev server (`web-ui`) can read it.
pub fn builtin_credential_path(root: &str, name: &str) -> (r: String)
    ensures
        r@ == path_join(path_join(root@, "clients"@), name@ + ".jwt"@),
{
    let dir = join_path(root, "clients");
    let mut file = chars_of(name);
    push_all(&mut file, chars_of(".jwt").as_slice());
    let file = string_of(file.as_slice());
    join_path(dir.as_str(), file.as_str())
}

// ---------------------------------------------------------------------------
// Hex keys
// ---------------------------------------------------------------------------

/// `{b:02x}` for every byte, concatenated.
pub open spec fn hex_lower(b: Seq<u8>) -> Seq<char>
    decreases b.len(),
{
    if b.len() == 0 {
        Seq::empty()
    } else {
        hex_lower(b.drop_last()) + seq![hex_lower_char(b.last() as int / 16), hex_lower_char(b.last() as int % 16)]
    }
}

/// A hex digit's value, either case.
pub open spec fn hex_value(c: char) -> Option<int> {
    let u = c as u32;
    if 48 <= u <= 57 {
        Some(u - 48)
    } else if 97 <= u <= 102 {
        Some(u - 87)
    } else if 65 <= u <= 70 {
        Some(u - 55)
    } else {
        None
    }
}

/// `u8::from_str_radix(<a><b>, 16)`: two hex digits, or a `+` sign and one.
pub open spec fn radix16_pair(a: char, b: char) -> Option<u8> {
    if a == '+' {
        match hex_value(b) {
            Some(y) => Some(y as u8),
            None => None,
        }
    } else {
        match (hex_value(a), hex_value(b)) {
            (Some(x), Some(y)) => Some((x * 16 + y) as u8),
            _ => None,
        }
    }
}

/// The bytes of a text read two characters at a time.
pub open spec fn hex_pairs(s: Seq<char>) -> Option<Seq<u8>>
    decreases s.len(),
{
    if s.len() == 0 {
        Some(Seq::empty())
    } else if s.len() < 2 {
        None
    } else {
        match hex_pairs(s.subrange(0, s.len() - 2)) {
            None => None,
            Some(pre) => match radix16_pair(s[s.len() - 2], s[s.len() - 1]) {
                None => None,
                Some(b) => Some(pre.push(b)),
            },
        }
    }
}

/// What `hex_to_bytes` reads from a key file's text.
pub open spec fn hex_key_bytes(s: Seq<char>) -> Option<Seq<u8>> {
    if !is_ascii_chars(s) || s.len() % 2 != 0 || s.len() == 0 {
        None
    } else {
        hex_pairs(s)
    }
}

pub open spec fn opt_bytes(o: Option<Vec<u8>>) -> Option<Seq<u8>> {
    match o {
        Some(v) => Some(v@),
        None => None,
    }
}

fn hex_value_of(c: char) -> (r: Option<u8>)
    ensures
        match hex_value(c) {
            Some(v) => r == Some(v as u8),
            None => r is None,
        },
{
    let u = c as u32;
    if 48 <= u && u <= 57 {
        Some((u - 48) as u8)
    } else if 97 <= u && u <= 102 {
        Some((u - 87) as u8)
    } else if 65 <= u && u <= 70 {
        Some((u - 55) as u8)
    } else {
        None
    }
}

fn radix16_pair_of(a: char, b: char) -> (r: Option<u8>)
    ensures
        r == radix16_pair(a, b),
{
    if a == '+' {
        hex_value_of(b)
    } else {
        match (hex_value_of(a), hex_value_of(b)) {
            (Some(x), Some(y)) => Some(x * 16 + y),
            _ => None,
        }
    }
}

/// Decode a hex key. `None` unless the text is ASCII, non-empty, of even
/// length, and every pair parses as `u8::from_str_radix(pair, 16)` does.
pub fn hex_to_bytes(hex: &str) -> (r: Option<Vec<u8>>)
    ensures
        opt_bytes(r) == hex_key_bytes(hex@),
{
    let s = chars_of(hex);
    let n = s.len();
    let ascii = hex.is_ascii();
    if !ascii || n % 2 != 0 || n == 0 {
        return None;
    }
    let mut out: Vec<u8> = Vec::new();
    let mut i: usize = 0;
    assert(s@.subrange(0, 0) =~= Seq::<char>::empty());
    while i < n
        invariant
            n == s@.len(),
            n % 2 == 0,
            i <= n,
            i % 2 == 0,
            hex_pairs(s@.subrange(0, i as int)) == Some(out@),
            s@ == hex@,
            is_ascii_chars(s@),
            hex_key_bytes(s@) == hex_pairs(s@),
        decreases n - i,
    {
        let pair = radix16_pair_of(s[i], s[i + 1]);
        let ghost next = s@.subrange(0, i + 2);
        assert(next.subrange(0, next.len() - 2) =~= s@.subrange(0, i as int));
        match pair {
            None => {
                proof {
                    assert(next[next.len() - 2] == s@[i as int]);
                    assert(next[next.len() - 1] == s@[i + 1]);
                    assert(hex_pairs(next) is None);
                    lemma_hex_pairs_none_extends(s@, i as int + 2);
                }
                return None;
            },
            Some(b) => {
                out.push(b);
                proof {
                    assert(next[next.len() - 2] == s@[i as int]);
                    assert(next[next.len() - 1] == s@[i + 1]);
                }
            },
        }
        i = i + 2;
    }
    assert(s@.subrange(0, n as int) =~= s@);
    Some(out)
}

/// Once a prefix fails to parse, every longer even prefix fails too.
proof fn lemma_hex_pairs_none_extends(s: Seq<char>, i: int)
    requires
        2 <= i <= s.len(),
        i % 2 == 0,
        s.len() % 2 == 0,
        hex_pairs(s.subrange(0, i)) is None,
    ensures
        hex_pairs(s) is None,
    decreases s.len() - i,
{
    if i < s.len() {
        let next = s.subrange(0, i + 2);
        assert(next.subrange(0, next.len() - 2) =~= s.subrange(0, i));
        lemma_hex_pairs_none_extends(s, i + 2);
    } else {
        assert(s.subrange(0, i) =~= s);
    }
}

fn hex_digit_of(d: u8) -> (c: char)
    requires
        d < 16,
    ensures
        c == hex_lower_char(d as int),
{
    if d < 10 {
        ((48 + d) as u8) as char
    } else {
        ((87 + d) as u8) as char
    }
}

/// Each byte as two lower-case hex digits (`{b:02x}`), concatenated.
pub fn to_hex_lower(bytes: &[u8]) -> (r: String)
    ensures
        r@ == hex_lower(bytes@),
{
    let mut out: Vec<char> = Vec::new();
    let mut i: usize = 0;
    while i < bytes.len()
        invariant
            i <= bytes@.len(),
            out@ == hex_lower(bytes@.subrange(0, i as int)),
        decreases bytes@.len() - i,
    {
        let b = bytes[i];
        out.push(hex_digit_of(b / 16));
        out.push(hex_digit_of(b % 16));
        let ghost next = bytes@.subrange(0, i + 1);
        assert(next.drop_last() =~= bytes@.subrange(0, i as int));
        i = i + 1;
        assert(out@ =~= hex_lower(bytes@.subrange(0, i as int)));
    }
    assert(bytes@.subrange(0, bytes@.len() as int) =~= bytes@);
    string_of(out.as_slice())
}

/// Random bytes from `rand::rng()` (the thread-local generator seeded from the
/// operating system), filled with `RngCore::fill_bytes`. Nothing is promised
/// of them but their count, 32. Like the generator, this panics if the
/// operating system cannot seed it.
#[verifier::external_body]
fn random_key_bytes() -> (b: Vec<u8>)
    ensures
        b@.len() == 32,
{
    let mut buf = [0u8; 32];
    rand::RngCore::fill_bytes(&mut rand::rng(), &mut buf);
    buf.to_vec()
}

/// 32 random bytes as 64 lower-case hex characters.
pub fn generate_secret_hex() -> (r: String)
    ensures
        exists|b: Seq<u8>| b.len() == 32 && r@ == hex_lower(b),
        r@.len() == 64,
{
    let bytes = random_key_bytes();
    let r = to_hex_lower(bytes.as_slice());
    proof {
        lemma_hex_lower_len(bytes@);
    }
    r
}

/// A fresh in-memory key: the bytes of a generated secret, 32 of them.
pub fn ephemeral_key() -> (k: Vec<u8>)
    ensures
        k@.len() == 32,
{
    let hex = generate_secret_hex();
    let ghost b = choose|b: Seq<u8>| b.len() == 32 && hex@ == hex_lower(b);
    proof {
        law_hex_roundtrip(b);
    }
    match hex_to_bytes(hex.as_str()) {
        Some(k) => k,
        None => Vec::new(),
    }
}

pub proof fn lemma_hex_lower_len(b: Seq<u8>)
    ensures
        hex_lower(b).len() == 2 * b.len(),
    decreases b.len(),
{
    if b.len() > 0 {
        lemma_hex_lower_len(b.drop_last());
    }
}

proof fn lemma_hex_lower_ascii(b: Seq<u8>)
    ensures
        is_ascii_chars(hex_lower(b)),
    decreases b.len(),
{
    if b.len() > 0 {
        lemma_hex_lower_ascii(b.drop_last());
        let s = hex_lower(b);
        let pre = hex_lower(b.drop_last());
        assert forall|i: int| 0 <= i < s.len() implies (s[i] as u32) < 128 by {
            if i < pre.len() {
                assert(s[i] == pre[i]);
            }
        }
    }
}

/// Decoding the hex text of some bytes gives the bytes back, for any non-empty
/// byte string.
pub proof fn law_hex_roundtrip(b: Seq<u8>)
    requires
        b.len() > 0,
    ensures
        hex_key_bytes(hex_lower(b)) == Some(b),
{
    lemma_hex_lower_len(b);
    lemma_hex_lower_ascii(b);
    lemma_hex_pairs_of_lower(b);
}

proof fn lemma_hex_pairs_of_lower(b: Seq<u8>)
    ensures
        hex_pairs(hex_lower(b)) == Some(b),
    decreases b.len(),
{
    if b.len() == 0 {
        assert(hex_lower(b) =~= Seq::<char>::empty());
    } else {
        let pre = b.drop_last();
        lemma_hex_pairs_of_lower(pre);
        lemma_hex_lower_len(pre);
        let s = hex_lower(b);
        assert(s.subrange(0, s.len() - 2) =~= hex_lower(pre));
        let x = b.last() as int;
        assert(hex_value(hex_lower_char(x / 16)) == Some(x / 16));
        assert(hex_value(hex_lower_char(x % 16)) == Some(x % 16));
        assert(hex_lower_char(x / 16) != '+');
        assert((x / 16) * 16 + x % 16 == x);
        assert(pre.push(b.last()) =~= b);
    }
}

// ---------------------------------------------------------------------------
// Request-side carriers
// ---------------------------------------------------------------------------

/// What `String::from_utf8_lossy` makes of some bytes.
pub uninterp spec fn utf8_lossy_of(bytes: Seq<u8>) -> Seq<char>;

/// `String::from_utf8_lossy(bytes).into_owned()`: the text the bytes encode,
/// each invalid sequence replaced by U+FFFD. The result is named by
/// `utf8_lossy_of`; valid UTF-8 decodes to exactly the text it encodes.
#[verifier::external_body]
fn utf8_lossy(bytes: &[u8]) -> (s: String)
    ensures
        s@ == utf8_lossy_of(bytes@),
        valid_utf8(bytes@) ==> s@ == decode_utf8(bytes@),
{
    String::from_utf8_lossy(bytes).into_owned()
}

/// The value of an ASCII hex digit byte, either case.
pub open spec fn hex_byte_value(b: u8) -> Option<int> {
    if 48 <= b <= 57 {
        Some(b - 48)
    } else if 97 <= b <= 102 {
        Some(b - 87)
    } else if 65 <= b <= 70 {
        Some(b - 55)
    } else {
        None
    }
}

/// `%XX` escapes decoded, byte by byte; a `%` not followed by two hex digits
/// is kept as it is.
pub open spec fn pct_bytes(b: Seq<u8>) -> Seq<u8>
    decreases b.len(),
{
    if b.len() == 0 {
        Seq::empty()
    } else if b[0] == 37 && b.len() > 2 && hex_byte_value(b[1]) is Some && hex_byte_value(
        b[2],
    ) is Some {
        seq![(hex_byte_value(b[1])->0 * 16 + hex_byte_value(b[2])->0) as u8] + pct_bytes(
            b.subrange(3, b.len() as int),
        )
    } else {
        seq![b[0]] + pct_bytes(b.subrange(1, b.len() as int))
    }
}

/// What `percent_decode` makes of a text.
pub open spec fn percent_decoded(s: Seq<char>) -> Seq<char> {
    utf8_lossy_of(pct_bytes(encode_utf8(s)))
}

fn hex_byte_value_of(b: u8) -> (r: Option<u8>)
    ensures
        match hex_byte_value(b) {
            Some(v) => r == Some(v as u8),
            None => r is None,
        },
{
    if 48 <= b && b <= 57 {
        Some(b - 48)
    } else if 97 <= b && b <= 102 {
        Some(b - 87)
    } else if 65 <= b && b <= 70 {
        Some(b - 55)
    } else {
        None
    }
}

/// Decode `%XX` escapes (as produced by `encodeURIComponent`). A `+` is left
/// literal. Malformed escapes are passed through unchanged, and a decoded byte
/// sequence that is not UTF-8 comes out with replacement characters.
pub fn percent_decode(s: &str) -> (r: String)
    ensures
        r@ == percent_decoded(s@),
        valid_utf8(pct_bytes(encode_utf8(s@))) ==> r@ == decode_utf8(pct_bytes(encode_utf8(s@))),
        (forall|k: int| 0 <= k < s@.len() ==> s@[k] != '%') ==> r@ == s@,
{
    let bytes = s.as_bytes();
    let n = bytes.len();
    let mut out: Vec<u8> = Vec::new();
    let mut i: usize = 0;
    assert(bytes@.subrange(0, n as int) =~= bytes@);
    while i < n
        invariant
            n == bytes@.len(),
            i <= n,
            out@ + pct_bytes(bytes@.subrange(i as int, n as int)) == pct_bytes(bytes@),
        decreases n - i,
    {
        let ghost rest = bytes@.subrange(i as int, n as int);
        if bytes[i] == 37 && n - i > 2 {
            let hi = hex_byte_value_of(bytes[i + 1]);
            let lo = hex_byte_value_of(bytes[i + 2]);
            if let (Some(h), Some(l)) = (hi, lo) {
                let v: u8 = h * 16 + l;
                proof {
                    assert(rest[0] == bytes@[i as int]);
                    assert(rest[1] == bytes@[i + 1]);
                    assert(rest[2] == bytes@[i + 2]);
                    assert(rest.subrange(3, rest.len() as int) =~= bytes@.subrange(i + 3, n as int));
                }
                let ghost before = out@;
                out.push(v);
                assert(out@ + pct_bytes(bytes@.subrange(i + 3, n as int)) =~= before + pct_bytes(
                    rest,
                ));
                i = i + 3;
                continue;
            }
        }
        proof {
            assert(rest[0] == bytes@[i as int]);
            if rest.len() > 2 {
                assert(rest[1] == bytes@[i + 1]);
                assert(rest[2] == bytes@[i + 2]);
            }
            assert(rest.subrange(1, rest.len() as int) =~= bytes@.subrange(i + 1, n as int));
        }
        let ghost before = out@;
        out.push(bytes[i]);
        assert(out@ + pct_bytes(bytes@.subrange(i + 1, n as int)) =~= before + pct_bytes(rest));
        i = i + 1;
    }
    assert(bytes@.subrange(n as int, n as int) =~= Seq::<u8>::empty());
    assert(out@ =~= pct_bytes(bytes@));
    proof {
        if forall|k: int| 0 <= k < s@.len() ==> s@[k] != '%' {
            lemma_encode_utf8_no_percent(s@);
            lemma_pct_bytes_identity(bytes@);
            vstd::utf8::encode_utf8_valid_utf8(s@);
            vstd::utf8::encode_utf8_decode_utf8(s@);
        }
    }
    utf8_lossy(out.as_slice())
}

/// Bytes holding no `%` decode to themselves.
proof fn lemma_pct_bytes_identity(b: Seq<u8>)
    requires
        forall|k: int| 0 <= k < b.len() ==> b[k] != 37,
    ensures
        pct_bytes(b) == b,
    decreases b.len(),
{
    if b.len() > 0 {
        let t = b.subrange(1, b.len() as int);
        assert forall|k: int| 0 <= k < t.len() implies t[k] != 37 by {
            assert(t[k] == b[k + 1]);
        }
        lemma_pct_bytes_identity(t);
        assert(seq![b[0]] + t =~= b);
    }
}

/// The UTF-8 encoding of a text without `%` holds no `%` byte: the bytes of a
/// multi-byte character are all at least `0x80`.
proof fn lemma_encode_utf8_no_percent(s: Seq<char>)
    requires
        forall|k: int| 0 <= k < s.len() ==> s[k] != '%',
    ensures
        forall|k: int| 0 <= k < encode_utf8(s).len() ==> encode_utf8(s)[k] != 37,
    decreases s.len(),
{
    if s.len() > 0 {
        let t = s.drop_first();
        assert forall|k: int| 0 <= k < t.len() implies t[k] != '%' by {
            assert(t[k] == s[k + 1]);
        }
        lemma_encode_utf8_no_percent(t);
        let v = s[0] as u32;
        let e = vstd::utf8::encode_scalar(v);
        assert(forall|k: int| 0 <= k < e.len() ==> #[trigger] e[k] != 37) by {
            lemma_encode_scalar_no_percent(s[0]);
        }
        assert(encode_utf8(s) =~= e + encode_utf8(t));
        assert forall|k: int| 0 <= k < encode_utf8(s).len() implies encode_utf8(s)[k] != 37 by {
            if k < e.len() {
                assert(encode_utf8(s)[k] == e[k]);
            } else {
                assert(encode_utf8(s)[k] == encode_utf8(t)[k - e.len()]);
            }
        }
    }
}

proof fn lemma_encode_scalar_no_percent(c: char)
    requires
        c != '%',
    ensures
        forall|k: int|
            0 <= k < vstd::utf8::encode_scalar(c as u32).len() ==> #[trigger] vstd::utf8::encode_scalar(
                c as u32,
            )[k] != 37,
{
    let v = c as u32;
    vstd::utf8::char_is_scalar(c);
    if vstd::utf8::has_width_1_encoding(v) {
        assert(v != 37) by {
            vstd::utf8::char_u32_cast(c, v);
        }
        assert(vstd::utf8::leading_byte_width_1(v) != 37) by (bit_vector)
            requires
                v < 0x80,
                v != 37,
        ;
    } else if vstd::utf8::has_width_2_encoding(v) {
        assert(vstd::utf8::leading_byte_width_2(v) >= 0x80) by (bit_vector);
        assert(vstd::utf8::last_continuation_byte(v) >= 0x80) by (bit_vector);
    } else if vstd::utf8::has_width_3_encoding(v) {
        assert(vstd::utf8::leading_byte_width_3(v) >= 0x80) by (bit_vector);
        assert(vstd::utf8::second_last_continuation_byte(v) >= 0x80) by (bit_vector);
        assert(vstd::utf8::last_continuation_byte(v) >= 0x80) by (bit_vector);
    } else {
        assert(vstd::utf8::leading_byte_width_4(v) >= 0x80) by (bit_vector);
        assert(vstd::utf8::third_last_continuation_byte(v) >= 0x80) by (bit_vector);
        assert(vstd::utf8::second_last_continuation_byte(v) >= 0x80) by (bit_vector);
        assert(vstd::utf8::last_continuation_byte(v) >= 0x80) by (bit_vector);
    }
}

/// The value of the first `key=value` piece whose key is `name`; pieces with
/// no `=` are skipped.
pub open spec fn first_value(parts: Seq<Seq<char>>, name: Seq<char>) -> Option<Seq<char>>
    decreases parts.len(),
{
    if parts.len() == 0 {
        None
    } else {
        match crate::text::split_once(parts[0], '=') {
            Some((k, v)) => if k == name {
                Some(v)
            } else {
                first_value(parts.drop_first(), name)
            },
            None => first_value(parts.drop_first(), name),
        }
    }
}

/// Every piece trimmed.
pub open spec fn trims(parts: Seq<Seq<char>>) -> Seq<Seq<char>> {
    parts.map_values(|p: Seq<char>| crate::text::trim(p))
}

/// Value of `name` in a raw query string (`a=1&b=2`), percent-decoded.
pub open spec fn query_param_of(query: Seq<char>, name: Seq<char>) -> Option<Seq<char>> {
    match first_value(crate::text::split_char(query, '&'), name) {
        Some(v) => Some(percent_decoded(v)),
        None => None,
    }
}

/// Value of `name` in a `Cookie:` header (`a=1; b=2`), trimmed.
pub open spec fn cookie_value_of(header: Seq<char>, name: Seq<char>) -> Option<Seq<char>> {
    match first_value(trims(crate::text::split_char(header, ';')), name) {
        Some(v) => Some(crate::text::trim(v)),
        None => None,
    }
}

/// `first_value` over executable pieces.
fn first_value_exec(parts: &Vec<Vec<char>>, name: &[char]) -> (r: Option<Vec<char>>)
    ensures
        match first_value(crate::text::views(parts@), name@) {
            Some(v) => r matches Some(x) && x@ == v,
            None => r is None,
        },
{
    let n = parts.len();
    let mut i: usize = 0;
    let ghost all = crate::text::views(parts@);
    assert(all.subrange(0, n as int) =~= all);
    while i < n
        invariant
            n == parts@.len(),
            all == crate::text::views(parts@),
            i <= n,
            first_value(all, name@) == first_value(all.subrange(i as int, n as int), name@),
        decreases n - i,
    {
        let ghost rest = all.subrange(i as int, n as int);
        assert(rest[0] == parts@[i as int]@);
        assert(rest.drop_first() =~= all.subrange(i + 1, n as int));
        match crate::text::split_once_chars(parts[i].as_slice(), '=') {
            Some((k, v)) => {
                if crate::text::chars_eq(k.as_slice(), name) {
                    return Some(v);
                }
            },
            None => {},
        }
        i = i + 1;
    }
    None
}

/// Value of `name` in a raw query string, percent-decoded.
pub fn query_param(query: &str, name: &str) -> (r: Option<String>)
    ensures
        crate::jwt::opt_string(r) == query_param_of(query@, name@),
{
    let q = chars_of(query);
    let parts = crate::text::split_chars(q.as_slice(), '&');
    let wanted = chars_of(name);
    match first_value_exec(&parts, wanted.as_slice()) {
        Some(v) => {
            let text = string_of(v.as_slice());
            Some(percent_decode(text.as_str()))
        },
        None => None,
    }
}

/// Value of `name` in a `Cookie:` header (`a=1; b=2`).
pub fn cookie_value(header: &str, name: &str) -> (r: Option<String>)
    ensures
        crate::jwt::opt_string(r) == cookie_value_of(header@, name@),
{
    let h = chars_of(header);
    let raw = crate::text::split_chars(h.as_slice(), ';');
    let mut parts: Vec<Vec<char>> = Vec::new();
    let mut i: usize = 0;
    while i < raw.len()
        invariant
            i <= raw@.len(),
            crate::text::views(parts@) == trims(crate::text::views(raw@)).subrange(0, i as int),
        decreases raw@.len() - i,
    {
        let t = crate::text::trim_chars(raw[i].as_slice());
        let ghost before = crate::text::views(parts@);
        parts.push(t);
        assert(crate::text::views(parts@) =~= before.push(t@));
        assert(trims(crate::text::views(raw@))[i as int] == crate::text::trim(raw@[i as int]@));
        assert(crate::text::views(parts@) =~= trims(crate::text::views(raw@)).subrange(
            0,
            i + 1,
        ));
        i = i + 1;
    }
    assert(trims(crate::text::views(raw@)).subrange(0, raw@.len() as int) =~= trims(
        crate::text::views(raw@),
    ));
    let wanted = chars_of(name);
    match first_value_exec(&parts, wanted.as_slice()) {
        Some(v) => Some(string_of(crate::text::trim_chars(v.as_slice()).as_slice())),
        None => None,
    }
}

/// The header values a request carries credentials in, as text. A header
/// whose value is not visible ASCII counts as absent.
pub struct RequestCarriers {
    /// `X-CodexTrace-Token`.
    pub token_header: Option<String>,
    /// `Authorization`.
    pub authorization: Option<String>,
    /// The raw query string of the request URI.
    pub query: Option<String>,
    /// `Sec-Fetch-Site`.
    pub sec_fetch_site: Option<String>,
    /// `Cookie`.
    pub cookie: Option<String>,
}

/// The cookie is only meant for the same-origin UI. `SameSite=Strict` already
/// keeps cross-*site* pages from riding on it, but a page on another port of
/// the same host is same-*site*: a `<form method=POST>` auto-submitted from
/// `localhost:<other>` would carry the cookie to a body-less mutating route.
/// Browsers label such requests `Sec-Fetch-Site: same-site` (or
/// `cross-site`); only `same-origin` / `none` (typed URL), or no header at
/// all, may use the cookie carrier.
pub open spec fn cookie_allowed(sec_fetch_site: Option<Seq<char>>) -> bool {
    match sec_fetch_site {
        None => true,
        Some(site) => crate::text::trim(site) == "same-origin"@ || crate::text::trim(site)
            == "none"@,
    }
}

/// The token after a `Bearer ` (or `bearer `) scheme, trimmed.
pub open spec fn bearer_of(auth: Seq<char>) -> Option<Seq<char>> {
    if crate::text::starts_with(auth, "Bearer "@) || crate::text::starts_with(auth, "bearer "@) {
        Some(crate::text::trim(auth.subrange(7, auth.len() as int)))
    } else {
        None
    }
}

/// A one-element list of a present, non-empty candidate.
pub open spec fn nonempty(o: Option<Seq<char>>) -> Seq<Seq<char>> {
    match o {
        Some(t) => if t.len() > 0 {
            seq![t]
        } else {
            Seq::empty()
        },
        None => Seq::empty(),
    }
}

pub open spec fn header_candidate(h: Option<Seq<char>>) -> Option<Seq<char>> {
    match h {
        Some(v) => Some(crate::text::trim(v)),
        None => None,
    }
}

pub open spec fn bearer_candidate(h: Option<Seq<char>>) -> Option<Seq<char>> {
    match h {
        Some(v) => bearer_of(v),
        None => None,
    }
}

pub open spec fn query_candidate(q: Option<Seq<char>>) -> Option<Seq<char>> {
    match q {
        Some(v) => query_param_of(v, "token"@),
        None => None,
    }
}

pub open spec fn cookie_candidate(c: Option<Seq<char>>) -> Option<Seq<char>> {
    match c {
        Some(v) => cookie_value_of(v, "codextrace_token"@),
        None => None,
    }
}

/// Every credential a request presents, in precedence order: the token
/// header, a bearer token, the `token` query parameter, then the cookie when
/// the cookie carrier is allowed. Blank candidates are dropped.
pub open spec fn presented_of(
    token_header: Option<Seq<char>>,
    authorization: Option<Seq<char>>,
    query: Option<Seq<char>>,
    sec_fetch_site: Option<Seq<char>>,
    cookie: Option<Seq<char>>,
) -> Seq<Seq<char>> {
    nonempty(header_candidate(token_header)) + nonempty(bearer_candidate(authorization)) + nonempty(
        query_candidate(query),
    ) + if cookie_allowed(sec_fetch_site) {
        nonempty(cookie_candidate(cookie))
    } else {
        Seq::empty()
    }
}

pub open spec fn strings(v: Seq<String>) -> Seq<Seq<char>> {
    v.map_values(|s: String| s@)
}

/// Whether the cookie carrier may be used on this request.
pub fn cookie_carrier_allowed(req: &RequestCarriers) -> (r: bool)
    ensures
        r == cookie_allowed(crate::jwt::opt_string(req.sec_fetch_site)),
{
    match &req.sec_fetch_site {
        None => true,
        Some(site) => {
            let t = crate::text::trim_chars(chars_of(site.as_str()).as_slice());
            let a = chars_of("same-origin");
            let b = chars_of("none");
            crate::text::chars_eq(t.as_slice(), a.as_slice()) || crate::text::chars_eq(
                t.as_slice(),
                b.as_slice(),
            )
        },
    }
}

fn push_nonempty(out: &mut Vec<String>, o: Option<String>)
    ensures
        strings(final(out)@) == strings(old(out)@) + nonempty(crate::jwt::opt_string(o)),
{
    let ghost before = strings(out@);
    match o {
        Some(t) => {
            if t.as_str().is_empty() {
                assert(strings(out@) =~= before + nonempty(crate::jwt::opt_string(Some(t))));
            } else {
                out.push(t);
                assert(strings(out@) =~= before + nonempty(crate::jwt::opt_string(Some(t))));
            }
        },
        None => {
            assert(strings(out@) =~= before + nonempty(crate::jwt::opt_string(o)));
        },
    }
}

fn bearer_token(auth: &str) -> (r: Option<String>)
    ensures
        crate::jwt::opt_string(r) == bearer_of(auth@),
{
    let a = chars_of(auth);
    let upper = chars_of("Bearer ");
    let lower = chars_of("bearer ");
    if crate::text::starts_with_chars(a.as_slice(), upper.as_slice())
        || crate::text::starts_with_chars(a.as_slice(), lower.as_slice()) {
        proof {
            reveal_strlit("Bearer ");
            reveal_strlit("bearer ");
        }
        let n = a.len();
        let rest = crate::text::slice_chars(a.as_slice(), 7, n);
        Some(string_of(crate::text::trim_chars(rest.as_slice()).as_slice()))
    } else {
        None
    }
}

/// Every credential candidate the client presented, in precedence order.
pub fn presented_credentials(req: &RequestCarriers) -> (r: Vec<String>)
    ensures
        strings(r@) == presented_of(
            crate::jwt::opt_string(req.token_header),
            crate::jwt::opt_string(req.authorization),
            crate::jwt::opt_string(req.query),
            crate::jwt::opt_string(req.sec_fetch_site),
            crate::jwt::opt_string(req.cookie),
        ),
{
    let mut out: Vec<String> = Vec::new();
    assert(strings(out@) =~= Seq::<Seq<char>>::empty());
    let header = match &req.token_header {
        Some(v) => Some(crate::text::trim_str(v.as_str())),
        None => None,
    };
    push_nonempty(&mut out, header);
    let bearer = match &req.authorization {
        Some(v) => bearer_token(v.as_str()),
        None => None,
    };
    push_nonempty(&mut out, bearer);
    let query = match &req.query {
        Some(q) => query_param(q.as_str(), TOKEN_QUERY),
        None => None,
    };
    push_nonempty(&mut out, query);
    let ghost three = strings(out@);
    if cookie_carrier_allowed(req) {
        let cookie = match &req.cookie {
            Some(c) => cookie_value(c.as_str(), TOKEN_COOKIE),
            None => None,
        };
        push_nonempty(&mut out, cookie);
    } else {
        assert(strings(out@) =~= three + Seq::<Seq<char>>::empty());
    }
    out
}

// ---------------------------------------------------------------------------
// Same-origin cookie for the Docker static UI
// ---------------------------------------------------------------------------

/// A `Host` header without its port; IPv6 literals lose their brackets too.
/// `a:b:c` with more than one colon is a bare IPv6 literal, not host:port.
pub open spec fn strip_port_of(host: Seq<char>) -> Seq<char> {
    let h = crate::text::trim(host);
    if h.len() > 0 && h[0] == '[' {
        let rest = h.drop_first();
        match crate::text::idx_of(rest, ']') {
            Some(j) => rest.subrange(0, j as int),
            None => rest,
        }
    } else {
        match crate::text::rsplit_once(h, ':') {
            Some((a, _)) => if crate::text::idx_of(a, ':') is None {
                a
            } else {
                h
            },
            None => h,
        }
    }
}

/// Host header without its port; IPv6 literals lose their brackets too.
pub fn strip_port(host: &str) -> (r: String)
    ensures
        r@ == strip_port_of(host@),
{
    let h = crate::text::trim_chars(chars_of(host).as_slice());
    let n = h.len();
    if n > 0 && h[0] == '[' {
        let rest = crate::text::slice_chars(h.as_slice(), 1, n);
        assert(rest@ =~= h@.drop_first());
        return match crate::text::idx_of_chars(rest.as_slice(), ']') {
            Some(j) => {
                proof {
                    crate::text::lemma_idx_of(rest@, ']');
                }
                string_of(crate::text::slice_chars(rest.as_slice(), 0, j).as_slice())
            },
            None => string_of(rest.as_slice()),
        };
    }
    match crate::text::rsplit_once_chars(h.as_slice(), ':') {
        Some((a, _)) => {
            if crate::text::idx_of_chars(a.as_slice(), ':').is_none() {
                string_of(a.as_slice())
            } else {
                string_of(h.as_slice())
            }
        },
        None => string_of(h.as_slice()),
    }
}

/// What `axum::http::Uri` parses as the host of a text, if it parses and has one.
pub uninterp spec fn uri_host_of(text: Seq<char>) -> Option<Seq<char>>;

/// `text.parse::<axum::http::Uri>()`, then `Uri::host`; `None` when the text
/// does not parse or names no host. The result is named by `uri_host_of`.
#[verifier::external_body]
fn uri_host(text: &str) -> (r: Option<String>)
    ensures
        crate::jwt::opt_string(r) == uri_host_of(text@),
{
    let uri: axum::http::Uri = text.parse().ok()?;
    uri.host().map(|h| h.to_string())
}

pub open spec fn is_bracket(c: char) -> bool {
    c == '[' || c == ']'
}

/// `str::trim_matches(['[', ']'])`: brackets removed from both ends.
pub open spec fn trim_brackets(s: Seq<char>) -> Seq<char>
    decreases s.len(),
{
    if s.len() > 0 && is_bracket(s[0]) {
        trim_brackets(s.drop_first())
    } else if s.len() > 0 && is_bracket(s.last()) {
        trim_brackets(s.drop_last())
    } else {
        s
    }
}

/// Host component of an `http(s)://host[:port]` origin string.
pub open spec fn host_of_origin_of(origin: Seq<char>) -> Option<Seq<char>> {
    match uri_host_of(origin) {
        Some(h) => Some(trim_brackets(h)),
        None => None,
    }
}

fn trim_brackets_chars(s: &[char]) -> (r: Vec<char>)
    ensures
        r@ == trim_brackets(s@),
{
    let mut a: usize = 0;
    let mut b: usize = s.len();
    assert(s@.subrange(0, b as int) =~= s@);
    while a < b && (s[a] == '[' || s[a] == ']' || s[b - 1] == '[' || s[b - 1] == ']')
        invariant
            a <= b <= s@.len(),
            trim_brackets(s@) == trim_brackets(s@.subrange(a as int, b as int)),
        decreases b - a,
    {
        let ghost cur = s@.subrange(a as int, b as int);
        if s[a] == '[' || s[a] == ']' {
            assert(cur[0] == s@[a as int]);
            assert(cur.drop_first() =~= s@.subrange(a + 1, b as int));
            a = a + 1;
        } else {
            assert(cur[0] == s@[a as int]);
            assert(cur.last() == s@[b - 1]);
            assert(cur.drop_last() =~= s@.subrange(a as int, b - 1));
            b = b - 1;
        }
    }
    proof {
        let cur = s@.subrange(a as int, b as int);
        if a < b {
            assert(cur[0] == s@[a as int]);
            assert(cur.last() == s@[b - 1]);
        }
    }
    crate::text::slice_chars(s, a, b)
}

/// Host component of an `http(s)://host[:port]` origin string.
pub fn host_of_origin(origin: &str) -> (r: Option<String>)
    ensures
        crate::jwt::opt_string(r) == host_of_origin_of(origin@),
{
    match uri_host(origin) {
        Some(h) => Some(string_of(trim_brackets_chars(chars_of(h.as_str()).as_slice()).as_slice())),
        None => None,
    }
}

pub open spec fn is_loopback_host(h: Seq<char>) -> bool {
    crate::text::eq_ignore_ascii_case(h, "localhost"@) || h == "127.0.0.1"@ || h == "::1"@
}

/// Whether a request `Host` may be handed the web UI's credential: loopback
/// names always; anything else must match, ignoring ASCII case, the host part
/// of an allowlisted CORS origin.
pub open spec fn host_allowed_in(host: Seq<char>, origins: Seq<Seq<char>>) -> bool {
    let h = strip_port_of(host);
    if h.len() == 0 {
        false
    } else if is_loopback_host(h) {
        true
    } else {
        exists|i: int| 0 <= i < origins.len() && #[trigger] origin_host_matches(origins[i], h)
    }
}

/// The host part of `origin` is `h`, ignoring ASCII case.
pub open spec fn origin_host_matches(origin: Seq<char>, h: Seq<char>) -> bool {
    match host_of_origin_of(origin) {
        Some(oh) => crate::text::eq_ignore_ascii_case(oh, h),
        None => false,
    }
}

/// Is this request `Host` one we're willing to hand the web UI's credential to?
///
/// Loopback names always qualify. Anything else must match the host part of an
/// allowlisted CORS origin. Without this check, a DNS-rebinding page pointed at
/// a `0.0.0.0`-bound Docker port would be issued the cookie and become a fully
/// authenticated same-origin client.
pub fn host_allowed(host: &str, origins: &[String]) -> (r: bool)
    ensures
        r == host_allowed_in(host@, strings(origins@)),
{
    let h = strip_port(host);
    let hc = chars_of(h.as_str());
    if hc.len() == 0 {
        return false;
    }
    let localhost = chars_of("localhost");
    let v4 = chars_of("127.0.0.1");
    let v6 = chars_of("::1");
    if crate::text::chars_eq_ignore_ascii_case(hc.as_slice(), localhost.as_slice())
        || crate::text::chars_eq(hc.as_slice(), v4.as_slice()) || crate::text::chars_eq(
        hc.as_slice(),
        v6.as_slice(),
    ) {
        return true;
    }
    let ghost all = strings(origins@);
    let mut i: usize = 0;
    while i < origins.len()
        invariant
            all == strings(origins@),
            hc@ == strip_port_of(host@),
            hc@.len() > 0,
            !is_loopback_host(hc@),
            i <= origins@.len(),
            forall|k: int| 0 <= k < i ==> !#[trigger] origin_host_matches(all[k], hc@),
        decreases origins@.len() - i,
    {
        assert(all[i as int] == origins@[i as int]@);
        match host_of_origin(origins[i].as_str()) {
            Some(oh) => {
                let oc = chars_of(oh.as_str());
                if crate::text::chars_eq_ignore_ascii_case(oc.as_slice(), hc.as_slice()) {
                    assert(origin_host_matches(all[i as int], hc@));
                    return true;
                }
            },
            None => {},
        }
        i = i + 1;
    }
    false
}

/// A byte `HeaderValue::from_str` accepts: visible ASCII, space, tab, or any
/// byte of 128 and above (`http`'s `is_valid`).
pub open spec fn header_byte_ok(b: u8) -> bool {
    (b >= 32 && b != 127) || b == 9
}

pub open spec fn header_text_ok(text: Seq<char>) -> bool {
    forall|k: int| 0 <= k < encode_utf8(text).len() ==> header_byte_ok(#[trigger] encode_utf8(text)[k])
}

/// `HeaderValue::from_str(text).is_ok()`: `http` accepts a header value
/// exactly when every byte of the text is one a header value may hold (see
/// `header_byte_ok`).
#[verifier::external_body]
fn header_value_accepts(text: &str) -> (r: bool)
    ensures
        r == header_text_ok(text@),
{
    HeaderValue::from_str(text).is_ok()
}

/// The `Set-Cookie` text carrying a credential.
pub open spec fn cookie_header_text(credential: Seq<char>) -> Seq<char> {
    "codextrace_token="@ + credential + "; Path=/; HttpOnly; SameSite=Strict"@
}

/// `Set-Cookie` text carrying the web UI's credential. `HttpOnly` keeps page
/// scripts from reading it; `SameSite=Strict` keeps cross-site pages from
/// riding on it. No `Secure` flag: plain `http://` on localhost is the normal
/// deployment.
pub fn credential_cookie_text(credential: &str) -> (r: String)
    ensures
        r@ == cookie_header_text(credential@),
{
    let mut out = chars_of(TOKEN_COOKIE);
    out.push('=');
    push_all(&mut out, chars_of(credential).as_slice());
    push_all(&mut out, chars_of("; Path=/; HttpOnly; SameSite=Strict").as_slice());
    proof {
        reveal_strlit("codextrace_token");
        reveal_strlit("codextrace_token=");
    }
    assert(out@ =~= cookie_header_text(credential@));
    string_of(out.as_slice())
}

/// The `Set-Cookie` text for a credential, checked to fit in a header value;
/// `None` when the credential holds a character a header value cannot carry.
pub fn credential_cookie_header(credential: &str) -> (r: Option<String>)
    ensures
        r is Some <==> header_text_ok(cookie_header_text(credential@)),
        r matches Some(t) ==> t@ == cookie_header_text(credential@),
{
    let text = credential_cookie_text(credential);
    if header_value_accepts(text.as_str()) {
        Some(text)
    } else {
        None
    }
}

/// Does this request path resolve to the SPA shell? `/` and any other
/// directory, which the static server answers with that directory's
/// `index.html`, plus an explicit `.html` request.
pub fn is_shell_path(path: &str) -> (r: bool)
    ensures
        r == (crate::text::ends_with(path@, "/"@) || crate::text::ends_with(path@, ".html"@)),
{
    let p = chars_of(path);
    crate::text::ends_with_chars(p.as_slice(), chars_of("/").as_slice())
        || crate::text::ends_with_chars(p.as_slice(), chars_of(".html").as_slice())
}

pub open spec fn is_html_type(content_type: Option<Seq<char>>) -> bool {
    content_type matches Some(ct) && crate::text::starts_with(ct, "text/html"@)
}

/// Whether a response's `Content-Type` is HTML.
pub fn is_html(content_type: Option<&str>) -> (r: bool)
    ensures
        r == is_html_type(
            match content_type {
                Some(t) => Some(t@),
                None => None,
            },
        ),
{
    match content_type {
        Some(ct) => crate::text::starts_with_chars(
            chars_of(ct).as_slice(),
            chars_of("text/html").as_slice(),
        ),
        None => false,
    }
}

/// HTTP `304 Not Modified`.
pub const NOT_MODIFIED: u16 = 304;

/// Is this the SPA shell, the one response that carries the credential? A
/// `200` is identified by its content type; a `304 Not Modified` carries no
/// `Content-Type`, so a revalidated shell is identified by its request path.
pub fn is_shell_response(content_type: Option<&str>, status: u16, shell_path: bool) -> (r: bool)
    ensures
        r == (is_html_type(
            match content_type {
                Some(t) => Some(t@),
                None => None,
            },
        ) || (status == NOT_MODIFIED && shell_path)),
{
    is_html(content_type) || (status == NOT_MODIFIED && shell_path)
}

/// The shell carries the cookie: the host is allowlisted and there is a
/// credential that fits in a header.
pub open spec fn shell_cookie_due(
    host: Option<Seq<char>>,
    origins: Seq<Seq<char>>,
    credential: Option<Seq<char>>,
) -> bool {
    match (host, credential) {
        (Some(h), Some(c)) => host_allowed_in(h, origins) && header_text_ok(cookie_header_text(c)),
        _ => false,
    }
}

/// The cookie to attach to the SPA shell: the web UI's credential, when there
/// is one and the request `Host` is allowlisted (and the credential fits in a
/// header).
pub fn shell_cookie(host: Option<&str>, origins: &[String], credential: Option<&str>) -> (r: Option<
    String,
>)
    ensures
        r is Some <==> shell_cookie_due(
            match host {
                Some(h) => Some(h@),
                None => None,
            },
            strings(origins@),
            match credential {
                Some(c) => Some(c@),
                None => None,
            },
        ),
        r matches Some(t) ==> (credential matches Some(c) && t@ == cookie_header_text(c@)),
{
    match host {
        Some(h) => {
            if !host_allowed(h, origins) {
                return None;
            }
        },
        None => {
            return None;
        },
    }
    match credential {
        Some(c) => credential_cookie_header(c),
        None => None,
    }
}

// ---------------------------------------------------------------------------
// Credentials and identities
// ---------------------------------------------------------------------------

/// The authenticated caller, attached to a request once its credential has
/// been checked against the registry.
#[derive(Clone, Debug, PartialEq, Eq)]
pub struct ClientIdentity {
    pub id: u128,
    pub name: String,
}

pub open spec fn identity_view(i: Option<ClientIdentity>) -> Option<(u128, Seq<char>)> {
    match i {
        Some(x) => Some((x.id, x.name@)),
        None => None,
    }
}

/// Mint a credential for `client` at `iat`: its id as `sub`, its name, `iat`.
pub fn issue_credential(client: &Client, key: &[u8], iat: i64) -> (r: String)
    ensures
        crate::jwt::signed_by(r@, key@, uuid_hyphenated(client.id), client.name@, iat),
{
    let claims = Claims { sub: uuid_text(client.id), name: client.name.clone(), iat };
    sign(&claims, key)
}

/// Whether verified claims still authenticate `c`: they name it, it is not
/// revoked, and they were issued no earlier than its last (re)issue.
pub open spec fn claims_current(
    v: Result<(Seq<char>, Seq<char>, i64), crate::jwt::JwtError>,
    c: ClientView,
) -> bool {
    match v {
        Ok((sub, _, iat)) => sub == uuid_hyphenated(c.id) && iat >= c.issued_at
            && c.revoked_at is None,
        Err(_) => false,
    }
}

/// Does `credential` (typically read from `clients/<name>.jwt`) still
/// authenticate `client` under `key`?
pub fn credential_is_current(credential: &str, client: &Client, key: &[u8]) -> (r: bool)
    ensures
        r == claims_current(crate::jwt::verify_spec(credential@, key@), client@),
        forall|signer: Seq<u8>, sub: Seq<char>, name: Seq<char>, iat: i64|
            #[trigger] crate::jwt::signed_by(credential@, signer, sub, name, iat) ==> r
                == claims_current(crate::jwt::verify_signed(key@, signer, sub, name, iat), client@),
{
    match verify(credential, key) {
        Ok(c) => {
            let id = uuid_text(client.id);
            crate::text::chars_eq(chars_of(c.sub.as_str()).as_slice(), chars_of(id.as_str()).as_slice())
                && c.iat >= client.issued_at && client.revoked_at.is_none()
        },
        Err(_) => false,
    }
}

/// The identity a registry gives to claims naming client `id`, issued at
/// `iat`: the first client with that id, unless it is revoked or the claims
/// predate its last (re)issue.
pub open spec fn identity_for(r: Seq<ClientView>, id: u128, iat: i64) -> Option<(u128, Seq<char>)> {
    match crate::clients::position_of(r, id) {
        Some(i) => if r[i].revoked_at is Some || iat < r[i].issued_at {
            None
        } else {
            Some((id, r[i].name))
        },
        None => None,
    }
}

/// What the registry makes of verified claims: their `sub` must parse as a
/// client id.
pub open spec fn identity_of_claims(r: Seq<ClientView>, sub: Seq<char>, iat: i64) -> Option<
    (u128, Seq<char>),
> {
    match uuid_parse_of(sub) {
        Some(id) => identity_for(r, id, iat),
        None => None,
    }
}

/// The live client that claims naming `id`, issued at `iat`, stand for.
pub fn check_registry(registry: &ClientRegistry, id: u128, iat: i64) -> (r: Option<ClientIdentity>)
    ensures
        identity_view(r) == identity_for(registry@, id, iat),
{
    match registry.find(id) {
        Some(c) => {
            if c.revoked_at.is_some() || iat < c.issued_at {
                None
            } else {
                Some(ClientIdentity { id, name: c.name.clone() })
            }
        },
        None => None,
    }
}

/// Map verified claims to a live client of `registry`.
pub fn authenticate_in(registry: &ClientRegistry, claims: &Claims) -> (r: Option<ClientIdentity>)
    ensures
        identity_view(r) == identity_of_claims(registry@, claims.sub@, claims.iat),
{
    match uuid_parse(claims.sub.as_str()) {
        Some(id) => check_registry(registry, id, claims.iat),
        None => None,
    }
}

/// Where a scan of the presented credentials stopped.
pub enum CredentialScan {
    /// This credential verified and names a live client.
    Found(ClientIdentity),
    /// The credential at this index verified and names client `id` (issued at
    /// `iat`), which this registry does not accept; a fresher registry might.
    Missed { index: usize, id: u128, iat: i64 },
    /// No credential from the starting index on names any client.
    Exhausted,
}

pub enum ScanView {
    Found((u128, Seq<char>)),
    Missed(int, u128, i64),
    Exhausted,
}

pub open spec fn scan_view(s: CredentialScan) -> ScanView {
    match s {
        CredentialScan::Found(i) => ScanView::Found((i.id, i.name@)),
        CredentialScan::Missed { index, id, iat } => ScanView::Missed(index as int, id, iat),
        CredentialScan::Exhausted => ScanView::Exhausted,
    }
}

/// Scan the tokens from `from` on: skip those that do not verify under `key`
/// or whose `sub` is not a client id; stop at the first that names a client,
/// found or not.
pub open spec fn scan_of(tokens: Seq<Seq<char>>, key: Seq<u8>, r: Seq<ClientView>, from: int) -> ScanView
    decreases tokens.len() - from,
{
    if from < 0 || from >= tokens.len() {
        ScanView::Exhausted
    } else {
        match crate::jwt::verify_spec(tokens[from], key) {
            Err(_) => scan_of(tokens, key, r, from + 1),
            Ok((sub, _, iat)) => match uuid_parse_of(sub) {
                None => scan_of(tokens, key, r, from + 1),
                Some(id) => match identity_for(r, id, iat) {
                    Some(found) => ScanView::Found(found),
                    None => ScanView::Missed(from, id, iat),
                },
            },
        }
    }
}

/// The client credential `k` of the presented ones stands for under `key`
/// and registry `r`: it verifies, its `sub` is a client id, and that client
/// accepts it.
pub open spec fn authenticates_at(t: Seq<Seq<char>>, key: Seq<u8>, r: Seq<ClientView>, k: int) -> Option<
    (u128, Seq<char>),
> {
    match crate::jwt::verify_spec(t[k], key) {
        Ok((sub, _, iat)) => identity_of_claims(r, sub, iat),
        Err(_) => None,
    }
}

/// The client of the first presented credential, from `from` on, that
/// authenticates (see `authenticates_at`).
pub open spec fn first_authenticated(t: Seq<Seq<char>>, key: Seq<u8>, r: Seq<ClientView>, from: int) -> Option<
    (u128, Seq<char>),
>
    decreases t.len() - from,
{
    if from < 0 || from >= t.len() {
        None
    } else {
        match authenticates_at(t, key, r, from) {
            Some(x) => Some(x),
            None => first_authenticated(t, key, r, from + 1),
        }
    }
}

/// Scanning, and scanning again past each miss, against a registry that does
/// not change: what the request check admits when a re-read of the registry
/// brings nothing new.
pub open spec fn scan_until_found(t: Seq<Seq<char>>, key: Seq<u8>, r: Seq<ClientView>, from: int) -> Option<
    (u128, Seq<char>),
>
    decreases t.len() - from,
{
    if from < 0 || from >= t.len() {
        None
    } else {
        match scan_of(t, key, r, from) {
            ScanView::Found(x) => Some(x),
            ScanView::Missed(i, _, _) => if from <= i && i < t.len() {
                scan_until_found(t, key, r, i + 1)
            } else {
                None
            },
            ScanView::Exhausted => None,
        }
    }
}

/// Where one scan stops, in terms of the first credential that authenticates.
proof fn lemma_scan_of(t: Seq<Seq<char>>, key: Seq<u8>, r: Seq<ClientView>, from: int)
    requires
        0 <= from,
    ensures
        scan_of(t, key, r, from) matches ScanView::Found(x) ==> first_authenticated(t, key, r, from)
            == Some(x),
        scan_of(t, key, r, from) matches ScanView::Missed(i, _, _) ==> from <= i < t.len()
            && first_authenticated(t, key, r, from) == first_authenticated(t, key, r, i + 1),
        scan_of(t, key, r, from) is Exhausted ==> first_authenticated(t, key, r, from) is None,
    decreases t.len() - from,
{
    if from < t.len() {
        lemma_scan_of(t, key, r, from + 1);
        match crate::jwt::verify_spec(t[from], key) {
            Err(_) => {},
            Ok((sub, _, iat)) => match uuid_parse_of(sub) {
                None => {},
                Some(id) => {},
            },
        }
    }
}

/// The request check admits exactly the client of the first presented
/// credential that verifies under the key and names a client the registry
/// accepts, and no one when none does: scanning again past each miss (when a
/// re-read of the registry brings nothing new) finds that credential and no
/// other.
pub proof fn law_first_authenticating_credential_wins(
    t: Seq<Seq<char>>,
    key: Seq<u8>,
    r: Seq<ClientView>,
    from: int,
)
    requires
        0 <= from,
    ensures
        scan_until_found(t, key, r, from) == first_authenticated(t, key, r, from),
    decreases t.len() - from,
{
    if from < t.len() {
        lemma_scan_of(t, key, r, from);
        if let ScanView::Missed(i, _, _) = scan_of(t, key, r, from) {
            law_first_authenticating_credential_wins(t, key, r, i + 1);
        }
    }
}

/// Check the presented credentials in order, from index `from` on, against
/// `registry` (see `scan_of`). A `Missed` result lets the caller re-read the
/// registry and retry that one client before going on.
pub fn scan_credentials(presented: &[String], key: &[u8], registry: &ClientRegistry, from: usize) -> (r:
    CredentialScan)
    ensures
        scan_view(r) == scan_of(strings(presented@), key@, registry@, from as int),
{
    let ghost tokens = strings(presented@);
    let n = presented.len();
    let mut i: usize = from;
    while i < n
        invariant
            tokens == strings(presented@),
            n == presented@.len(),
            from <= i,
            scan_of(tokens, key@, registry@, from as int) == scan_of(tokens, key@, registry@, i as int),
        decreases n - i,
    {
        assert(tokens[i as int] == presented@[i as int]@);
        match verify(presented[i].as_str(), key) {
            Ok(claims) => {
                match uuid_parse(claims.sub.as_str()) {
                    Some(id) => {
                        return match check_registry(registry, id, claims.iat) {
                            Some(identity) => CredentialScan::Found(identity),
                            None => CredentialScan::Missed { index: i, id, iat: claims.iat },
                        };
                    },
                    None => {},
                }
            },
            Err(_) => {},
        }
        i = i + 1;
    }
    CredentialScan::Exhausted
}

/// A request needs a credential unless it is a CORS preflight (`OPTIONS`,
/// sent without custom headers) or verification is off.
pub fn needs_credential(is_options: bool, mode: &AuthMode) -> (r: bool)
    ensures
        r == (!is_options && *mode is Enabled),
{
    !is_options && mode.is_enabled()
}

/// The message for any request that presented no usable credential.
pub const UNAUTHORIZED_MESSAGE: &'static str = "invalid or revoked client credential — register a client (or reissue this one) in Settings > Accepted clients and send its credential as an X-CodexTrace-Token header or Authorization: Bearer";

// ---------------------------------------------------------------------------
// Startup resolution
// ---------------------------------------------------------------------------

/// `CODEXTRACE_API_AUTH` turns verification off when it reads `off`, in any
/// case, with surrounding white space ignored.
pub open spec fn disabled_by(env_auth: Option<Seq<char>>) -> bool {
    env_auth matches Some(v) && crate::text::eq_ignore_ascii_case(crate::text::trim(v), "off"@)
}

/// Whether the raw `CODEXTRACE_API_AUTH` value disables verification.
pub fn auth_disabled_by(env_auth: Option<&str>) -> (r: bool)
    ensures
        r == disabled_by(
            match env_auth {
                Some(v) => Some(v@),
                None => None,
            },
        ),
{
    match env_auth {
        Some(v) => {
            let t = crate::text::trim_chars(chars_of(v).as_slice());
            crate::text::chars_eq_ignore_ascii_case(t.as_slice(), chars_of("off").as_slice())
        },
        None => false,
    }
}

/// The signing key the server runs on, where it came from, and what to warn
/// about.
pub struct KeyChoice {
    pub key: Vec<u8>,
    pub source: KeySource,
    pub warning: Option<String>,
}

/// What reading (or creating) the key file gave: `None` without a config
/// directory, else the key file's path and its trimmed text or the error.
pub open spec fn secret_view(secret: Option<(String, Result<String, String>)>) -> Option<
    (Seq<char>, Result<Seq<char>, Seq<char>>),
> {
    match secret {
        None => None,
        Some((path, Ok(t))) => Some((path@, Ok(t@))),
        Some((path, Err(e))) => Some((path@, Err(e@))),
    }
}

/// The key file's bytes, when they make a key of at least 16 bytes.
pub open spec fn file_key_of(secret: Option<(Seq<char>, Result<Seq<char>, Seq<char>>)>) -> Option<
    Seq<u8>,
> {
    match secret {
        Some((_, Ok(hex))) => match hex_key_bytes(hex) {
            Some(b) => if b.len() >= 16 {
                Some(b)
            } else {
                None
            },
            None => None,
        },
        _ => None,
    }
}

/// The warning logged when the key file cannot be used.
pub open spec fn key_warning_of(secret: Option<(Seq<char>, Result<Seq<char>, Seq<char>>)>) -> Option<
    Seq<char>,
> {
    match secret {
        None => Some("no config directory available"@),
        Some((path, Ok(_))) => if file_key_of(secret) is Some {
            None
        } else {
            Some(path + " is not a hex key; using a one-off key for this run"@)
        },
        Some((_, Err(e))) => Some("could not persist the signing key ("@ + e + ")"@),
    }
}

/// Signing key: the key file's when it holds a hex key of at least 16 bytes,
/// else a fresh in-memory key (fail closed, never open).
pub fn choose_signing_key(secret: Option<(String, Result<String, String>)>) -> (r: KeyChoice)
    ensures
        match file_key_of(secret_view(secret)) {
            Some(b) => r.key@ == b && r.source == KeySource::File,
            None => r.key@.len() == 32 && r.source == KeySource::Ephemeral,
        },
        r.key@.len() >= 16,
        crate::jwt::opt_string(r.warning) == key_warning_of(secret_view(secret)),
{
    match secret {
        None => KeyChoice {
            key: ephemeral_key(),
            source: KeySource::Ephemeral,
            warning: Some(String::from_str("no config directory available")),
        },
        Some((path, Ok(hex))) => {
            match hex_to_bytes(hex.as_str()) {
                Some(bytes) => {
                    if bytes.len() >= 16 {
                        return KeyChoice { key: bytes, source: KeySource::File, warning: None };
                    }
                },
                None => {},
            }
            let mut w = chars_of(path.as_str());
            push_all(&mut w, chars_of(" is not a hex key; using a one-off key for this run").as_slice());
            KeyChoice {
                key: ephemeral_key(),
                source: KeySource::Ephemeral,
                warning: Some(string_of(w.as_slice())),
            }
        },
        Some((_, Err(e))) => {
            let mut w = chars_of("could not persist the signing key (");
            push_all(&mut w, chars_of(e.as_str()).as_slice());
            push_all(&mut w, chars_of(")").as_slice());
            KeyChoice {
                key: ephemeral_key(),
                source: KeySource::Ephemeral,
                warning: Some(string_of(w.as_slice())),
            }
        },
    }
}

/// The config root the registry and the built-in credentials are kept under:
/// only with a file-backed key, since credentials minted under a one-off key
/// die with the process.
pub fn persisted_root(root: Option<&str>, source: KeySource) -> (r: Option<String>)
    ensures
        crate::jwt::opt_string(r) == match root {
            Some(t) => if source == KeySource::File {
                Some(t@)
            } else {
                None
            },
            None => None,
        },
{
    match root {
        Some(t) => {
            if source == KeySource::File {
                Some(t.to_owned())
            } else {
                None
            }
        },
        None => None,
    }
}

/// Where an unreadable registry is moved aside:
/// `<config root>/clients.json.corrupt-<now>`.
pub fn corrupt_backup_path(root: &str, now: i64) -> (r: String)
    ensures
        r@ == path_join(root@, "clients.json.corrupt-"@ + crate::text::dec_i64(now)),
{
    let mut name = chars_of("clients.json.corrupt-");
    push_all(&mut name, crate::text::dec_i64_chars(now).as_slice());
    let name = string_of(name.as_slice());
    join_path(root, name.as_str())
}

pub open spec fn corrupt_registry_warning_of(
    error: Seq<char>,
    backup: Seq<char>,
    moved: Result<(), Seq<char>>,
) -> Seq<char> {
    match moved {
        Ok(()) => error + "; moved it to "@ + backup
            + " and started a fresh client registry — every previously issued credential is now invalid"@,
        Err(re) => error + "; could not move it aside ("@ + re
            + "); starting a fresh client registry — every previously issued credential is now invalid"@,
    }
}

/// The warning for a registry that could not be read: the server never
/// overwrites it, but moves it aside (or says it could not) and starts fresh.
pub fn corrupt_registry_warning(error: &str, backup: &str, moved: &Result<(), String>) -> (r: String)
    ensures
        r@ == corrupt_registry_warning_of(
            error@,
            backup@,
            match moved {
                Ok(()) => Ok(()),
                Err(e) => Err(e@),
            },
        ),
{
    let mut w = chars_of(error);
    match moved {
        Ok(()) => {
            push_all(&mut w, chars_of("; moved it to ").as_slice());
            push_all(&mut w, chars_of(backup).as_slice());
            push_all(
                &mut w,
                chars_of(
                    " and started a fresh client registry — every previously issued credential is now invalid",
                ).as_slice(),
            );
        },
        Err(re) => {
            push_all(&mut w, chars_of("; could not move it aside (").as_slice());
            push_all(&mut w, chars_of(re.as_str()).as_slice());
            push_all(
                &mut w,
                chars_of(
                    "); starting a fresh client registry — every previously issued credential is now invalid",
                ).as_slice(),
            );
        },
    }
    string_of(w.as_slice())
}

/// A built-in client whose credential file must be kept current: its index
/// in the registry, the file, and whether it is the web UI.
pub struct CredentialTarget {
    pub index: usize,
    pub path: String,
    pub is_web_ui: bool,
}

pub open spec fn builtin_active(c: ClientView) -> bool {
    c.builtin && c.revoked_at is None
}

/// The built-in, non-revoked clients, in registry order, with the file that
/// holds each one's credential under `root`.
pub fn credential_targets(root: &str, registry: &ClientRegistry) -> (r: Vec<CredentialTarget>)
    ensures
        forall|k: int|
            0 <= k < r@.len() ==> {
                let t = #[trigger] r@[k];
                &&& t.index < registry@.len()
                &&& builtin_active(registry@[t.index as int])
                &&& t.path@ == path_join(
                    path_join(root@, "clients"@),
                    registry@[t.index as int].name + ".jwt"@,
                )
                &&& t.is_web_ui == (registry@[t.index as int].name == crate::clients::WEB_UI@)
            },
        forall|k: int, j: int| 0 <= k < j < r@.len() ==> r@[k].index < r@[j].index,
        forall|i: int|
            0 <= i < registry@.len() && builtin_active(#[trigger] registry@[i]) ==> exists|k: int|
                0 <= k < r@.len() && r@[k].index == i,
{
    let mut out: Vec<CredentialTarget> = Vec::new();
    let mut i: usize = 0;
    let web_ui = chars_of(crate::clients::WEB_UI);
    while i < registry.clients.len()
        invariant
            web_ui@ == crate::clients::WEB_UI@,
            i <= registry@.len(),
            registry@.len() == registry.clients@.len(),
            forall|k: int|
                0 <= k < out@.len() ==> {
                    let t = #[trigger] out@[k];
                    &&& t.index < i
                    &&& builtin_active(registry@[t.index as int])
                    &&& t.path@ == path_join(
                        path_join(root@, "clients"@),
                        registry@[t.index as int].name + ".jwt"@,
                    )
                    &&& t.is_web_ui == (registry@[t.index as int].name == crate::clients::WEB_UI@)
                },
            forall|k: int, j: int| 0 <= k < j < out@.len() ==> out@[k].index < out@[j].index,
            forall|x: int|
                0 <= x < i && builtin_active(#[trigger] registry@[x]) ==> exists|k: int|
                    0 <= k < out@.len() && out@[k].index == x,
        decreases registry@.len() - i,
    {
        let c = &registry.clients[i];
        assert(registry@[i as int] == c@);
        if c.builtin && c.revoked_at.is_none() {
            let path = builtin_credential_path(root, c.name.as_str());
            let is_web_ui = crate::text::chars_eq(chars_of(c.name.as_str()).as_slice(), web_ui.as_slice());
            let ghost before = out@;
            out.push(CredentialTarget { index: i, path, is_web_ui });
            assert forall|x: int|
                0 <= x < i + 1 && builtin_active(#[trigger] registry@[x]) implies exists|k: int|
                0 <= k < out@.len() && out@[k].index == x by {
                if x < i {
                    let k = choose|k: int| 0 <= k < before.len() && before[k].index == x;
                    assert(out@[k] == before[k]);
                } else {
                    assert(out@[before.len() as int].index == x);
                }
            }
        }
        i = i + 1;
    }
    out
}

/// A built-in client's credential after the file check: the one on file when
/// it is still current, else a fresh one that must be written out.
pub struct BuiltinCredential {
    pub credential: String,
    pub rewrite: bool,
}

/// The later of two instants.
pub open spec fn later(a: i64, b: i64) -> i64 {
    if a >= b {
        a
    } else {
        b
    }
}

/// Keep the credential read from a built-in client's file if it still
/// authenticates the client under `key`; otherwise mint one at
/// `max(now, issued_at)` (never before the client's last reissue).
pub fn builtin_credential(client: &Client, key: &[u8], existing: Option<&str>, now: i64) -> (r:
    BuiltinCredential)
    ensures
        match existing {
            Some(e) => claims_current(crate::jwt::verify_spec(e@, key@), client@) ==> (r.credential@
                == e@ && !r.rewrite),
            None => true,
        },
        r.rewrite <==> !(existing matches Some(e) && claims_current(
            crate::jwt::verify_spec(e@, key@),
            client@,
        )),
        r.rewrite ==> crate::jwt::signed_by(
            r.credential@,
            key@,
            uuid_hyphenated(client.id),
            client.name@,
            later(now, client.issued_at),
        ),
{
    match existing {
        Some(e) => {
            if credential_is_current(e, client, key) {
                return BuiltinCredential { credential: e.to_owned(), rewrite: false };
            }
        },
        None => {},
    }
    let iat = if now >= client.issued_at {
        now
    } else {
        client.issued_at
    };
    BuiltinCredential { credential: issue_credential(client, key, iat), rewrite: true }
}

/// Without a persisted registry the `web-ui` credential lives in memory only:
/// minted at `now` for the `web-ui` client, unless it is revoked.
pub fn unpersisted_web_ui_credential(registry: &ClientRegistry, key: &[u8], now: i64) -> (r: Option<
    String,
>)
    ensures
        match crate::clients::position_of_name(registry@, crate::clients::WEB_UI@) {
            Some(i) => if registry@[i].revoked_at is None {
                r matches Some(t) && crate::jwt::signed_by(
                    t@,
                    key@,
                    uuid_hyphenated(registry@[i].id),
                    registry@[i].name,
                    now,
                )
            } else {
                r is None
            },
            None => r is None,
        },
{
    proof {
        assert(crate::text::trim(crate::clients::WEB_UI@) == crate::clients::WEB_UI@) by {
            reveal_strlit("web-ui");
        }
        crate::clients::lemma_position_of_name(registry@, crate::clients::WEB_UI@);
    }
    match registry.find_by_name(crate::clients::WEB_UI) {
        Some(c) => {
            if c.revoked_at.is_some() {
                None
            } else {
                Some(issue_credential(c, key, now))
            }
        },
        None => None,
    }
}

/// Everything the server needs to enforce client verification.
pub struct ResolvedAuth {
    pub mode: AuthMode,
    pub registry: ClientRegistry,
    /// The `web-ui` client's current credential (issued as the same-origin
    /// cookie), or `None` when disabled / revoked.
    pub web_ui_credential: Option<String>,
    /// `Some` when the registry and built-in credentials are persisted.
    pub config_root: Option<String>,
    /// Non-fatal problems worth logging.
    pub warnings: Vec<String>,
}

/// What a disabled setup resolves to: no key, an empty registry, no
/// credential; the config root is kept as given.
pub fn disabled_resolution(root: Option<&str>) -> (r: ResolvedAuth)
    ensures
        r.mode is Disabled,
        r.registry@.len() == 0,
        r.web_ui_credential is None,
        crate::jwt::opt_string(r.config_root) == match root {
            Some(t) => Some(t@),
            None => None,
        },
        r.warnings@.len() == 0,
{
    ResolvedAuth {
        mode: AuthMode::Disabled,
        registry: ClientRegistry { clients: Vec::new() },
        web_ui_credential: None,
        config_root: match root {
            Some(t) => Some(t.to_owned()),
            None => None,
        },
        warnings: Vec::new(),
    }
}

// ---------------------------------------------------------------------------
// Managing clients
// ---------------------------------------------------------------------------

/// Why credentials cannot be managed while verification is off.
pub open spec fn disabled_message() -> Seq<char> {
    "API client verification is disabled (CODEXTRACE_API_AUTH=off); there are no client credentials to manage"@
}

/// The key credentials are minted with; an error when verification is off.
pub fn signing_key(mode: &AuthMode) -> (r: Result<Vec<u8>, String>)
    ensures
        match *mode {
            AuthMode::Disabled => r matches Err(e) && e@ == disabled_message(),
            AuthMode::Enabled { key, .. } => r matches Ok(k) && k@ == key@,
        },
{
    match mode {
        AuthMode::Disabled => Err(
            String::from_str(
                "API client verification is disabled (CODEXTRACE_API_AUTH=off); there are no client credentials to manage",
            ),
        ),
        AuthMode::Enabled { key, .. } => Ok(key.clone()),
    }
}

pub open spec fn client_id_of(text: Seq<char>) -> Result<u128, Seq<char>> {
    match uuid_parse_of(crate::text::trim(text)) {
        Some(id) => Ok(id),
        None => Err("invalid client id: "@ + text),
    }
}

/// A client id as given by the frontend, surrounding white space ignored.
pub fn parse_client_id(id: &str) -> (r: Result<u128, String>)
    ensures
        match client_id_of(id@) {
            Ok(u) => r == Ok::<u128, String>(u),
            Err(e) => r matches Err(m) && m@ == e,
        },
{
    let t = crate::text::trim_str(id);
    match uuid_parse(t.as_str()) {
        Some(u) => Ok(u),
        None => {
            let mut m = chars_of("invalid client id: ");
            push_all(&mut m, chars_of(id).as_slice());
            Err(string_of(m.as_slice()))
        },
    }
}

/// Where a built-in client's credential goes after a reissue or revocation:
/// its file under the config root (when there is one), and the live web-UI
/// cookie value when it is the web UI. Nothing for other clients.
pub struct CredentialSync {
    pub file: Option<String>,
    pub live_web_ui: bool,
}

pub fn credential_sync(client: &Client, root: Option<&str>) -> (r: CredentialSync)
    ensures
        !client.builtin ==> r.file is None && !r.live_web_ui,
        client.builtin ==> match root {
            Some(t) => r.file matches Some(f) && f@ == path_join(
                path_join(t@, "clients"@),
                client.name@ + ".jwt"@,
            ),
            None => r.file is None,
        } && r.live_web_ui == (client.name@ == crate::clients::WEB_UI@),
{
    if !client.builtin {
        return CredentialSync { file: None, live_web_ui: false };
    }
    let file = match root {
        Some(t) => Some(builtin_credential_path(t, client.name.as_str())),
        None => None,
    };
    let live_web_ui = crate::text::chars_eq(
        chars_of(client.name.as_str()).as_slice(),
        chars_of(crate::clients::WEB_UI).as_slice(),
    );
    CredentialSync { file, live_web_ui }
}

/// An on-disk registry is safe to adopt at runtime only if it still knows
/// every built-in client: a half-edited or emptied file must not lock every
/// client out.
pub fn registry_adoptable(on_disk: &ClientRegistry) -> (r: bool)
    ensures
        r == (crate::clients::position_of_name(on_disk@, crate::clients::WEB_UI@) is Some),
{
    proof {
        assert(crate::text::trim(crate::clients::WEB_UI@) == crate::clients::WEB_UI@) by {
            reveal_strlit("web-ui");
        }
    }
    on_disk.find_by_name(crate::clients::WEB_UI).is_some()
}

// ---------------------------------------------------------------------------
// Laws of the registry as the request side sees it
// ---------------------------------------------------------------------------

/// Replacing a client by one with the same id moves no id lookup.
pub proof fn lemma_position_of_update(r: Seq<ClientView>, i: int, c: ClientView, x: u128)
    requires
        0 <= i < r.len(),
        c.id == r[i].id,
    ensures
        position_of(r.update(i, c), x) == position_of(r, x),
    decreases r.len(),
{
    let s = r.update(i, c);
    if i < r.len() - 1 {
        assert(s.drop_last() =~= r.drop_last().update(i, c));
        lemma_position_of_update(r.drop_last(), i, c, x);
    } else {
        assert(s.drop_last() =~= r.drop_last());
    }
}

/// A reissue always moves `issued_at` forward, and never to before `now`.
pub proof fn law_reissue_advances(c: ClientView, now: i64)
    requires
        c.issued_at < i64::MAX,
    ensures
        reissued_view(c, now).issued_at > c.issued_at,
        reissued_view(c, now).issued_at >= now,
        reissued_view(c, now).revoked_at is None,
{
}

/// After a revoke, no credential of that client authenticates, and every
/// other client authenticates exactly as before.
pub proof fn law_revoke_rejects_only_that_client(
    r: Seq<ClientView>,
    id: u128,
    now: i64,
    other: u128,
    iat: i64,
)
    requires
        position_of(r, id) is Some,
    ensures
        ({
            let i = position_of(r, id)->0;
            let after = r.update(i, revoked_view(r[i], now));
            &&& identity_for(after, id, iat) is None
            &&& other != id ==> identity_for(after, other, iat) == identity_for(r, other, iat)
        }),
{
    let i = position_of(r, id)->0;
    crate::clients::lemma_position_of(r, id);
    lemma_position_of_update(r, i, revoked_view(r[i], now), id);
    lemma_position_of_update(r, i, revoked_view(r[i], now), other);
    let after = r.update(i, revoked_view(r[i], now));
    if other != id {
        crate::clients::lemma_position_of(r, other);
        if let Some(j) = position_of(r, other) {
            assert(j != i);
            assert(after[j] == r[j]);
        }
    }
}

/// After a reissue at `now`, a credential issued before it (at the old
/// `issued_at` or earlier) is rejected, one issued at the new `issued_at` is
/// accepted, and every other client authenticates exactly as before.
pub proof fn law_reissue_replaces_the_credential(
    r: Seq<ClientView>,
    id: u128,
    now: i64,
    old_iat: i64,
    other: u128,
    iat: i64,
)
    requires
        position_of(r, id) is Some,
        r[position_of(r, id)->0].issued_at < i64::MAX,
        old_iat <= r[position_of(r, id)->0].issued_at,
    ensures
        ({
            let i = position_of(r, id)->0;
            let after = r.update(i, reissued_view(r[i], now));
            &&& identity_for(after, id, old_iat) is None
            &&& identity_for(after, id, after[i].issued_at) == Some((id, r[i].name))
            &&& other != id ==> identity_for(after, other, iat) == identity_for(r, other, iat)
        }),
{
    let i = position_of(r, id)->0;
    crate::clients::lemma_position_of(r, id);
    lemma_position_of_update(r, i, reissued_view(r[i], now), id);
    lemma_position_of_update(r, i, reissued_view(r[i], now), other);
    let after = r.update(i, reissued_view(r[i], now));
    if other != id {
        crate::clients::lemma_position_of(r, other);
        if let Some(j) = position_of(r, other) {
            assert(j != i);
            assert(after[j] == r[j]);
        }
    }
}

/// A newly registered client (with an id no client had) is accepted with a
/// credential issued at its creation, and every other client authenticates
/// exactly as before.
pub proof fn law_registered_client_is_accepted(r: Seq<ClientView>, c: ClientView, other: u128, iat: i64)
    requires
        position_of(r, c.id) is None,
        c.revoked_at is None,
    ensures
        identity_for(r.push(c), c.id, c.issued_at) == Some((c.id, c.name)),
        other != c.id ==> identity_for(r.push(c), other, iat) == identity_for(r, other, iat),
{
    let s = r.push(c);
    assert(s.drop_last() =~= r);
    if other != c.id {
        assert(s.last() == c);
        crate::clients::lemma_position_of(r, other);
        if let Some(j) = position_of(r, other) {
            assert(s[j] == r[j]);
        }
    }
}

/// A credential minted by `issue_credential` for an active client under the
/// server's key, no earlier than the client's last (re)issue, is current for
/// it.
pub proof fn law_issued_credential_is_current(c: ClientView, key: Seq<u8>, iat: i64)
    requires
        c.revoked_at is None,
        iat >= c.issued_at,
    ensures
        claims_current(
            crate::jwt::verify_signed(key, key, uuid_hyphenated(c.id), c.name, iat),
            c,
        ),
{
}

/// The debug text of a mode shows nothing of the key but its length: two
/// enabled modes with keys of the same length and the same source print the
/// same.
pub proof fn law_debug_text_hides_the_key(a: AuthMode, b: AuthMode)
    requires
        a matches AuthMode::Enabled { key: ka, source: sa },
        b matches AuthMode::Enabled { key: kb, source: sb },
        a->key@.len() == b->key@.len(),
        a->source == b->source,
    ensures
        mode_debug_text(a) == mode_debug_text(b),
{
}

/// A loopback `Host` (`localhost` in any case, `127.0.0.1` or `::1`, with or
/// without a port) is always handed the web UI's credential, whatever the
/// allowlist holds.
pub proof fn law_loopback_hosts_always_allowed(host: Seq<char>, origins: Seq<Seq<char>>)
    requires
        is_loopback_host(strip_port_of(host)),
    ensures
        host_allowed_in(host, origins),
{
    reveal_strlit("127.0.0.1");
    reveal_strlit("::1");
    reveal_strlit("localhost");
}

} // verus!
