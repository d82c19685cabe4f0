//! Registry of accepted API clients.
//!
//! Every caller of the HTTP API is a registered *client* with a stable id and a
//! display name. Clients authenticate with an HS256 credential (see
//! `crate::jwt`) whose `sub` is their id. Revocation and reissue are recorded
//! here, so a credential is only as good as the registry says:
//!
//! - **revoked** clients are rejected outright;
//! - **reissue** bumps `issued_at`, so every credential minted before it
//!   (`iat < issued_at`) is dead, without rotating anybody else's.
//!
//! One client is built in and registered on first start: `web-ui` (the browser
//! frontend). User-registered clients are shown their credential once and it
//! is never stored.
//!
//! Client ids are UUIDs, held as their 128-bit value.

use vstd::arithmetic::power::pow;
use vstd::prelude::*;

use crate::text::{
    chars_eq_ignore_ascii_case, chars_of, eq_ignore_ascii_case, is_control, is_control_char,
    push_all, string_of, trim, trim_chars,
};

verus! {

/// Name of the built-in browser client.
pub const WEB_UI: &'static str = "web-ui";

/// Longest client name, in characters.
pub const MAX_NAME_LEN: usize = 64;

// ---------------------------------------------------------------------------
// UUIDs and the clock
// ---------------------------------------------------------------------------

pub open spec fn hex_lower_char(d: int) -> char {
    if d < 10 {
        (48 + d) as char
    } else {
        (87 + d) as char
    }
}

/// Hex digit `k` (0 = most significant) of a 128-bit value.
pub open spec fn nibble(u: u128, k: int) -> int {
    (u as int / pow(16, (31 - k) as nat)) % 16
}

/// The hyphenated lower-case text of a UUID: 8-4-4-4-12 hex digits.
pub open spec fn uuid_hyphenated(u: u128) -> Seq<char> {
    Seq::new(
        36,
        |i: int|
            if i == 8 || i == 13 || i == 18 || i == 23 {
                '-'
            } else {
                let dashes: int = if i < 8 {
                    0
                } else if i < 13 {
                    1
                } else if i < 18 {
                    2
                } else if i < 23 {
                    3
                } else {
                    4
                };
                hex_lower_char(nibble(u, i - dashes))
            },
    )
}

/// What `uuid::Uuid::parse_str` reads from a text, as the UUID's 128-bit value.
pub uninterp spec fn uuid_parse_of(text: Seq<char>) -> Option<u128>;

/// `Display` of `uuid::Uuid` (hyphenated, lower case), for the UUID with this
/// 128-bit value.
#[verifier::external_body]
pub(crate) fn uuid_text(id: u128) -> (s: String)
    ensures
        s@ == uuid_hyphenated(id),
{
    uuid::Uuid::from_u128(id).to_string()
}

/// `uuid::Uuid::parse_str`, as the UUID's 128-bit value; `None` on a parse
/// error. The result is named by `uuid_parse_of`; the hyphenated text of a
/// UUID parses back to it.
#[verifier::external_body]
pub(crate) fn uuid_parse(text: &str) -> (r: Option<u128>)
    ensures
        r == uuid_parse_of(text@),
        forall|u: u128| text@ == #[trigger] uuid_hyphenated(u) ==> r == Some(u),
{
    uuid::Uuid::parse_str(text).ok().map(|u| u.as_u128())
}

/// A version-4 UUID's value: version nibble 4, variant bits `10`.
pub open spec fn is_v4_id(id: u128) -> bool {
    (id >> 76u128) & 0xfu128 == 4 && (id >> 62u128) & 0x3u128 == 2
}

/// `uuid::Uuid::new_v4`, as the UUID's 128-bit value: random, with the
/// version nibble set to 4 and the variant bits to `10`.
#[verifier::external_body]
fn new_v4_id() -> (id: u128)
    ensures
        is_v4_id(id),
{
    uuid::Uuid::new_v4().as_u128()
}

/// Seconds since the Unix epoch from `std::time::SystemTime::now`, or `None`
/// when the clock reads before the epoch. Nothing is promised of the value.
#[verifier::external_body]
fn clock_secs() -> (r: Option<u64>) {
    std::time::SystemTime::now().duration_since(std::time::UNIX_EPOCH).ok().map(|d| d.as_secs())
}

/// A clock reading in whole seconds since the Unix epoch as a signed count:
/// the seconds (cast as `as i64` casts), or 0 when the clock read before the
/// epoch.
pub open spec fn unix_secs_of(reading: Option<u64>) -> i64 {
    match reading {
        Some(s) => s as i64,
        None => 0,
    }
}

/// The signed unix time of a clock reading (see `unix_secs_of`).
pub fn unix_secs(reading: Option<u64>) -> (r: i64)
    ensures
        r == unix_secs_of(reading),
{
    match reading {
        Some(s) => #[verifier::truncate] (s as i64),
        None => 0,
    }
}

/// Current unix time in seconds (0 when the clock reads before the epoch).
/// The reading depends on the clock alone, so nothing is promised of the
/// value; `unix_secs` states what is made of it.
pub fn now() -> i64 {
    unix_secs(clock_secs())
}

// ---------------------------------------------------------------------------
// Clients
// ---------------------------------------------------------------------------

#[derive(Debug, Clone, PartialEq, Eq)]
pub struct Client {
    pub id: u128,
    pub name: String,
    /// Registered automatically (`web-ui`); credential kept in a file.
    pub builtin: bool,
    /// Unix seconds.
    pub created_at: i64,
    /// Credentials with `iat` below this are rejected. Bumped by reissue.
    pub issued_at: i64,
    pub revoked_at: Option<i64>,
}

/// A client as a value.
pub struct ClientView {
    pub id: u128,
    pub name: Seq<char>,
    pub builtin: bool,
    pub created_at: i64,
    pub issued_at: i64,
    pub revoked_at: Option<i64>,
}

impl View for Client {
    type V = ClientView;

    open spec fn view(&self) -> ClientView {
        ClientView {
            id: self.id,
            name: self.name@,
            builtin: self.builtin,
            created_at: self.created_at,
            issued_at: self.issued_at,
            revoked_at: self.revoked_at,
        }
    }
}

impl Client {
    pub fn is_revoked(&self) -> (r: bool)
        ensures
            r == self.revoked_at.is_some(),
    {
        self.revoked_at.is_some()
    }

    /// A field-for-field copy.
    pub fn duplicate(&self) -> (c: Client)
        ensures
            c@ == self@,
    {
        Client {
            id: self.id,
            name: self.name.clone(),
            builtin: self.builtin,
            created_at: self.created_at,
            issued_at: self.issued_at,
            revoked_at: self.revoked_at,
        }
    }
}

#[derive(Debug, Clone, PartialEq, Eq)]
pub struct ClientRegistry {
    pub clients: Vec<Client>,
}

pub open spec fn client_views(v: Seq<Client>) -> Seq<ClientView> {
    v.map_values(|c: Client| c@)
}

impl View for ClientRegistry {
    type V = Seq<ClientView>;

    open spec fn view(&self) -> Seq<ClientView> {
        client_views(self.clients@)
    }
}

impl Default for ClientRegistry {
    fn default() -> (r: Self)
        ensures
            r@.len() == 0,
    {
        ClientRegistry { clients: Vec::new() }
    }
}

// ---------------------------------------------------------------------------
// Specification
// ---------------------------------------------------------------------------

/// Index of the first client with this id.
pub open spec fn position_of(r: Seq<ClientView>, id: u128) -> Option<int>
    decreases r.len(),
{
    if r.len() == 0 {
        None
    } else {
        match position_of(r.drop_last(), id) {
            Some(i) => Some(i),
            None => if r.last().id == id {
                Some(r.len() - 1)
            } else {
                None
            },
        }
    }
}

/// Index of the first client whose name equals `name`, ignoring ASCII case.
pub open spec fn position_of_name(r: Seq<ClientView>, name: Seq<char>) -> Option<int>
    decreases r.len(),
{
    if r.len() == 0 {
        None
    } else {
        match position_of_name(r.drop_last(), name) {
            Some(i) => Some(i),
            None => if eq_ignore_ascii_case(r.last().name, name) {
                Some(r.len() - 1)
            } else {
                None
            },
        }
    }
}

pub proof fn lemma_position_of(r: Seq<ClientView>, id: u128)
    ensures
        position_of(r, id) matches Some(i) ==> 0 <= i < r.len() && r[i].id == id && forall|k: int|
            0 <= k < i ==> r[k].id != id,
        position_of(r, id) is None ==> forall|k: int| 0 <= k < r.len() ==> r[k].id != id,
    decreases r.len(),
{
    if r.len() > 0 {
        let t = r.drop_last();
        lemma_position_of(t, id);
        assert(forall|k: int| 0 <= k < t.len() ==> t[k] == r[k]);
    }
}

pub proof fn lemma_position_of_name(r: Seq<ClientView>, name: Seq<char>)
    ensures
        position_of_name(r, name) matches Some(i) ==> 0 <= i < r.len() && eq_ignore_ascii_case(
            r[i].name,
            name,
        ) && forall|k: int| 0 <= k < i ==> !eq_ignore_ascii_case(r[k].name, name),
        position_of_name(r, name) is None ==> forall|k: int|
            0 <= k < r.len() ==> !eq_ignore_ascii_case(#[trigger] r[k].name, name),
    decreases r.len(),
{
    if r.len() > 0 {
        let t = r.drop_last();
        lemma_position_of_name(t, name);
        assert(forall|k: int| 0 <= k < t.len() ==> t[k] == r[k]);
    }
}

/// No two clients share a name, ignoring ASCII case.
pub open spec fn names_unique(r: Seq<ClientView>) -> bool {
    forall|i: int, j: int|
        0 <= i < r.len() && 0 <= j < r.len() && i != j ==> !eq_ignore_ascii_case(
            #[trigger] r[i].name,
            #[trigger] r[j].name,
        )
}

/// What `validate_name` makes of a raw name.
pub open spec fn validated_name(raw: Seq<char>) -> Result<Seq<char>, Seq<char>> {
    let name = trim(raw);
    if name.len() == 0 {
        Err("client name must not be empty"@)
    } else if name.len() > MAX_NAME_LEN {
        Err("client name must be at most 64 characters"@)
    } else if exists|k: int| 0 <= k < name.len() && is_control(#[trigger] name[k]) {
        Err("client name must not contain control characters"@)
    } else {
        Ok(name)
    }
}

pub open spec fn string_result(r: Result<String, String>) -> Result<Seq<char>, Seq<char>> {
    match r {
        Ok(s) => Ok(s@),
        Err(e) => Err(e@),
    }
}

pub open spec fn client_result(r: Result<Client, String>) -> Result<ClientView, Seq<char>> {
    match r {
        Ok(c) => Ok(c@),
        Err(e) => Err(e@),
    }
}

pub open spec fn unknown_client_message(id: u128) -> Seq<char> {
    "unknown client "@ + uuid_hyphenated(id)
}

pub open spec fn duplicate_name_message(name: Seq<char>) -> Seq<char> {
    "a client named \""@ + name + "\" already exists"@
}

/// The built-in client `ensure_builtins` adds, under some fresh id.
pub open spec fn builtin_client(id: u128, name: Seq<char>, now: i64) -> ClientView {
    ClientView { id, name, builtin: true, created_at: now, issued_at: now, revoked_at: None }
}

/// A client after a revoke at `now`: the first revocation time is kept.
pub open spec fn revoked_view(c: ClientView, now: i64) -> ClientView {
    ClientView {
        revoked_at: if c.revoked_at is None {
            Some(now)
        } else {
            c.revoked_at
        },
        ..c
    }
}

/// A client after a reissue at `now`: no longer revoked, and issued strictly
/// later than before, and no earlier than `now`.
pub open spec fn reissued_view(c: ClientView, now: i64) -> ClientView {
    ClientView { issued_at: reissued_at(c.issued_at, now), revoked_at: None, ..c }
}

/// `issued_at` after a reissue at `now`: `now`, or one past the previous value
/// if that is later.
pub open spec fn reissued_at(previous: i64, now: i64) -> i64 {
    if now >= previous + 1 {
        now
    } else {
        (previous + 1) as i64
    }
}

// ---------------------------------------------------------------------------
// Implementation
// ---------------------------------------------------------------------------

/// Trim and validate a client name: 1 to 64 characters (not bytes), no control
/// characters.
pub fn validate_name(raw: &str) -> (r: Result<String, String>)
    ensures
        string_result(r) == validated_name(raw@),
{
    let chars = chars_of(raw);
    let name = trim_chars(chars.as_slice());
    if name.len() == 0 {
        return Err(String::from_str("client name must not be empty"));
    }
    if name.len() > MAX_NAME_LEN {
        return Err(String::from_str("client name must be at most 64 characters"));
    }
    let mut k: usize = 0;
    while k < name.len()
        invariant
            name@ == trim(raw@),
            0 < name@.len() <= MAX_NAME_LEN,
            k <= name@.len(),
            forall|j: int| 0 <= j < k ==> !is_control(#[trigger] name@[j]),
        decreases name@.len() - k,
    {
        if is_control_char(name[k]) {
            assert(is_control(name@[k as int]));
            return Err(String::from_str("client name must not contain control characters"));
        }
        k = k + 1;
    }
    Ok(string_of(name.as_slice()))
}

impl ClientRegistry {
    /// Index of the first client with this id.
    pub fn position(&self, id: u128) -> (r: Option<usize>)
        ensures
            r matches Some(i) ==> position_of(self@, id) == Some(i as int),
            r is None ==> position_of(self@, id) is None,
    {
        let mut i: usize = 0;
        while i < self.clients.len()
            invariant
                i <= self@.len(),
                self@.len() == self.clients@.len(),
                forall|k: int| 0 <= k < i ==> self@[k].id != id,
            decreases self@.len() - i,
        {
            if self.clients[i].id == id {
                proof {
                    lemma_position_of(self@, id);
                    assert(self@[i as int].id == id);
                }
                return Some(i);
            }
            assert(self@[i as int].id != id);
            i = i + 1;
        }
        proof {
            lemma_position_of(self@, id);
        }
        None
    }

    pub fn find(&self, id: u128) -> (r: Option<&Client>)
        ensures
            r matches Some(c) ==> position_of(self@, id) matches Some(i) && c@ == self@[i],
            r is None ==> position_of(self@, id) is None,
    {
        match self.position(id) {
            Some(i) => {
                proof {
                    lemma_position_of(self@, id);
                }
                Some(&self.clients[i])
            },
            None => None,
        }
    }

    /// Index of the first client named `name` (trimmed), ignoring ASCII case.
    pub fn position_by_name(&self, name: &str) -> (r: Option<usize>)
        ensures
            r matches Some(i) ==> position_of_name(self@, trim(name@)) == Some(i as int),
            r is None ==> position_of_name(self@, trim(name@)) is None,
    {
        let wanted = trim_chars(chars_of(name).as_slice());
        let mut i: usize = 0;
        while i < self.clients.len()
            invariant
                wanted@ == trim(name@),
                i <= self@.len(),
                self@.len() == self.clients@.len(),
                forall|k: int|
                    0 <= k < i ==> !eq_ignore_ascii_case(#[trigger] self@[k].name, wanted@),
            decreases self@.len() - i,
        {
            let candidate = chars_of(self.clients[i].name.as_str());
            if chars_eq_ignore_ascii_case(candidate.as_slice(), wanted.as_slice()) {
                proof {
                    lemma_position_of_name(self@, wanted@);
                    assert(eq_ignore_ascii_case(self@[i as int].name, wanted@));
                }
                return Some(i);
            }
            assert(!eq_ignore_ascii_case(self@[i as int].name, wanted@));
            i = i + 1;
        }
        proof {
            lemma_position_of_name(self@, wanted@);
        }
        None
    }

    /// The first client named `name` (trimmed), ignoring ASCII case.
    pub fn find_by_name(&self, name: &str) -> (r: Option<&Client>)
        ensures
            r matches Some(c) ==> position_of_name(self@, trim(name@)) matches Some(i) && c@
                == self@[i],
            r is None ==> position_of_name(self@, trim(name@)) is None,
    {
        match self.position_by_name(name) {
            Some(i) => {
                proof {
                    lemma_position_of_name(self@, trim(name@));
                }
                Some(&self.clients[i])
            },
            None => None,
        }
    }

    fn position_or_unknown(&self, id: u128) -> (r: Result<usize, String>)
        ensures
            r matches Ok(i) ==> position_of(self@, id) == Some(i as int),
            r matches Err(e) ==> position_of(self@, id) is None && e@ == unknown_client_message(
                id,
            ),
    {
        match self.position(id) {
            Some(i) => Ok(i),
            None => {
                let mut msg = chars_of("unknown client ");
                let text = uuid_text(id);
                push_all(&mut msg, chars_of(text.as_str()).as_slice());
                Err(string_of(msg.as_slice()))
            },
        }
    }

    /// Add the built-in `web-ui` client when no client of that name (any case)
    /// exists. Returns whether anything changed.
    pub fn ensure_builtins(&mut self, now: i64) -> (changed: bool)
        ensures
            changed == (position_of_name(old(self)@, WEB_UI@) is None),
            !changed ==> final(self)@ == old(self)@,
            changed ==> final(self)@.len() == old(self)@.len() + 1 && final(self)@.subrange(
                0,
                old(self)@.len() as int,
            ) == old(self)@ && final(self)@.last() == builtin_client(
                final(self)@.last().id,
                WEB_UI@,
                now,
            ) && is_v4_id(final(self)@.last().id),
            position_of_name(final(self)@, WEB_UI@) is Some,
            names_unique(old(self)@) ==> names_unique(final(self)@),
    {
        proof {
            assert(trim(WEB_UI@) == WEB_UI@) by {
                reveal_strlit("web-ui");
            }
        }
        if self.position_by_name(WEB_UI).is_some() {
            return false;
        }
        let name = String::from_str(WEB_UI);
        let client = Client {
            id: new_v4_id(),
            name,
            builtin: true,
            created_at: now,
            issued_at: now,
            revoked_at: None,
        };
        let ghost before = self@;
        self.clients.push(client);
        proof {
            assert(self@ =~= before.push(client@));
            lemma_position_of_name(before, WEB_UI@);
            lemma_position_of_name(self@, WEB_UI@);
            assert(eq_ignore_ascii_case(self@.last().name, WEB_UI@));
            assert(self@.subrange(0, before.len() as int) =~= before);
            lemma_push_keeps_unique(before, client@);
        }
        true
    }

    /// Register a new (non-built-in) client. Names are validated (see
    /// `validate_name`) and unique, ignoring ASCII case.
    pub fn register(&mut self, raw_name: &str, now: i64) -> (r: Result<Client, String>)
        ensures
            match validated_name(raw_name@) {
                Err(e) => r matches Err(m) && m@ == e && final(self)@ == old(self)@,
                Ok(name) => if position_of_name(old(self)@, name) is Some {
                    r matches Err(m) && m@ == duplicate_name_message(name) && final(self)@ == old(
                        self,
                    )@
                } else {
                    r matches Ok(c) && c@ == (ClientView {
                        id: c.id,
                        name,
                        builtin: false,
                        created_at: now,
                        issued_at: now,
                        revoked_at: None,
                    }) && is_v4_id(c.id) && final(self)@ == old(self)@.push(c@)
                },
            },
            names_unique(old(self)@) ==> names_unique(final(self)@),
    {
        let name = match validate_name(raw_name) {
            Ok(n) => n,
            Err(e) => {
                return Err(e);
            },
        };
        proof {
            lemma_trim_idempotent(raw_name@);
        }
        if self.position_by_name(name.as_str()).is_some() {
            let mut msg = chars_of("a client named \"");
            push_all(&mut msg, chars_of(name.as_str()).as_slice());
            push_all(&mut msg, chars_of("\" already exists").as_slice());
            return Err(string_of(msg.as_slice()));
        }
        let client = Client {
            id: new_v4_id(),
            name,
            builtin: false,
            created_at: now,
            issued_at: now,
            revoked_at: None,
        };
        let out = client.duplicate();
        let ghost before = self@;
        self.clients.push(client);
        proof {
            assert(self@ =~= before.push(out@));
            lemma_position_of_name(before, name@);
            lemma_push_keeps_unique(before, out@);
        }
        Ok(out)
    }

    /// Revoke: every credential of this client stops working. Idempotent: a
    /// second revoke keeps the first timestamp.
    pub fn revoke(&mut self, id: u128, now: i64) -> (r: Result<Client, String>)
        ensures
            match position_of(old(self)@, id) {
                None => r matches Err(m) && m@ == unknown_client_message(id) && final(self)@ == old(
                    self,
                )@,
                Some(i) => r matches Ok(c) && c@ == revoked_view(old(self)@[i], now) && final(self)@
                    == old(self)@.update(i, revoked_view(old(self)@[i], now)),
            },
            names_unique(old(self)@) ==> names_unique(final(self)@),
    {
        let i = match self.position_or_unknown(id) {
            Ok(i) => i,
            Err(e) => {
                return Err(e);
            },
        };
        proof {
            lemma_position_of(self@, id);
        }
        let ghost before = self@;
        let mut client = self.clients[i].duplicate();
        if client.revoked_at.is_none() {
            client.revoked_at = Some(now);
        }
        let out = client.duplicate();
        self.clients.set(i, client);
        proof {
            assert(self@ =~= before.update(i as int, out@));
            lemma_update_keeps_unique(before, i as int, out@);
        }
        Ok(out)
    }

    /// Reissue: un-revoke and bump `issued_at` so that every credential minted
    /// before this call is rejected. The bump is strictly increasing even when
    /// two reissues land in the same second, and never goes backwards when the
    /// clock does.
    pub fn reissue(&mut self, id: u128, now: i64) -> (r: Result<Client, String>)
        requires
            position_of(old(self)@, id) matches Some(i) ==> old(self)@[i].issued_at < i64::MAX,
        ensures
            match position_of(old(self)@, id) {
                None => r matches Err(m) && m@ == unknown_client_message(id) && final(self)@ == old(
                    self,
                )@,
                Some(i) => r matches Ok(c) && c@ == reissued_view(old(self)@[i], now) && final(self)@
                    == old(self)@.update(i, reissued_view(old(self)@[i], now)),
            },
            names_unique(old(self)@) ==> names_unique(final(self)@),
    {
        let i = match self.position_or_unknown(id) {
            Ok(i) => i,
            Err(e) => {
                return Err(e);
            },
        };
        proof {
            lemma_position_of(self@, id);
        }
        let ghost before = self@;
        let mut client = self.clients[i].duplicate();
        let bumped = client.issued_at + 1;
        client.issued_at = if now >= bumped {
            now
        } else {
            bumped
        };
        client.revoked_at = None;
        let out = client.duplicate();
        self.clients.set(i, client);
        proof {
            assert(self@ =~= before.update(i as int, out@));
            lemma_update_keeps_unique(before, i as int, out@);
        }
        Ok(out)
    }
}

// ---------------------------------------------------------------------------
// Lemmas
// ---------------------------------------------------------------------------

pub proof fn lemma_trim_idempotent(s: Seq<char>)
    ensures
        trim(trim(s)) == trim(s),
{
    lemma_trim_start_idempotent(s);
    lemma_trim_start_result(s);
    lemma_trim_end_keeps_start(crate::text::trim_start(s));
}

proof fn lemma_trim_start_result(s: Seq<char>)
    ensures
        crate::text::trim_start(s).len() == 0 || !crate::text::is_ws(crate::text::trim_start(s)[0]),
    decreases s.len(),
{
    if s.len() > 0 && crate::text::is_ws(s[0]) {
        lemma_trim_start_result(s.drop_first());
    }
}

proof fn lemma_trim_start_idempotent(s: Seq<char>)
    ensures
        crate::text::trim_start(crate::text::trim_start(s)) == crate::text::trim_start(s),
    decreases s.len(),
{
    if s.len() > 0 && crate::text::is_ws(s[0]) {
        lemma_trim_start_idempotent(s.drop_first());
    }
}

/// Trimming the end of a text that starts with no white space leaves one that
/// starts with none, and a trimmed end stays trimmed.
proof fn lemma_trim_end_keeps_start(s: Seq<char>)
    requires
        s.len() == 0 || !crate::text::is_ws(s[0]),
    ensures
        crate::text::trim_start(crate::text::trim_end(s)) == crate::text::trim_end(s),
        crate::text::trim_end(crate::text::trim_end(s)) == crate::text::trim_end(s),
    decreases s.len(),
{
    if s.len() > 0 && crate::text::is_ws(s.last()) {
        let t = s.drop_last();
        if t.len() > 0 {
            assert(t[0] == s[0]);
        }
        lemma_trim_end_keeps_start(t);
    }
}

proof fn lemma_push_keeps_unique(r: Seq<ClientView>, c: ClientView)
    requires
        position_of_name(r, c.name) is None,
    ensures
        names_unique(r) ==> names_unique(r.push(c)),
{
    lemma_position_of_name(r, c.name);
    lemma_eq_ignore_ascii_case_symmetric();
    let s = r.push(c);
    if names_unique(r) {
        assert forall|i: int, j: int|
            0 <= i < s.len() && 0 <= j < s.len() && i != j implies !eq_ignore_ascii_case(
            #[trigger] s[i].name,
            #[trigger] s[j].name,
        ) by {
            if i == r.len() {
                assert(!eq_ignore_ascii_case(r[j].name, c.name));
            } else if j == r.len() {
                assert(!eq_ignore_ascii_case(r[i].name, c.name));
            } else {
                assert(s[i] == r[i] && s[j] == r[j]);
            }
        }
    }
}

proof fn lemma_update_keeps_unique(r: Seq<ClientView>, i: int, c: ClientView)
    requires
        0 <= i < r.len(),
        c.name == r[i].name,
    ensures
        names_unique(r) ==> names_unique(r.update(i, c)),
{
    let s = r.update(i, c);
    if names_unique(r) {
        assert forall|a: int, b: int|
            0 <= a < s.len() && 0 <= b < s.len() && a != b implies !eq_ignore_ascii_case(
            #[trigger] s[a].name,
            #[trigger] s[b].name,
        ) by {
            assert(s[a].name == r[a].name);
            assert(s[b].name == r[b].name);
        }
    }
}

pub proof fn lemma_eq_ignore_ascii_case_symmetric()
    ensures
        forall|a: Seq<char>, b: Seq<char>|
            #[trigger] eq_ignore_ascii_case(a, b) ==> eq_ignore_ascii_case(b, a),
{
}

} // verus!
