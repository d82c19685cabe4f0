//! Minimal HS256 JSON Web Tokens for client credentials.
//!
//! The backend is the only party that ever signs or verifies, so this is a
//! small implementation over `hmac` + `sha2`: a fixed `HS256` header,
//! base64url without padding, and a constant-time signature check. Any other
//! `alg`, `none` included, is rejected before the payload is decoded, and the
//! payload is parsed only once its signature has been checked.
//!
//! The encodings (base64url, HMAC-SHA256, JSON strings and objects) are done by
//! the `base64`, `hmac`/`sha2` and `serde_json` crates; their results are named
//! by the spec functions below.

use base64::engine::general_purpose::URL_SAFE_NO_PAD;
use base64::Engine;
use hmac::{Hmac, Mac};
use sha2::Sha256;
use subtle::ConstantTimeEq;
use vstd::prelude::*;
use vstd::utf8::encode_utf8;

use crate::text::{chars_of, dec_i64, dec_i64_chars, push_all, split_char, split_chars, string_of, views};

verus! {

// ---------------------------------------------------------------------------
// Outside calls
// ---------------------------------------------------------------------------

/// The base64url text (no padding) of some bytes, as `base64`'s
/// `URL_SAFE_NO_PAD` engine writes it.
pub uninterp spec fn b64url_encode_of(bytes: Seq<u8>) -> Seq<char>;

/// What `base64`'s `URL_SAFE_NO_PAD` engine decodes a text to, if anything.
pub uninterp spec fn b64url_decode_of(text: Seq<char>) -> Option<Seq<u8>>;

/// HMAC-SHA256 of `data` under `key`.
pub uninterp spec fn hmac_sha256_of(key: Seq<u8>, data: Seq<u8>) -> Seq<u8>;

/// The JSON string literal `serde_json` writes for a string (quotes and escapes included).
pub uninterp spec fn json_string_of(s: Seq<char>) -> Seq<u8>;

/// The `(sub, name, iat)` fields `serde_json` reads from a JSON object, if the
/// bytes are one with those fields of those types.
pub uninterp spec fn json_claims_of(bytes: Seq<u8>) -> Option<(Seq<char>, Seq<char>, i64)>;

/// The string `alg` field `serde_json` reads from a JSON object, if any.
pub uninterp spec fn json_alg_of(bytes: Seq<u8>) -> Option<Seq<char>>;

/// The characters of the base64url alphabet.
pub open spec fn is_b64url_char(c: char) -> bool {
    let u = c as u32;
    ||| 48 <= u <= 57
    ||| 65 <= u <= 90
    ||| 97 <= u <= 122
    ||| c == '-'
    ||| c == '_'
}

pub open spec fn no_dot(s: Seq<char>) -> bool {
    forall|k: int| 0 <= k < s.len() ==> s[k] != '.'
}

/// `Engine::encode` of `base64`'s `URL_SAFE_NO_PAD` engine. The result is named
/// by `b64url_encode_of`; every character of it is from the base64url alphabet
/// (the crate's `URL_SAFE` alphabet, no padding character).
#[verifier::external_body]
fn b64url_encode(bytes: &[u8]) -> (s: String)
    ensures
        s@ == b64url_encode_of(bytes@),
        forall|k: int| 0 <= k < s@.len() ==> is_b64url_char(#[trigger] s@[k]),
{
    URL_SAFE_NO_PAD.encode(bytes)
}

pub open spec fn opt_bytes(o: Option<Vec<u8>>) -> Option<Seq<u8>> {
    match o {
        Some(v) => Some(v@),
        None => None,
    }
}

/// `Engine::decode` of `base64`'s `URL_SAFE_NO_PAD` engine, `None` on any decode
/// error. The result is named by `b64url_decode_of`; decoding what the engine
/// encoded gives back the bytes encoded.
#[verifier::external_body]
fn b64url_decode(text: &str) -> (r: Option<Vec<u8>>)
    ensures
        opt_bytes(r) == b64url_decode_of(text@),
        forall|b: Seq<u8>| text@ == #[trigger] b64url_encode_of(b) ==> opt_bytes(r) == Some(b),
{
    URL_SAFE_NO_PAD.decode(text).ok()
}

/// HMAC-SHA256 (`hmac::Hmac<sha2::Sha256>`) of `data` under `key`. The result is
/// named by `hmac_sha256_of` and is 32 bytes long. `new_from_slice` accepts a
/// key of any length, so the `expect` never fires.
#[verifier::external_body]
fn mac(key: &[u8], data: &[u8]) -> (m: Vec<u8>)
    ensures
        m@ == hmac_sha256_of(key@, data@),
        m@.len() == 32,
{
    let mut m = Hmac::<Sha256>::new_from_slice(key).expect("HMAC accepts keys of any length");
    m.update(data);
    m.finalize().into_bytes().to_vec()
}

/// `subtle::ConstantTimeEq::ct_eq` on byte slices: true exactly when the two
/// slices have the same length and the same bytes.
#[verifier::external_body]
fn bytes_ct_eq(a: &[u8], b: &[u8]) -> (r: bool)
    ensures
        r == (a@ == b@),
{
    bool::from(a.ct_eq(b))
}

/// `serde_json::to_vec` of a string: its JSON string literal. The result is
/// named by `json_string_of`; serialising a `str` cannot fail.
#[verifier::external_body]
fn json_string(s: &str) -> (b: Vec<u8>)
    ensures
        b@ == json_string_of(s@),
{
    serde_json::to_vec(s).unwrap_or_default()
}

pub open spec fn opt_claims(o: Option<(String, String, i64)>) -> Option<(Seq<char>, Seq<char>, i64)> {
    match o {
        Some(c) => Some((c.0@, c.1@, c.2)),
        None => None,
    }
}

pub open spec fn opt_string(o: Option<String>) -> Option<Seq<char>> {
    match o {
        Some(s) => Some(s@),
        None => None,
    }
}

/// The UTF-8 bytes of the JSON object `{"sub":…,"name":…,"iat":…}` as
/// `serde_json` writes a claims struct: no white space, fields in that order.
pub open spec fn claims_json_bytes(sub: Seq<char>, name: Seq<char>, iat: i64) -> Seq<u8> {
    encode_utf8("{\"sub\":"@) + json_string_of(sub) + encode_utf8(",\"name\":"@) + json_string_of(
        name,
    ) + encode_utf8(",\"iat\":"@) + encode_utf8(dec_i64(iat)) + encode_utf8("}"@)
}

/// The bytes of the fixed token header.
pub open spec fn header_json_bytes() -> Seq<u8> {
    encode_utf8("{\"alg\":\"HS256\",\"typ\":\"JWT\"}"@)
}

/// `serde_json::from_slice` into a `serde_json::Value`, then the `sub` and
/// `name` string fields and the `iat` integer field (`as_i64`) of that object.
/// `None` when the bytes are not JSON, not an object, or lack one of the
/// fields with that type. The result is named by `json_claims_of`; reading the
/// claims object `serde_json` wrote gives back its fields.
///
/// A payload holding a field twice is read with the last occurrence, and one
/// written as a JSON array is refused.
#[verifier::external_body]
fn json_claims(bytes: &[u8]) -> (r: Option<(String, String, i64)>)
    ensures
        opt_claims(r) == json_claims_of(bytes@),
        forall|sub: Seq<char>, name: Seq<char>, iat: i64|
            bytes@ == #[trigger] claims_json_bytes(sub, name, iat) ==> opt_claims(r) == Some(
                (sub, name, iat),
            ),
{
    let v: serde_json::Value = serde_json::from_slice(bytes).ok()?;
    let sub = v.get("sub")?.as_str()?.to_string();
    let name = v.get("name")?.as_str()?.to_string();
    let iat = v.get("iat")?.as_i64()?;
    Some((sub, name, iat))
}

/// `serde_json::from_slice` into a `serde_json::Value`, then its `alg` string
/// field. `None` when the bytes are not JSON, not an object, or have no string
/// `alg`. The result is named by `json_alg_of`; the fixed header reads as
/// `HS256`.
#[verifier::external_body]
fn json_alg(bytes: &[u8]) -> (r: Option<String>)
    ensures
        opt_string(r) == json_alg_of(bytes@),
        bytes@ == header_json_bytes() ==> opt_string(r) == Some("HS256"@),
{
    let v: serde_json::Value = serde_json::from_slice(bytes).ok()?;
    v.get("alg")?.as_str().map(|a| a.to_string())
}

// ---------------------------------------------------------------------------
// Claims and errors
// ---------------------------------------------------------------------------

/// Claims carried by a client credential. No expiry: a credential stays valid
/// until its client is revoked or reissued.
#[derive(Debug, Clone, PartialEq, Eq)]
pub struct Claims {
    /// The client's registry id.
    pub sub: String,
    /// The client's display name at issue time (informational).
    pub name: String,
    /// Issued-at, unix seconds.
    pub iat: i64,
}

impl View for Claims {
    type V = (Seq<char>, Seq<char>, i64);

    open spec fn view(&self) -> (Seq<char>, Seq<char>, i64) {
        (self.sub@, self.name@, self.iat)
    }
}

#[derive(Debug, Clone, Copy, PartialEq, Eq, Structural)]
pub enum JwtError {
    /// Not three base64url segments, or a segment that does not decode.
    Malformed,
    /// Header `alg` is anything other than `HS256`.
    UnsupportedAlg,
    /// HMAC does not match.
    BadSignature,
    /// Signature is fine but the payload is not a claims object.
    BadClaims,
}

impl JwtError {
    /// The error's message. It never carries any part of the key.
    pub fn message(&self) -> (m: &'static str)
        ensures
            m@ == jwt_error_message(*self),
    {
        match self {
            JwtError::Malformed => "malformed token",
            JwtError::UnsupportedAlg => "unsupported token algorithm",
            JwtError::BadSignature => "bad token signature",
            JwtError::BadClaims => "bad token claims",
        }
    }
}

pub open spec fn jwt_error_message(e: JwtError) -> Seq<char> {
    match e {
        JwtError::Malformed => "malformed token"@,
        JwtError::UnsupportedAlg => "unsupported token algorithm"@,
        JwtError::BadSignature => "bad token signature"@,
        JwtError::BadClaims => "bad token claims"@,
    }
}

pub open spec fn outcome(r: Result<Claims, JwtError>) -> Result<
    (Seq<char>, Seq<char>, i64),
    JwtError,
> {
    match r {
        Ok(c) => Ok(c@),
        Err(e) => Err(e),
    }
}

// ---------------------------------------------------------------------------
// Specification
// ---------------------------------------------------------------------------

/// `<header>.<payload>`, the text the signature covers.
pub open spec fn signing_input(header: Seq<char>, payload: Seq<char>) -> Seq<char> {
    header + seq!['.'] + payload
}

pub open spec fn header_b64() -> Seq<char> {
    b64url_encode_of(header_json_bytes())
}

pub open spec fn payload_b64(sub: Seq<char>, name: Seq<char>, iat: i64) -> Seq<char> {
    b64url_encode_of(claims_json_bytes(sub, name, iat))
}

pub open spec fn claims_signing_input(sub: Seq<char>, name: Seq<char>, iat: i64) -> Seq<char> {
    signing_input(header_b64(), payload_b64(sub, name, iat))
}

pub open spec fn signature_b64(key: Seq<u8>, sub: Seq<char>, name: Seq<char>, iat: i64) -> Seq<
    char,
> {
    b64url_encode_of(hmac_sha256_of(key, encode_utf8(claims_signing_input(sub, name, iat))))
}

/// The compact token for some claims under `key`.
pub open spec fn signed_token(key: Seq<u8>, sub: Seq<char>, name: Seq<char>, iat: i64) -> Seq<
    char,
> {
    claims_signing_input(sub, name, iat) + seq!['.'] + signature_b64(key, sub, name, iat)
}

/// `token` is what `sign` produced for these claims under `key`: its three
/// segments hold no `.`.
pub open spec fn signed_by(token: Seq<char>, key: Seq<u8>, sub: Seq<char>, name: Seq<char>, iat: i64) -> bool {
    &&& token == signed_token(key, sub, name, iat)
    &&& no_dot(header_b64())
    &&& no_dot(payload_b64(sub, name, iat))
    &&& no_dot(signature_b64(key, sub, name, iat))
}

/// What verifying `token` under `key` yields.
pub open spec fn verify_spec(token: Seq<char>, key: Seq<u8>) -> Result<
    (Seq<char>, Seq<char>, i64),
    JwtError,
> {
    let parts = split_char(token, '.');
    if parts.len() != 3 {
        Err(JwtError::Malformed)
    } else {
        match b64url_decode_of(parts[0]) {
            None => Err(JwtError::Malformed),
            Some(header) => match json_alg_of(header) {
                None => Err(JwtError::Malformed),
                Some(alg) => if alg != "HS256"@ {
                    Err(JwtError::UnsupportedAlg)
                } else {
                    match b64url_decode_of(parts[2]) {
                        None => Err(JwtError::Malformed),
                        Some(given) => if given != hmac_sha256_of(
                            key,
                            encode_utf8(signing_input(parts[0], parts[1])),
                        ) {
                            Err(JwtError::BadSignature)
                        } else {
                            match b64url_decode_of(parts[1]) {
                                None => Err(JwtError::Malformed),
                                Some(payload) => match json_claims_of(payload) {
                                    None => Err(JwtError::BadClaims),
                                    Some(c) => Ok(c),
                                },
                            }
                        },
                    }
                },
            },
        }
    }
}

/// What verifying a token signed under `signer` yields under `key`: the claims
/// when the two keys give the same MAC over the token's signing input, else a
/// bad signature.
pub open spec fn verify_signed(
    key: Seq<u8>,
    signer: Seq<u8>,
    sub: Seq<char>,
    name: Seq<char>,
    iat: i64,
) -> Result<(Seq<char>, Seq<char>, i64), JwtError> {
    let input = encode_utf8(claims_signing_input(sub, name, iat));
    if hmac_sha256_of(key, input) == hmac_sha256_of(signer, input) {
        Ok((sub, name, iat))
    } else {
        Err(JwtError::BadSignature)
    }
}

/// The signature is checked before the payload is read: a token whose
/// header is a readable HS256 header and whose signature is not the MAC of
/// its header and payload under the key is refused as a bad signature,
/// whatever its payload holds.
pub proof fn law_signature_checked_before_the_payload(token: Seq<char>, key: Seq<u8>)
    requires
        split_char(token, '.').len() == 3,
        match b64url_decode_of(split_char(token, '.')[0]) {
            Some(h) => json_alg_of(h) == Some("HS256"@),
            None => false,
        },
        match b64url_decode_of(split_char(token, '.')[2]) {
            Some(given) => given != hmac_sha256_of(
                key,
                encode_utf8(signing_input(split_char(token, '.')[0], split_char(token, '.')[1])),
            ),
            None => false,
        },
    ensures
        verify_spec(token, key) == Err::<(Seq<char>, Seq<char>, i64), JwtError>(JwtError::BadSignature),
{
}

/// Splitting `a.b.c` at `.` gives `a`, `b`, `c` when none of them holds a `.`.
pub proof fn lemma_split_three(a: Seq<char>, b: Seq<char>, c: Seq<char>)
    requires
        no_dot(a),
        no_dot(b),
        no_dot(c),
    ensures
        split_char(a + seq!['.'] + b + seq!['.'] + c, '.') == seq![a, b, c],
{
    let s = a + seq!['.'] + b + seq!['.'] + c;
    crate::text::lemma_idx_of_at(s, '.', a.len() as int);
    let r1 = s.subrange(a.len() as int + 1, s.len() as int);
    assert(r1 =~= b + seq!['.'] + c);
    crate::text::lemma_idx_of_at(r1, '.', b.len() as int);
    let r2 = r1.subrange(b.len() as int + 1, r1.len() as int);
    assert(r2 =~= c);
    crate::text::lemma_idx_of_at(r2, '.', c.len() as int);
    assert(s.subrange(0, a.len() as int) =~= a);
    assert(r1.subrange(0, b.len() as int) =~= b);
    assert(split_char(r2, '.') =~= seq![c]);
    assert(split_char(r1, '.') =~= seq![b, c]);
    assert(split_char(s, '.') =~= seq![a, b, c]);
}

// ---------------------------------------------------------------------------
// Implementation
// ---------------------------------------------------------------------------

fn push_bytes(dst: &mut Vec<u8>, src: &[u8])
    ensures
        final(dst)@ == old(dst)@ + src@,
{
    let mut i: usize = 0;
    while i < src.len()
        invariant
            i <= src@.len(),
            dst@ == old(dst)@ + src@.subrange(0, i as int),
        decreases src@.len() - i,
    {
        dst.push(src[i]);
        i = i + 1;
        assert(dst@ =~= old(dst)@ + src@.subrange(0, i as int));
    }
    assert(src@.subrange(0, src@.len() as int) =~= src@);
}

fn claims_json(claims: &Claims) -> (b: Vec<u8>)
    ensures
        b@ == claims_json_bytes(claims.sub@, claims.name@, claims.iat),
{
    let mut out: Vec<u8> = Vec::new();
    push_bytes(&mut out, "{\"sub\":".as_bytes());
    let sub = json_string(claims.sub.as_str());
    push_bytes(&mut out, sub.as_slice());
    push_bytes(&mut out, ",\"name\":".as_bytes());
    let name = json_string(claims.name.as_str());
    push_bytes(&mut out, name.as_slice());
    push_bytes(&mut out, ",\"iat\":".as_bytes());
    let digits = string_of(dec_i64_chars(claims.iat).as_slice());
    push_bytes(&mut out, digits.as_str().as_bytes());
    push_bytes(&mut out, "}".as_bytes());
    assert(out@ =~= claims_json_bytes(claims.sub@, claims.name@, claims.iat));
    out
}

fn join_dot(a: &str, b: &str) -> (r: String)
    ensures
        r@ == signing_input(a@, b@),
{
    let mut v = chars_of(a);
    v.push('.');
    let w = chars_of(b);
    push_all(&mut v, w.as_slice());
    string_of(v.as_slice())
}

/// Sign `claims` with `key` and return the compact serialization
/// `<header>.<payload>.<signature>`.
pub fn sign(claims: &Claims, key: &[u8]) -> (token: String)
    ensures
        signed_by(token@, key@, claims.sub@, claims.name@, claims.iat),
{
    let header = b64url_encode("{\"alg\":\"HS256\",\"typ\":\"JWT\"}".as_bytes());
    let payload = b64url_encode(claims_json(claims).as_slice());
    let input = join_dot(header.as_str(), payload.as_str());
    let signature = b64url_encode(mac(key, input.as_str().as_bytes()).as_slice());
    proof {
        assert forall|k: int| 0 <= k < header@.len() implies header@[k] != '.' by {
            assert(is_b64url_char(header@[k]));
        }
        assert forall|k: int| 0 <= k < payload@.len() implies payload@[k] != '.' by {
            assert(is_b64url_char(payload@[k]));
        }
        assert forall|k: int| 0 <= k < signature@.len() implies signature@[k] != '.' by {
            assert(is_b64url_char(signature@[k]));
        }
    }
    join_dot(input.as_str(), signature.as_str())
}

/// Verify `token` against `key` and return its claims. The header's `alg` is
/// checked first and the signature (in constant time) before the payload is
/// parsed, so an untrusted payload is never read.
pub fn verify(token: &str, key: &[u8]) -> (r: Result<Claims, JwtError>)
    ensures
        outcome(r) == verify_spec(token@, key@),
        forall|signer: Seq<u8>, sub: Seq<char>, name: Seq<char>, iat: i64|
            #[trigger] signed_by(token@, signer, sub, name, iat) ==> outcome(r) == verify_signed(
                key@,
                signer,
                sub,
                name,
                iat,
            ),
{
    let chars = chars_of(token);
    let parts = split_chars(chars.as_slice(), '.');
    proof {
        assert forall|signer: Seq<u8>, sub: Seq<char>, name: Seq<char>, iat: i64|
            #[trigger] signed_by(token@, signer, sub, name, iat) implies views(parts@) == seq![
                header_b64(),
                payload_b64(sub, name, iat),
                signature_b64(signer, sub, name, iat),
            ] by {
            lemma_split_three(
                header_b64(),
                payload_b64(sub, name, iat),
                signature_b64(signer, sub, name, iat),
            );
        }
    }
    if parts.len() != 3 {
        return Err(JwtError::Malformed);
    }
    assert(views(parts@)[0] == parts@[0]@);
    assert(views(parts@)[1] == parts@[1]@);
    assert(views(parts@)[2] == parts@[2]@);
    let h = string_of(parts[0].as_slice());
    let p = string_of(parts[1].as_slice());
    let s = string_of(parts[2].as_slice());

    let header_bytes = match b64url_decode(h.as_str()) {
        Some(b) => b,
        None => {
            return Err(JwtError::Malformed);
        },
    };
    let alg = match json_alg(header_bytes.as_slice()) {
        Some(a) => a,
        None => {
            return Err(JwtError::Malformed);
        },
    };
    let alg_chars = chars_of(alg.as_str());
    let hs256 = chars_of("HS256");
    if !crate::text::chars_eq(alg_chars.as_slice(), hs256.as_slice()) {
        return Err(JwtError::UnsupportedAlg);
    }
    let given = match b64url_decode(s.as_str()) {
        Some(b) => b,
        None => {
            return Err(JwtError::Malformed);
        },
    };
    let input = join_dot(h.as_str(), p.as_str());
    let expected = mac(key, input.as_str().as_bytes());
    if !bytes_ct_eq(given.as_slice(), expected.as_slice()) {
        return Err(JwtError::BadSignature);
    }
    let payload = match b64url_decode(p.as_str()) {
        Some(b) => b,
        None => {
            return Err(JwtError::Malformed);
        },
    };
    match json_claims(payload.as_slice()) {
        Some(c) => Ok(Claims { sub: c.0, name: c.1, iat: c.2 }),
        None => Err(JwtError::BadClaims),
    }
}

} // verus!
