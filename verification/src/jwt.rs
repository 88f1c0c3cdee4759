//! Reading the user id (the `sub` claim) out of a JWT access token.
use base64::Engine;
use vstd::prelude::*;

use crate::text::{before_first, chars_of, lead_len, push_str, skip_class, string_of, CharClass};
use crate::types::opt_text;

verus! {

/// The bytes that the URL-safe base64 alphabet without padding decodes `text` to
/// (`base64::engine::general_purpose::URL_SAFE_NO_PAD`), or `None` where it refuses it.
pub uninterp spec fn base64_url_nopad_decode(text: Seq<char>) -> Option<Seq<u8>>;

/// Decodes `text` with base64's `URL_SAFE_NO_PAD` engine. Claimed: success and the bytes
/// are as `base64_url_nopad_decode` says; the error message (base64's `DecodeError` as
/// text) is left unsaid.
#[verifier::external_body]
fn decode_base64_url_nopad(text: &str) -> (r: Result<Vec<u8>, String>)
    ensures
        r is Ok <==> base64_url_nopad_decode(text@) is Some,
        r matches Ok(v) ==> base64_url_nopad_decode(text@) == Some(v@),
{
    base64::engine::general_purpose::URL_SAFE_NO_PAD.decode(text).map_err(|e| e.to_string())
}

/// For JSON text `json`: `None` where it is not JSON; otherwise the member `key` of the
/// top-level object where that member is a JSON string (`Some(Some(..))`), and
/// `Some(None)` where there is no such string member.
pub uninterp spec fn json_string_member(json: Seq<u8>, key: Seq<char>) -> Option<
    Option<Seq<char>>,
>;

/// Parses `json` with `serde_json::from_slice::<serde_json::Value>` and reads the member
/// `key` as a string (`Value::get`, `Value::as_str`). Claimed: success and the member are
/// as `json_string_member` says; serde_json's error message is left unsaid.
#[verifier::external_body]
fn json_string_member_of(json: &[u8], key: &str) -> (r: Result<Option<String>, String>)
    ensures
        r is Ok <==> json_string_member(json@, key@) is Some,
        r matches Ok(m) ==> json_string_member(json@, key@) == Some(opt_text(m)),
{
    match serde_json::from_slice::<serde_json::Value>(json) {
        Ok(v) => Ok(v.get(key).and_then(|m| m.as_str()).map(|s| s.to_string())),
        Err(e) => Err(e.to_string()),
    }
}

/// Why no user id could be read from an access token.
#[derive(Debug)]
pub enum JwtError {
    /// The token is not three parts separated by `.`.
    InvalidFormat,
    /// The middle part is not URL-safe base64 (the decoder's message).
    InvalidPayloadEncoding(String),
    /// The decoded payload is not JSON (the parser's message).
    InvalidPayloadJson(String),
    /// The payload has no string `sub` claim.
    MissingSub,
}

#[derive(Debug, Clone, Copy, PartialEq, Eq, Structural)]
pub enum JwtErrorKind {
    InvalidFormat,
    InvalidPayloadEncoding,
    InvalidPayloadJson,
    MissingSub,
}

pub open spec fn jwt_error_kind(e: JwtError) -> JwtErrorKind {
    match e {
        JwtError::InvalidFormat => JwtErrorKind::InvalidFormat,
        JwtError::InvalidPayloadEncoding(_) => JwtErrorKind::InvalidPayloadEncoding,
        JwtError::InvalidPayloadJson(_) => JwtErrorKind::InvalidPayloadJson,
        JwtError::MissingSub => JwtErrorKind::MissingSub,
    }
}

/// The number of `c` in `s`.
pub open spec fn count_char(s: Seq<char>, c: char) -> nat
    decreases s.len(),
{
    if s.len() == 0 {
        0
    } else {
        count_char(s.drop_last(), c) + if s.last() == c {
            1nat
        } else {
            0nat
        }
    }
}

/// The second of the `.`-separated parts of a token.
pub open spec fn jwt_payload_part(token: Seq<char>) -> Seq<char> {
    before_first(token.skip(lead_len(token, CharClass::Except('.')) + 1 as int), '.')
}

/// The outcome of reading the `sub` claim once the payload is decoded: the claim, or why
/// there is none.
pub open spec fn sub_claim(payload: Seq<u8>) -> Result<Seq<char>, JwtErrorKind> {
    match json_string_member(payload, "sub"@) {
        None => Err(JwtErrorKind::InvalidPayloadJson),
        Some(None) => Err(JwtErrorKind::MissingSub),
        Some(Some(s)) => Ok(s),
    }
}

/// The user id in an access token: the token must be three `.`-separated parts whose
/// middle part is URL-safe base64 of a JSON object with a string `sub` claim.
pub open spec fn jwt_user_id(token: Seq<char>) -> Result<Seq<char>, JwtErrorKind> {
    if count_char(token, '.') != 2 {
        Err(JwtErrorKind::InvalidFormat)
    } else {
        match base64_url_nopad_decode(jwt_payload_part(token)) {
            None => Err(JwtErrorKind::InvalidPayloadEncoding),
            Some(p) => sub_claim(p),
        }
    }
}

impl JwtError {
    /// The message shown for this error.
    pub fn message(&self) -> (m: String)
        ensures
            self is InvalidFormat ==> m@ == "Invalid JWT format"@,
            self matches JwtError::InvalidPayloadEncoding(e) ==> m@
                == "Invalid JWT payload encoding: "@ + e@,
            self matches JwtError::InvalidPayloadJson(e) ==> m@ == "Invalid JWT payload JSON: "@
                + e@,
            self is MissingSub ==> m@ == "JWT missing 'sub' claim"@,
    {
        match self {
            JwtError::InvalidFormat => String::from_str("Invalid JWT format"),
            JwtError::InvalidPayloadEncoding(e) => {
                let mut m = String::from_str("Invalid JWT payload encoding: ");
                push_str(&mut m, e.as_str());
                m
            },
            JwtError::InvalidPayloadJson(e) => {
                let mut m = String::from_str("Invalid JWT payload JSON: ");
                push_str(&mut m, e.as_str());
                m
            },
            JwtError::MissingSub => String::from_str("JWT missing 'sub' claim"),
        }
    }
}

/// The user id from what reading the `sub` member of the payload gave: the member's
/// text where it is a string, `MissingSub` where there is none, and the parser's
/// message where the payload is not JSON.
pub fn user_id_from_sub_member(member: Result<Option<String>, String>) -> (r: Result<
    String,
    JwtError,
>)
    ensures
        member matches Ok(Some(s)) ==> r matches Ok(u) && u@ == s@,
        member matches Ok(None) ==> r matches Err(JwtError::MissingSub),
        member matches Err(e) ==> r matches Err(JwtError::InvalidPayloadJson(m)) && m@ == e@,
{
    match member {
        Ok(Some(s)) => Ok(s),
        Ok(None) => Err(JwtError::MissingSub),
        Err(e) => Err(JwtError::InvalidPayloadJson(e)),
    }
}

/// The number of `c` in `v`.
fn count_in(v: &Vec<char>, c: char) -> (n: usize)
    ensures
        n == count_char(v@, c),
{
    let mut n: usize = 0;
    let mut i: usize = 0;
    while i < v.len()
        invariant
            i <= v.len(),
            n == count_char(v@.take(i as int), c),
            n <= i,
        decreases v.len() - i,
    {
        assert(v@.take(i + 1 as int).drop_last() =~= v@.take(i as int));
        if v[i] == c {
            n += 1;
        }
        i += 1;
    }
    assert(v@.take(v.len() as int) =~= v@);
    n
}

/// Reads the user id (the `sub` claim) from a JWT access token. The signature is not
/// checked: the token comes from the server the client just authenticated with.
pub fn extract_user_id_from_jwt(access_token: &str) -> (r: Result<String, JwtError>)
    ensures
        match jwt_user_id(access_token@) {
            Ok(s) => r matches Ok(u) && u@ == s,
            Err(k) => r matches Err(e) && jwt_error_kind(e) == k,
        },
{
    let v = chars_of(access_token);
    if count_in(&v, '.') != 2 {
        return Err(JwtError::InvalidFormat);
    }
    let i = skip_class(&v, 0, v.len(), CharClass::Except('.'));
    proof {
        assert(v@.subrange(0, v@.len() as int) =~= v@);
        if i == v.len() {
            lemma_no_char_count(v@, '.');
        }
    }
    let j = skip_class(&v, i + 1, v.len(), CharClass::Except('.'));
    proof {
        assert(v@.skip(i + 1 as int) =~= v@.subrange(i + 1, v@.len() as int));
        assert(jwt_payload_part(access_token@) =~= v@.subrange(i + 1, j as int));
    }
    let payload_text = string_of(&v, i + 1, j);
    let payload = match decode_base64_url_nopad(payload_text.as_str()) {
        Ok(p) => p,
        Err(e) => {
            return Err(JwtError::InvalidPayloadEncoding(e));
        },
    };
    let member = json_string_member_of(payload.as_slice(), "sub");
    user_id_from_sub_member(member)
}

/// A text without `c` counts no `c`.
proof fn lemma_no_char_count(s: Seq<char>, c: char)
    requires
        lead_len(s, CharClass::Except(c)) == s.len(),
    ensures
        count_char(s, c) == 0,
{
    crate::text::lemma_lead_len_props(s, CharClass::Except(c));
    lemma_count_zero(s, c);
}

proof fn lemma_count_zero(s: Seq<char>, c: char)
    requires
        forall|j: int| 0 <= j < s.len() ==> s[j] != c,
    ensures
        count_char(s, c) == 0,
    decreases s.len(),
{
    if s.len() > 0 {
        let p = s.drop_last();
        assert forall|j: int| 0 <= j < p.len() implies p[j] != c by {
            assert(p[j] == s[j]);
        }
        lemma_count_zero(p, c);
    }
}

} // verus!
