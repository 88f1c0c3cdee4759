//! Saved credentials and the JWT session: what is kept between runs, when the
//! access token counts as expired, how a refresh answer updates the tokens,
//! and which headers authenticate a request.
use vstd::prelude::*;

use crate::text::push_str;
use crate::types::{
    opt_text, AuthTokens, AuthTokensView, CredentialsView, RefreshTokenRequest,
    RefreshTokenResponse, SavedCredentials, Timestamp, time_le,
};

verus! {

/// Token type assumed when the server leaves it out.
pub fn default_token_type() -> (s: String)
    ensures
        s@ == "Bearer"@,
{
    String::from_str("Bearer")
}

/// Token lifetime in seconds assumed when the server leaves it out (15 minutes).
pub fn default_expires_in() -> (n: i64)
    ensures
        n == 900,
{
    900
}

/// The S3 bucket of a user: `pipe-<user_id>`.
pub fn bucket_name_for_user_id(user_id: &str) -> (s: String)
    ensures
        s@ == "pipe-"@ + user_id@,
{
    let mut s = String::from_str("pipe-");
    push_str(&mut s, user_id);
    s
}

/// The credentials `save_credentials_to_file` writes for `user_id` and `user_app_key`,
/// given what the config file held before (`None` where it held nothing readable):
/// the session tokens, user name and per-profile settings already saved are kept.
pub fn save_credentials_to_file(
    user_id: &str,
    user_app_key: &str,
    existing: Option<SavedCredentials>,
) -> (c: SavedCredentials)
    ensures
        c@.user_id == user_id@,
        c@.user_app_key == user_app_key@,
        match existing {
            Some(e) => {
                &&& c@.auth_tokens == e@.auth_tokens
                &&& c@.username == e@.username
                &&& c@.api_base_url == e@.api_base_url
                &&& c@.s3_endpoint == e@.s3_endpoint
                &&& c@.s3_region == e@.s3_region
                &&& c@.s3_virtual_hosted == e@.s3_virtual_hosted
            },
            None => {
                &&& c@.auth_tokens is None
                &&& c@.username is None
                &&& c@.api_base_url is None
                &&& c@.s3_endpoint is None
                &&& c@.s3_region is None
                &&& c@.s3_virtual_hosted is None
            },
        },
{
    match existing {
        Some(e) => SavedCredentials {
            user_id: String::from_str(user_id),
            user_app_key: String::from_str(user_app_key),
            auth_tokens: e.auth_tokens,
            username: e.username,
            api_base_url: e.api_base_url,
            s3_endpoint: e.s3_endpoint,
            s3_region: e.s3_region,
            s3_virtual_hosted: e.s3_virtual_hosted,
        },
        None => SavedCredentials {
            user_id: String::from_str(user_id),
            user_app_key: String::from_str(user_app_key),
            auth_tokens: None,
            username: None,
            api_base_url: None,
            s3_endpoint: None,
            s3_region: None,
            s3_virtual_hosted: None,
        },
    }
}

/// A session token counts as expired when it has no expiry time, or when it expires
/// within 60 seconds of `now`.
pub open spec fn token_expired(expires_at: Option<Timestamp>, now: Timestamp) -> bool {
    match expires_at {
        None => true,
        Some(e) => time_le(e, Timestamp { secs: (now.secs + 60) as i64, nanos: now.nanos }),
    }
}

/// Whether the access token is expired or about to expire (within 60 seconds) at `now`.
/// `now` is a clock reading, so never a leap second.
pub fn is_token_expired(auth_tokens: &AuthTokens, now: Timestamp) -> (b: bool)
    requires
        now.secs <= i64::MAX - 60,
        now.nanos < 1_000_000_000,
    ensures
        b == token_expired(auth_tokens.expires_at, now),
{
    match auth_tokens.expires_at {
        None => true,
        Some(e) => {
            let s = now.secs + 60;
            e.secs < s || (e.secs == s && e.nanos <= now.nanos)
        },
    }
}

/// Saved credentials need a token refresh at `now`: there are session tokens and they
/// are expired.
pub open spec fn needs_refresh(c: CredentialsView, now: Timestamp) -> bool {
    c.auth_tokens matches Some(t) && token_expired(t.expires_at, now)
}

/// The refresh request to send before using `creds` at `now`: one exactly when there are
/// session tokens and they are expired, carrying their refresh token.
pub fn token_refresh_request(creds: &SavedCredentials, now: Timestamp) -> (r: Option<
    RefreshTokenRequest,
>)
    requires
        now.secs <= i64::MAX - 60,
        now.nanos < 1_000_000_000,
    ensures
        r is Some <==> needs_refresh(creds@, now),
        r matches Some(q) ==> q.refresh_token@ == creds@.auth_tokens->0.refresh_token,
{
    match &creds.auth_tokens {
        Some(t) => if is_token_expired(t, now) {
            Some(RefreshTokenRequest { refresh_token: t.refresh_token.clone() })
        } else {
            None
        },
        None => None,
    }
}

/// Whole seconds since the epoch of the first second chrono can represent:
/// January 1, 262144 BCE (proleptic year -262143), 00:00:00 UTC.
pub const MIN_UTC_SECS: i64 = -8_334_601_228_800;

/// Whole seconds since the epoch of the last second chrono can represent:
/// December 31, 262142 CE, 23:59:59 UTC.
pub const MAX_UTC_SECS: i64 = 8_210_266_876_799;

/// Whether `secs` seconds after the epoch is a time `chrono::DateTime<Utc>` can hold:
/// a day from `NaiveDate::MIN` to `NaiveDate::MAX`.
pub open spec fn utc_timestamp_in_range(secs: i64) -> bool {
    MIN_UTC_SECS <= secs <= MAX_UTC_SECS
}

/// Calls `chrono::DateTime::<Utc>::from_timestamp(secs, 0)` and reports whether it gave a
/// time. Claimed: it does exactly for the seconds from `MIN_UTC_SECS` to `MAX_UTC_SECS`
/// (the function turns `secs` into a day number and a second of the day, and
/// `NaiveDate::from_num_days_from_ce_opt` accepts the days from `NaiveDate::MIN`, January 1
/// of year -262143, to `NaiveDate::MAX`, December 31 of year 262142).
#[verifier::external_body]
fn utc_from_timestamp_is_some(secs: i64) -> (b: bool)
    ensures
        b == utc_timestamp_in_range(secs),
{
    chrono::DateTime::<chrono::Utc>::from_timestamp(secs, 0).is_some()
}

/// The session expiry time was out of the range of representable times.
#[derive(Debug, Clone, Copy, PartialEq, Eq, Structural)]
pub struct InvalidExpiration;

/// The time `expires_in` seconds after `now_secs`, whole seconds, where chrono can
/// represent it (from `MIN_UTC_SECS` to `MAX_UTC_SECS`).
pub fn expiry_time(now_secs: i64, expires_in: i64) -> (r: Result<Timestamp, InvalidExpiration>)
    requires
        i64::MIN <= now_secs + expires_in <= i64::MAX,
    ensures
        r is Ok <==> MIN_UTC_SECS <= now_secs + expires_in <= MAX_UTC_SECS,
        r matches Ok(t) ==> t.secs == now_secs + expires_in && t.nanos == 0,
{
    let secs = now_secs + expires_in;
    if utc_from_timestamp_is_some(secs) {
        Ok(Timestamp { secs, nanos: 0 })
    } else {
        Err(InvalidExpiration)
    }
}

/// Session tokens after a successful refresh: the new access token and lifetime, the
/// new expiry time, and the new CSRF token where the server sent one.
pub open spec fn refreshed_tokens(
    t: AuthTokensView,
    resp_access_token: Seq<char>,
    resp_expires_in: i64,
    resp_csrf: Option<Seq<char>>,
    expires_at: Timestamp,
) -> AuthTokensView {
    AuthTokensView {
        access_token: resp_access_token,
        expires_in: resp_expires_in,
        expires_at: Some(expires_at),
        csrf_token: match resp_csrf {
            Some(c) => Some(c),
            None => t.csrf_token,
        },
        ..t
    }
}

/// Saved credentials after a successful refresh: the session tokens are refreshed (see
/// `refreshed_tokens`), everything else is kept; without session tokens nothing changes.
pub open spec fn refreshed_credentials(
    c: CredentialsView,
    resp_access_token: Seq<char>,
    resp_expires_in: i64,
    resp_csrf: Option<Seq<char>>,
    expires_at: Timestamp,
) -> CredentialsView {
    CredentialsView {
        auth_tokens: match c.auth_tokens {
            Some(t) => Some(
                refreshed_tokens(t, resp_access_token, resp_expires_in, resp_csrf, expires_at),
            ),
            None => None,
        },
        ..c
    }
}

/// Applies a successful refresh answer, valid until `expires_at`, to the saved session
/// tokens; nothing else changes, and nothing at all where there are no tokens.
pub fn apply_token_refresh(
    creds: &mut SavedCredentials,
    resp: RefreshTokenResponse,
    expires_at: Timestamp,
)
    ensures
        final(creds)@ == refreshed_credentials(
            old(creds)@,
            resp.access_token@,
            resp.expires_in,
            opt_text(resp.csrf_token),
            expires_at,
        ),
{
    let RefreshTokenResponse { access_token, expires_in, csrf_token, .. } = resp;
    let tokens = creds.auth_tokens.take();
    match tokens {
        Some(mut t) => {
            t.access_token = access_token;
            t.expires_in = expires_in;
            t.expires_at = Some(expires_at);
            match csrf_token {
                Some(c) => {
                    t.csrf_token = Some(c);
                },
                None => {},
            }
            creds.auth_tokens = Some(t);
        },
        None => {},
    }
}

/// Saved credentials without their session tokens.
pub open spec fn logged_out(c: CredentialsView) -> CredentialsView {
    CredentialsView { auth_tokens: None, ..c }
}

/// Drops the saved session tokens (after a failed refresh or a logout).
pub fn clear_auth_tokens(creds: &mut SavedCredentials)
    ensures
        final(creds)@ == logged_out(old(creds)@),
{
    creds.auth_tokens = None;
}

/// A request needs session tokens and there are none.
#[derive(Debug, Clone, Copy, PartialEq, Eq, Structural)]
pub struct NotAuthenticated;

/// The headers that authenticate a request with the saved credentials, as (name, value):
/// `Authorization: Bearer <access token>`, and for a state-changing request also
/// `X-CSRF-Token` where a CSRF token is saved; none without session tokens.
pub open spec fn auth_header_list(c: CredentialsView, is_state_changing: bool) -> Option<
    Seq<(Seq<char>, Seq<char>)>,
> {
    match c.auth_tokens {
        None => None,
        Some(t) => Some(
            seq![("Authorization"@, "Bearer "@ + t.access_token)] + if is_state_changing
                && t.csrf_token is Some {
                seq![("X-CSRF-Token"@, t.csrf_token->0)]
            } else {
                Seq::empty()
            },
        ),
    }
}

/// A list of headers as text.
pub open spec fn header_texts(h: Seq<(String, String)>) -> Seq<(Seq<char>, Seq<char>)> {
    h.map_values(|p: (String, String)| (p.0@, p.1@))
}

/// The headers that authenticate a request (see `auth_header_list`); refused without
/// session tokens.
pub fn auth_headers(creds: &SavedCredentials, is_state_changing: bool) -> (r: Result<
    Vec<(String, String)>,
    NotAuthenticated,
>)
    ensures
        match auth_header_list(creds@, is_state_changing) {
            None => r is Err,
            Some(l) => r matches Ok(h) && header_texts(h@) == l,
        },
{
    let t = match &creds.auth_tokens {
        Some(t) => t,
        None => {
            return Err(NotAuthenticated);
        },
    };
    let mut h: Vec<(String, String)> = Vec::new();
    let mut bearer = String::from_str("Bearer ");
    push_str(&mut bearer, t.access_token.as_str());
    h.push((String::from_str("Authorization"), bearer));
    proof {
        assert(header_texts(h@) =~= seq![("Authorization"@, "Bearer "@ + t.access_token@)]);
    }
    if is_state_changing {
        match &t.csrf_token {
            Some(c) => {
                let ghost before = h@;
                let name = String::from_str("X-CSRF-Token");
                let value = c.clone();
                h.push((name, value));
                proof {
                    assert(header_texts(h@) =~= header_texts(before) + seq![
                        ("X-CSRF-Token"@, c@),
                    ]);
                }
            },
            None => {},
        }
    }
    proof {
        assert(header_texts(h@) =~= auth_header_list(creds@, is_state_changing)->0);
    }
    Ok(h)
}

/// The access token of the saved session, if there is one.
pub fn session_access_token(creds: &SavedCredentials) -> (r: Option<String>)
    ensures
        match creds@.auth_tokens {
            Some(t) => r matches Some(a) && a@ == t.access_token,
            None => r is None,
        },
{
    match &creds.auth_tokens {
        Some(t) => Some(t.access_token.clone()),
        None => None,
    }
}

/// Acts as the user given with `--user-id`, where one is given.
pub fn apply_user_id_override(creds: &mut SavedCredentials, user_id: Option<String>)
    ensures
        final(creds)@ == match user_id {
            Some(u) => CredentialsView { user_id: u@, ..old(creds)@ },
            None => old(creds)@,
        },
{
    if let Some(u) = user_id {
        creds.user_id = u;
    }
}

/// Keeps the S3 endpoint and region of a newly created S3 key as the profile's defaults.
pub fn save_s3_key_settings(creds: &mut SavedCredentials, endpoint: &str, region: &str)
    ensures
        final(creds)@ == (CredentialsView {
            s3_endpoint: Some(endpoint@),
            s3_region: Some(region@),
            ..old(creds)@
        }),
{
    creds.s3_endpoint = Some(String::from_str(endpoint));
    creds.s3_region = Some(String::from_str(region));
}

// ----- laws of the session -----

/// Once the access token counts as expired it stays expired as time goes on.
pub proof fn law_expiry_is_permanent(expires_at: Option<Timestamp>, now: Timestamp, later: Timestamp)
    requires
        time_le(now, later),
        later.secs <= i64::MAX - 60,
        token_expired(expires_at, now),
    ensures
        token_expired(expires_at, later),
{
}

/// Without session tokens (after a logout or a failed refresh) no request is
/// authenticated and there is nothing to refresh.
pub proof fn law_logged_out_is_unauthenticated(c: CredentialsView, is_state_changing: bool, now: Timestamp)
    ensures
        auth_header_list(logged_out(c), is_state_changing) is None,
        !needs_refresh(logged_out(c), now),
{
}

/// A refresh answered at `now` with a lifetime of `expires_in` seconds renews the session:
/// requests then carry the new access token (and the new CSRF token where one was sent,
/// else the old one), the refresh token and everything outside the session are kept, and
/// the tokens need no refresh again at `now` exactly when the lifetime is over 60 seconds.
pub proof fn law_refresh_renews_session(
    c: CredentialsView,
    access_token: Seq<char>,
    expires_in: i64,
    csrf: Option<Seq<char>>,
    now: Timestamp,
)
    requires
        c.auth_tokens is Some,
        i64::MIN <= now.secs + expires_in <= i64::MAX,
        now.secs <= i64::MAX - 60,
    ensures
        ({
            let after = refreshed_credentials(
                c,
                access_token,
                expires_in,
                csrf,
                Timestamp { secs: (now.secs + expires_in) as i64, nanos: 0 },
            );
            &&& needs_refresh(after, now) <==> expires_in <= 60
            &&& auth_header_list(after, false) == Some(
                seq![("Authorization"@, "Bearer "@ + access_token)],
            )
            &&& auth_header_list(after, true) == Some(
                seq![("Authorization"@, "Bearer "@ + access_token)] + match csrf {
                    Some(x) => seq![("X-CSRF-Token"@, x)],
                    None => match c.auth_tokens->0.csrf_token {
                        Some(x) => seq![("X-CSRF-Token"@, x)],
                        None => Seq::empty(),
                    },
                },
            )
            &&& after.auth_tokens->0.refresh_token == c.auth_tokens->0.refresh_token
            &&& after.auth_tokens->0.token_type == c.auth_tokens->0.token_type
            &&& logged_out(after) == logged_out(c)
        }),
{
    let after = refreshed_credentials(
        c,
        access_token,
        expires_in,
        csrf,
        Timestamp { secs: (now.secs + expires_in) as i64, nanos: 0 },
    );
    assert(auth_header_list(after, false)->0 =~= seq![("Authorization"@, "Bearer "@ + access_token)]);
}

} // verus!
