//! Sign In With Solana: the requests the client sends and the credentials it keeps
//! once the server has verified the wallet's signature.
use vstd::prelude::*;

use crate::jwt::{extract_user_id_from_jwt, jwt_error_kind, jwt_user_id, JwtError, JwtErrorKind};
use crate::credentials::auth_header_list;
use crate::types::{
    opt_text, AuthTokens, AuthTokensView, CredentialsView, SavedCredentials, SiwsChallengeRequest,
    SiwsChallengeResponse, SiwsVerifyRequest, SiwsVerifyResponse, Timestamp,
};
use crate::wallet::{
    base64_standard_text, ed25519_signature, sign_message_base64, SolanaKeypair,
};

verus! {

/// The challenge request for the wallet with base58 public key `pubkey_b58`.
pub fn siws_challenge_request(pubkey_b58: &str) -> (r: SiwsChallengeRequest)
    ensures
        r.wallet_public_key@ == pubkey_b58@,
{
    SiwsChallengeRequest { wallet_public_key: String::from_str(pubkey_b58) }
}

/// The verification request answering `challenge`: the challenge's nonce and message,
/// and the wallet's signature of the message's UTF-8 bytes in standard base64.
pub fn siws_verify_request(
    kp: &SolanaKeypair,
    pubkey_b58: &str,
    challenge: SiwsChallengeResponse,
) -> (r: SiwsVerifyRequest)
    requires
        kp.wf(),
    ensures
        r.wallet_public_key@ == pubkey_b58@,
        r.nonce@ == challenge.nonce@,
        r.message@ == challenge.message@,
        r.signature_b64@ == base64_standard_text(
            ed25519_signature(kp.secret@, vstd::utf8::encode_utf8(challenge.message@)),
        ),
{
    let signature_b64 = sign_message_base64(kp, challenge.message.as_str().as_bytes());
    SiwsVerifyRequest {
        wallet_public_key: String::from_str(pubkey_b58),
        nonce: challenge.nonce,
        message: challenge.message,
        signature_b64,
    }
}

/// What the client keeps after a successful sign-in: the user id from the access token,
/// no app key or user name, the new session tokens valid until `expires_at`, and the
/// per-profile settings already saved (the API base URL defaulting to `base_url`).
pub open spec fn siws_saved(
    user_id: Seq<char>,
    verify: SiwsVerifyResponse,
    expires_at: Timestamp,
    existing: Option<CredentialsView>,
    base_url: Seq<char>,
) -> CredentialsView {
    CredentialsView {
        user_id: user_id,
        user_app_key: Seq::empty(),
        auth_tokens: Some(
            AuthTokensView {
                access_token: verify.access_token@,
                refresh_token: verify.refresh_token@,
                token_type: verify.token_type@,
                expires_in: verify.expires_in,
                expires_at: Some(expires_at),
                csrf_token: opt_text(verify.csrf_token),
            },
        ),
        username: None,
        api_base_url: match existing {
            Some(e) if e.api_base_url is Some => e.api_base_url,
            _ => Some(base_url),
        },
        s3_endpoint: match existing {
            Some(e) => e.s3_endpoint,
            None => None,
        },
        s3_region: match existing {
            Some(e) => e.s3_region,
            None => None,
        },
        s3_virtual_hosted: match existing {
            Some(e) => e.s3_virtual_hosted,
            None => None,
        },
    }
}

/// The credentials to save after the server accepted the signature and answered with
/// `verify`, the tokens being valid until `expires_at`; `existing` is what the config file
/// held (where it held anything readable). Fails where no user id can be read from the
/// access token.
pub fn siws_credentials(
    verify: SiwsVerifyResponse,
    expires_at: Timestamp,
    existing: Option<SavedCredentials>,
    base_url: &str,
) -> (r: Result<SavedCredentials, JwtError>)
    ensures
        match jwt_user_id(verify.access_token@) {
            Ok(uid) => r matches Ok(c) && c@ == siws_saved(
                uid,
                verify,
                expires_at,
                match existing {
                    Some(e) => Some(e@),
                    None => None,
                },
                base_url@,
            ),
            Err(k) => r matches Err(e) && jwt_error_kind(e) == k,
        },
        r matches Ok(c) ==> (c.auth_tokens matches Some(t) && t.access_token@
            == verify.access_token@ && jwt_user_id(verify.access_token@) == Ok::<
            Seq<char>,
            JwtErrorKind,
        >(c.user_id@)),
{
    let user_id = match extract_user_id_from_jwt(verify.access_token.as_str()) {
        Ok(u) => u,
        Err(e) => {
            return Err(e);
        },
    };
    let SiwsVerifyResponse { access_token, refresh_token, token_type, expires_in, csrf_token } =
        verify;
    let auth_tokens = AuthTokens {
        access_token,
        refresh_token,
        token_type,
        expires_in,
        expires_at: Some(expires_at),
        csrf_token,
    };
    let (api_base_url, s3_endpoint, s3_region, s3_virtual_hosted) = match existing {
        Some(e) => {
            let api = match e.api_base_url {
                Some(a) => Some(a),
                None => Some(String::from_str(base_url)),
            };
            (api, e.s3_endpoint, e.s3_region, e.s3_virtual_hosted)
        },
        None => (Some(String::from_str(base_url)), None, None, None),
    };
    Ok(
        SavedCredentials {
            user_id,
            user_app_key: String::new(),
            auth_tokens: Some(auth_tokens),
            username: None,
            api_base_url,
            s3_endpoint,
            s3_region,
            s3_virtual_hosted,
        },
    )
}

/// After a sign-in the saved session is the one the server answered with: its access token
/// is the verify response's access token (the one the user id is read from), and it keeps
/// the response's refresh token, token type, lifetime and CSRF token, valid until
/// `expires_at`; requests then carry that access token as their bearer token.
pub proof fn law_siws_session_is_the_servers(
    user_id: Seq<char>,
    verify: SiwsVerifyResponse,
    expires_at: Timestamp,
    existing: Option<CredentialsView>,
    base_url: Seq<char>,
)
    ensures
        ({
            let c = siws_saved(user_id, verify, expires_at, existing, base_url);
            &&& c.user_id == user_id
            &&& c.auth_tokens matches Some(t) && {
                &&& t.access_token == verify.access_token@
                &&& t.refresh_token == verify.refresh_token@
                &&& t.token_type == verify.token_type@
                &&& t.expires_in == verify.expires_in
                &&& t.expires_at == Some(expires_at)
                &&& t.csrf_token == opt_text(verify.csrf_token)
            }
            &&& auth_header_list(c, false) == Some(
                seq![("Authorization"@, "Bearer "@ + verify.access_token@)],
            )
        }),
{
    let c = siws_saved(user_id, verify, expires_at, existing, base_url);
    assert(auth_header_list(c, false)->0 =~= seq![("Authorization"@, "Bearer "@ + verify.access_token@)]);
}

} // verus!
