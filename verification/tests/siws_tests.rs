use base64::engine::general_purpose;
use base64::Engine;
use ed25519_dalek::{Signature, VerifyingKey};
use pipe_cli::jwt::JwtError;
use pipe_cli::siws::{siws_challenge_request, siws_credentials, siws_verify_request};
use pipe_cli::types::{SavedCredentials, SiwsChallengeResponse, SiwsVerifyResponse, Timestamp};
use pipe_cli::wallet::{generate_keypair, pubkey_base58};

fn make_jwt(sub: &str) -> String {
    let header = general_purpose::URL_SAFE_NO_PAD.encode(r#"{"alg":"HS256","typ":"JWT"}"#);
    let payload = general_purpose::URL_SAFE_NO_PAD
        .encode(format!(r#"{{"sub":"{}","exp":9999999999}}"#, sub));
    format!("{}.{}.fakesig", header, payload)
}

fn verify_response(access_token: String) -> SiwsVerifyResponse {
    SiwsVerifyResponse {
        access_token,
        refresh_token: "refresh-token-xyz".to_string(),
        token_type: "Bearer".to_string(),
        expires_in: 900,
        csrf_token: Some("csrf-abc".to_string()),
    }
}

#[test]
fn siws_requests_carry_the_signed_challenge() {
    let kp = generate_keypair();
    let pubkey = pubkey_base58(&kp);
    let challenge_req = siws_challenge_request(&pubkey);
    assert_eq!(challenge_req.wallet_public_key, pubkey);

    let challenge = SiwsChallengeResponse {
        nonce: "test-nonce-123".to_string(),
        message: "Sign this message to authenticate".to_string(),
    };
    let req = siws_verify_request(&kp, &pubkey, challenge);
    assert_eq!(req.wallet_public_key, pubkey);
    assert_eq!(req.nonce, "test-nonce-123");
    assert_eq!(req.message, "Sign this message to authenticate");

    let sig_bytes = general_purpose::STANDARD.decode(&req.signature_b64).unwrap();
    let signature = Signature::from_bytes(&sig_bytes.try_into().unwrap());
    let vk = VerifyingKey::from_bytes(&kp.public.clone().try_into().unwrap()).unwrap();
    assert!(vk.verify_strict(req.message.as_bytes(), &signature).is_ok());
}

#[test]
fn siws_credentials_from_verify_response() {
    let uid = "aaaaaaaa-bbbb-cccc-dddd-eeeeeeeeeeee";
    let expires_at = Timestamp { secs: 1_700_000_900, nanos: 0 };
    let creds =
        siws_credentials(verify_response(make_jwt(uid)), expires_at, None, "http://127.0.0.1:9")
            .unwrap();
    assert_eq!(creds.user_id, uid);
    assert_eq!(creds.user_app_key, "");
    let t = creds.auth_tokens.as_ref().unwrap();
    assert_eq!(t.refresh_token, "refresh-token-xyz");
    assert_eq!(t.token_type, "Bearer");
    assert_eq!(t.expires_in, 900);
    assert_eq!(t.expires_at, Some(expires_at));
    assert_eq!(t.csrf_token.as_deref(), Some("csrf-abc"));
    assert!(creds.username.is_none());
    assert_eq!(creds.api_base_url.as_deref(), Some("http://127.0.0.1:9"));
    assert!(creds.s3_endpoint.is_none());
}

#[test]
fn siws_credentials_keep_saved_settings() {
    let existing = SavedCredentials {
        user_id: "old".to_string(),
        user_app_key: "old-key".to_string(),
        auth_tokens: None,
        username: Some("alice".to_string()),
        api_base_url: Some("https://saved.example.com".to_string()),
        s3_endpoint: Some("https://s3.example.com".to_string()),
        s3_region: Some("us-east-1".to_string()),
        s3_virtual_hosted: Some(true),
    };
    let creds = siws_credentials(
        verify_response(make_jwt("u-1")),
        Timestamp { secs: 0, nanos: 0 },
        Some(existing),
        "https://default.example.com",
    )
    .unwrap();
    assert_eq!(creds.user_id, "u-1");
    assert_eq!(creds.user_app_key, "");
    assert!(creds.username.is_none());
    assert_eq!(creds.api_base_url.as_deref(), Some("https://saved.example.com"));
    assert_eq!(creds.s3_endpoint.as_deref(), Some("https://s3.example.com"));
    assert_eq!(creds.s3_region.as_deref(), Some("us-east-1"));
    assert_eq!(creds.s3_virtual_hosted, Some(true));
}

#[test]
fn siws_credentials_need_a_user_id() {
    let r = siws_credentials(
        verify_response("not-a-jwt".to_string()),
        Timestamp { secs: 0, nanos: 0 },
        None,
        "https://x",
    );
    assert!(matches!(r, Err(JwtError::InvalidFormat)));
}
