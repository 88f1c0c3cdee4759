use pipe_cli::credentials::{
    apply_token_refresh, auth_headers, bucket_name_for_user_id, clear_auth_tokens,
    apply_user_id_override, default_expires_in, default_token_type, expiry_time,
    is_token_expired, save_credentials_to_file, save_s3_key_settings, session_access_token,
    token_refresh_request, InvalidExpiration, NotAuthenticated, MAX_UTC_SECS, MIN_UTC_SECS,
};
use pipe_cli::types::{AuthTokens, RefreshTokenResponse, SavedCredentials, Timestamp};

fn stamp(t: chrono::DateTime<chrono::Utc>) -> Timestamp {
    Timestamp { secs: t.timestamp(), nanos: t.timestamp_subsec_nanos() }
}

fn make_auth_tokens(expires_at: Option<Timestamp>) -> AuthTokens {
    AuthTokens {
        access_token: "test".to_string(),
        refresh_token: "test".to_string(),
        token_type: "Bearer".to_string(),
        expires_in: 900,
        expires_at,
        csrf_token: None,
    }
}

fn creds_with(tokens: Option<AuthTokens>) -> SavedCredentials {
    SavedCredentials {
        user_id: "u1".to_string(),
        user_app_key: "k1".to_string(),
        auth_tokens: tokens,
        username: Some("alice".to_string()),
        api_base_url: Some("https://api.example.com".to_string()),
        s3_endpoint: None,
        s3_region: Some("us-east-1".to_string()),
        s3_virtual_hosted: Some(false),
    }
}

#[test]
fn expired_when_no_expiration() {
    let tokens = make_auth_tokens(None);
    assert!(is_token_expired(&tokens, stamp(chrono::Utc::now())));
}

#[test]
fn expired_when_in_the_past() {
    let now = chrono::Utc::now();
    let past = now - chrono::Duration::hours(1);
    let tokens = make_auth_tokens(Some(stamp(past)));
    assert!(is_token_expired(&tokens, stamp(now)));
}

#[test]
fn expired_within_60s_buffer() {
    let now = chrono::Utc::now();
    let soon = now + chrono::Duration::seconds(30);
    let tokens = make_auth_tokens(Some(stamp(soon)));
    assert!(is_token_expired(&tokens, stamp(now)));
}

#[test]
fn not_expired_well_in_future() {
    let now = chrono::Utc::now();
    let future = now + chrono::Duration::hours(1);
    let tokens = make_auth_tokens(Some(stamp(future)));
    assert!(!is_token_expired(&tokens, stamp(now)));
}

#[test]
fn boundary_at_exactly_61s() {
    let now = chrono::Utc::now();
    let boundary = now + chrono::Duration::seconds(61);
    let tokens = make_auth_tokens(Some(stamp(boundary)));
    assert!(!is_token_expired(&tokens, stamp(now)));
}

#[test]
fn expiry_boundary_to_the_nanosecond() {
    let now = Timestamp { secs: 1_000, nanos: 500 };
    let at = |secs: i64, nanos: u32| make_auth_tokens(Some(Timestamp { secs, nanos }));
    assert!(is_token_expired(&at(1_060, 500), now));
    assert!(is_token_expired(&at(1_060, 499), now));
    assert!(!is_token_expired(&at(1_060, 501), now));
    assert!(!is_token_expired(&at(1_061, 0), now));
    assert!(is_token_expired(&at(1_059, 999_999_999), now));
}

#[test]
fn expiry_is_permanent_scenario() {
    let tokens = make_auth_tokens(Some(Timestamp { secs: 5_000, nanos: 0 }));
    assert!(is_token_expired(&tokens, Timestamp { secs: 4_940, nanos: 0 }));
    assert!(is_token_expired(&tokens, Timestamp { secs: 4_941, nanos: 7 }));
    assert!(is_token_expired(&tokens, Timestamp { secs: 9_000, nanos: 0 }));
}

#[test]
fn save_credentials_preserves_cli_config_fields() {
    let initial = SavedCredentials {
        user_id: "u1".to_string(),
        user_app_key: "k1".to_string(),
        auth_tokens: None,
        username: None,
        api_base_url: Some("https://api.example.com".to_string()),
        s3_endpoint: Some("https://s3.example.com".to_string()),
        s3_region: Some("us-east-1".to_string()),
        s3_virtual_hosted: Some(true),
    };

    let loaded = save_credentials_to_file("u2", "k2", Some(initial));

    assert_eq!(loaded.user_id, "u2");
    assert_eq!(loaded.user_app_key, "k2");
    assert_eq!(
        loaded.api_base_url.as_deref(),
        Some("https://api.example.com")
    );
    assert_eq!(
        loaded.s3_endpoint.as_deref(),
        Some("https://s3.example.com")
    );
    assert_eq!(loaded.s3_region.as_deref(), Some("us-east-1"));
    assert_eq!(loaded.s3_virtual_hosted, Some(true));
}

#[test]
fn save_credentials_keeps_session_and_starts_fresh_without_file() {
    let existing = creds_with(Some(make_auth_tokens(None)));
    let c = save_credentials_to_file("u9", "k9", Some(existing));
    assert_eq!(c.auth_tokens.as_ref().unwrap().access_token, "test");
    assert_eq!(c.username.as_deref(), Some("alice"));

    let c = save_credentials_to_file("u9", "k9", None);
    assert_eq!(c.user_id, "u9");
    assert_eq!(c.user_app_key, "k9");
    assert!(c.auth_tokens.is_none());
    assert!(c.username.is_none());
    assert!(c.api_base_url.is_none());
    assert!(c.s3_endpoint.is_none());
    assert!(c.s3_region.is_none());
    assert!(c.s3_virtual_hosted.is_none());
}

#[test]
fn defaults() {
    assert_eq!(default_token_type(), "Bearer");
    assert_eq!(default_expires_in(), 900);
    assert_eq!(bucket_name_for_user_id("abc-123"), "pipe-abc-123");
    assert_eq!(bucket_name_for_user_id(""), "pipe-");
}

#[test]
fn refresh_request_only_for_expired_session() {
    let now = Timestamp { secs: 10_000, nanos: 0 };
    let mut tokens = make_auth_tokens(Some(Timestamp { secs: 10_030, nanos: 0 }));
    tokens.refresh_token = "valid-refresh".to_string();
    let creds = creds_with(Some(tokens));
    let req = token_refresh_request(&creds, now).unwrap();
    assert_eq!(req.refresh_token, "valid-refresh");

    let fresh = creds_with(Some(make_auth_tokens(Some(Timestamp { secs: 20_000, nanos: 0 }))));
    assert!(token_refresh_request(&fresh, now).is_none());

    let none = creds_with(None);
    assert!(token_refresh_request(&none, now).is_none());
}

#[test]
fn refresh_updates_tokens_and_keeps_the_rest() {
    let mut tokens = make_auth_tokens(Some(Timestamp { secs: 1, nanos: 0 }));
    tokens.access_token = "old-token".to_string();
    tokens.refresh_token = "valid-refresh".to_string();
    tokens.csrf_token = Some("old-csrf".to_string());
    let mut creds = creds_with(Some(tokens));
    let expires_at = expiry_time(1_700_000_000, 900).unwrap();
    assert_eq!(expires_at, Timestamp { secs: 1_700_000_900, nanos: 0 });
    let resp = RefreshTokenResponse {
        access_token: "new-access-token".to_string(),
        token_type: "Bearer".to_string(),
        expires_in: 900,
        csrf_token: Some("new-csrf".to_string()),
    };
    apply_token_refresh(&mut creds, resp, expires_at);
    let t = creds.auth_tokens.as_ref().unwrap();
    assert_eq!(t.access_token, "new-access-token");
    assert_eq!(t.refresh_token, "valid-refresh");
    assert_eq!(t.expires_in, 900);
    assert_eq!(t.expires_at, Some(expires_at));
    assert_eq!(t.csrf_token.as_deref(), Some("new-csrf"));
    assert_eq!(creds.user_id, "u1");
    assert_eq!(creds.api_base_url.as_deref(), Some("https://api.example.com"));
    assert!(!is_token_expired(t, Timestamp { secs: 1_700_000_000, nanos: 0 }));

    let resp = RefreshTokenResponse {
        access_token: "newer".to_string(),
        token_type: "Bearer".to_string(),
        expires_in: 30,
        csrf_token: None,
    };
    let at = expiry_time(1_700_000_000, 30).unwrap();
    apply_token_refresh(&mut creds, resp, at);
    let t = creds.auth_tokens.as_ref().unwrap();
    assert_eq!(t.csrf_token.as_deref(), Some("new-csrf"));
    assert!(is_token_expired(t, Timestamp { secs: 1_700_000_000, nanos: 0 }));

    let mut empty = creds_with(None);
    let resp = RefreshTokenResponse {
        access_token: "x".to_string(),
        token_type: "Bearer".to_string(),
        expires_in: 900,
        csrf_token: None,
    };
    apply_token_refresh(&mut empty, resp, expires_at);
    assert!(empty.auth_tokens.is_none());
}

#[test]
fn expiry_time_out_of_range() {
    assert_eq!(expiry_time(i64::MAX - 10, 5), Err(InvalidExpiration));
    assert_eq!(expiry_time(0, -1), Ok(Timestamp { secs: -1, nanos: 0 }));
}

#[test]
fn failed_refresh_clears_tokens() {
    let mut creds = creds_with(Some(make_auth_tokens(None)));
    clear_auth_tokens(&mut creds);
    assert!(creds.auth_tokens.is_none());
    assert_eq!(creds.user_id, "u1");
    assert_eq!(creds.s3_region.as_deref(), Some("us-east-1"));
    assert_eq!(auth_headers(&creds, true), Err(NotAuthenticated));
    assert!(token_refresh_request(&creds, Timestamp { secs: 0, nanos: 0 }).is_none());
}

#[test]
fn auth_headers_bearer_and_csrf() {
    let mut tokens = make_auth_tokens(None);
    tokens.access_token = "valid-token".to_string();
    tokens.csrf_token = Some("csrf-abc".to_string());
    let creds = creds_with(Some(tokens));

    let h = auth_headers(&creds, false).unwrap();
    assert_eq!(h, vec![("Authorization".to_string(), "Bearer valid-token".to_string())]);

    let h = auth_headers(&creds, true).unwrap();
    assert_eq!(
        h,
        vec![
            ("Authorization".to_string(), "Bearer valid-token".to_string()),
            ("X-CSRF-Token".to_string(), "csrf-abc".to_string()),
        ]
    );

    let creds = creds_with(Some(make_auth_tokens(None)));
    assert_eq!(auth_headers(&creds, true).unwrap().len(), 1);
}

#[test]
fn expiry_time_range_is_chronos() {
    assert_eq!(expiry_time(MAX_UTC_SECS, 0), Ok(Timestamp { secs: MAX_UTC_SECS, nanos: 0 }));
    assert_eq!(expiry_time(MAX_UTC_SECS, 1), Err(InvalidExpiration));
    assert_eq!(expiry_time(MIN_UTC_SECS, 0), Ok(Timestamp { secs: MIN_UTC_SECS, nanos: 0 }));
    assert_eq!(expiry_time(MIN_UTC_SECS, -1), Err(InvalidExpiration));
    assert_eq!(
        chrono::DateTime::<chrono::Utc>::MAX_UTC.timestamp(),
        MAX_UTC_SECS
    );
    assert_eq!(
        chrono::DateTime::<chrono::Utc>::MIN_UTC.timestamp(),
        MIN_UTC_SECS
    );
}

#[test]
fn small_session_edits() {
    let mut tokens = make_auth_tokens(None);
    tokens.access_token = "tok".to_string();
    let mut creds = creds_with(Some(tokens));
    assert_eq!(session_access_token(&creds).as_deref(), Some("tok"));
    assert!(session_access_token(&creds_with(None)).is_none());

    apply_user_id_override(&mut creds, None);
    assert_eq!(creds.user_id, "u1");
    apply_user_id_override(&mut creds, Some("other".to_string()));
    assert_eq!(creds.user_id, "other");

    save_s3_key_settings(&mut creds, "https://s3.pipe.example", "us-west-1");
    assert_eq!(creds.s3_endpoint.as_deref(), Some("https://s3.pipe.example"));
    assert_eq!(creds.s3_region.as_deref(), Some("us-west-1"));
    assert_eq!(creds.api_base_url.as_deref(), Some("https://api.example.com"));
}
