use pipe_cli::config::{
    apply_config_command, normalize_http_url_without_path, normalize_parsed_url,
    resolve_base_url, to_ascii_lowercase, ConfigError, UrlErrorKind, UrlParts,
};
use pipe_cli::types::{ConfigCommands, SavedCredentials};

fn creds() -> SavedCredentials {
    SavedCredentials {
        user_id: "u1".to_string(),
        user_app_key: "k1".to_string(),
        auth_tokens: None,
        username: None,
        api_base_url: Some("https://old.example.com".to_string()),
        s3_endpoint: Some("https://s3.old.example.com".to_string()),
        s3_region: Some("eu-west-1".to_string()),
        s3_virtual_hosted: Some(false),
    }
}

fn kind_of(raw: &str) -> UrlErrorKind {
    normalize_http_url_without_path(raw, "API").unwrap_err().kind
}

#[test]
fn normalize_http_url_without_path_rejects_paths() {
    assert!(normalize_http_url_without_path("https://example.com/path", "API").is_err());
}

#[test]
fn normalize_http_url_without_path_strips_default_ports() {
    assert_eq!(
        normalize_http_url_without_path("https://Example.com:443", "API").unwrap(),
        "https://example.com"
    );
    assert_eq!(
        normalize_http_url_without_path("http://Example.com:80", "API").unwrap(),
        "http://example.com"
    );
}

#[test]
fn normalize_keeps_other_ports_and_trims() {
    assert_eq!(
        normalize_http_url_without_path("  http://HOST.example.com:8080/  ", "API").unwrap(),
        "http://host.example.com:8080"
    );
    assert_eq!(
        normalize_http_url_without_path("https://example.com:80", "API").unwrap(),
        "https://example.com:80"
    );
}

#[test]
fn each_url_error_kind() {
    assert_eq!(kind_of("   "), UrlErrorKind::Empty);
    assert_eq!(kind_of("not a url"), UrlErrorKind::InvalidUrl);
    assert_eq!(kind_of("ftp://example.com"), UrlErrorKind::BadScheme);
    assert_eq!(kind_of("https://user:pw@example.com"), UrlErrorKind::HasCredentials);
    assert_eq!(kind_of("https://user@example.com"), UrlErrorKind::HasCredentials);
    assert_eq!(kind_of("https://example.com?x=1"), UrlErrorKind::HasQueryOrFragment);
    assert_eq!(kind_of("https://example.com#top"), UrlErrorKind::HasQueryOrFragment);
    assert_eq!(kind_of("https://example.com/a/b"), UrlErrorKind::HasPath);

    let parts = UrlParts {
        scheme: "http".to_string(),
        username: String::new(),
        password: None,
        host: None,
        port: None,
        path: "/".to_string(),
        query: None,
        fragment: None,
    };
    let e = normalize_parsed_url(Some(parts), "S3 endpoint").unwrap_err();
    assert_eq!(e.kind, UrlErrorKind::MissingHost);
    assert_eq!(e.message(), "S3 endpoint must include a host");

    let e = normalize_http_url_without_path("", "API base URL").unwrap_err();
    assert_eq!(e.message(), "API base URL must not be empty");
    let e = normalize_http_url_without_path("ws://x", "API base URL").unwrap_err();
    assert_eq!(e.message(), "API base URL scheme must be http or https");
}

#[test]
fn parsed_url_normalization() {
    let parts = UrlParts {
        scheme: "https".to_string(),
        username: String::new(),
        password: None,
        host: Some("MiXeD.Example".to_string()),
        port: Some(8443),
        path: String::new(),
        query: None,
        fragment: None,
    };
    assert_eq!(normalize_parsed_url(Some(parts), "API").unwrap(), "https://mixed.example:8443");
    assert_eq!(normalize_parsed_url(None, "API").unwrap_err().kind, UrlErrorKind::InvalidUrl);
    assert_eq!(to_ascii_lowercase("AbC-é-Z"), "abc-é-z");
}

#[test]
fn config_set_and_clear_change_only_their_setting() {
    let c = apply_config_command(
        creds(),
        &ConfigCommands::SetApi { url: "HTTPS://API.Example.com:443/".to_string() },
    )
    .unwrap();
    assert_eq!(c.api_base_url.as_deref(), Some("https://api.example.com"));
    assert_eq!(c.s3_endpoint.as_deref(), Some("https://s3.old.example.com"));

    let c = apply_config_command(c, &ConfigCommands::ClearApi).unwrap();
    assert!(c.api_base_url.is_none());
    assert_eq!(c.s3_region.as_deref(), Some("eu-west-1"));

    let c = apply_config_command(
        c,
        &ConfigCommands::SetS3Endpoint { endpoint: "http://S3.local:9000".to_string() },
    )
    .unwrap();
    assert_eq!(c.s3_endpoint.as_deref(), Some("http://s3.local:9000"));

    let c = apply_config_command(c, &ConfigCommands::ClearS3Endpoint).unwrap();
    assert!(c.s3_endpoint.is_none());

    let c = apply_config_command(
        c,
        &ConfigCommands::SetS3Region { region: "  us-east-2 ".to_string() },
    )
    .unwrap();
    assert_eq!(c.s3_region.as_deref(), Some("us-east-2"));

    let c = apply_config_command(c, &ConfigCommands::ClearS3Region).unwrap();
    assert!(c.s3_region.is_none());

    let c = apply_config_command(c, &ConfigCommands::SetS3VirtualHosted { enabled: true }).unwrap();
    assert_eq!(c.s3_virtual_hosted, Some(true));

    let c = apply_config_command(c, &ConfigCommands::ClearS3VirtualHosted).unwrap();
    assert!(c.s3_virtual_hosted.is_none());

    let c = apply_config_command(c, &ConfigCommands::Show).unwrap();
    assert_eq!(c.user_id, "u1");
    assert_eq!(c.user_app_key, "k1");
}

#[test]
fn config_errors() {
    match apply_config_command(creds(), &ConfigCommands::SetS3Region { region: " \t".to_string() }) {
        Err(e @ ConfigError::EmptyRegion) => assert_eq!(e.message(), "S3 region must not be empty"),
        other => panic!("unexpected: {other:?}"),
    }
    match apply_config_command(creds(), &ConfigCommands::SetApi { url: "https://x.io/p".to_string() }) {
        Err(e @ ConfigError::Url(_)) => assert_eq!(e.message(), "API base URL must not include a path"),
        other => panic!("unexpected: {other:?}"),
    }
    match apply_config_command(
        creds(),
        &ConfigCommands::SetS3Endpoint { endpoint: "s3://bucket".to_string() },
    ) {
        Err(e @ ConfigError::Url(_)) => assert_eq!(e.message(), "S3 endpoint scheme must be http or https"),
        other => panic!("unexpected: {other:?}"),
    }
}

#[test]
fn base_url_for_a_run() {
    let default_api = "https://us-west-01-firestarter.pipenetwork.com";
    assert_eq!(resolve_base_url("https://a.example.com//", false, Some("https://saved")), "https://a.example.com");
    assert_eq!(resolve_base_url(default_api, true, Some("  https://saved.example.com/ ")), "https://saved.example.com");
    assert_eq!(resolve_base_url(default_api, true, Some(" / ")), default_api);
    assert_eq!(resolve_base_url(default_api, true, None), default_api);
    assert_eq!(resolve_base_url("///", false, None), "");
}

#[test]
fn normalizing_a_normalized_url_gives_it_back() {
    for raw in [
        "https://Example.com:443",
        "  http://HOST.example.com:8080/  ",
        "https://example.com:80",
        "http://127.0.0.1:9",
        "https://[::1]:8443/",
    ] {
        let s = normalize_http_url_without_path(raw, "API").unwrap();
        assert_eq!(normalize_http_url_without_path(&s, "API").unwrap(), s);
    }
}
