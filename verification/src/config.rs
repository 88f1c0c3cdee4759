//! The client's local configuration: base URLs given by the user, the saved
//! per-profile defaults, and the `config` subcommands that change them.
use vstd::prelude::*;

use crate::text::{
    chars_of, decimal, lemma_decimal_digits, push_char, push_decimal, push_str, string_of, trim_end,
    trim_range, trim_ws, skip_class_back, CharClass, is_unicode_whitespace, trail_len,
};
use crate::amount::lemma_trim_noop;
use crate::types::{opt_text, ConfigCommands, CredentialsView, SavedCredentials};

verus! {

/// What the client reads of a parsed URL.
#[derive(Debug)]
pub struct UrlParts {
    pub scheme: String,
    pub username: String,
    pub password: Option<String>,
    pub host: Option<String>,
    pub port: Option<u16>,
    pub path: String,
    pub query: Option<String>,
    pub fragment: Option<String>,
}

/// The same, as text.
pub struct UrlPartsView {
    pub scheme: Seq<char>,
    pub username: Seq<char>,
    pub password: Option<Seq<char>>,
    pub host: Option<Seq<char>>,
    pub port: Option<u16>,
    pub path: Seq<char>,
    pub query: Option<Seq<char>>,
    pub fragment: Option<Seq<char>>,
}

impl View for UrlParts {
    type V = UrlPartsView;

    open spec fn view(&self) -> UrlPartsView {
        UrlPartsView {
            scheme: self.scheme@,
            username: self.username@,
            password: opt_text(self.password),
            host: opt_text(self.host),
            port: self.port,
            path: self.path@,
            query: opt_text(self.query),
            fragment: opt_text(self.fragment),
        }
    }
}

/// The parts of the absolute URL that `url::Url::parse` reads from `input`, or `None`
/// where it refuses the text.
pub uninterp spec fn url_parse(input: Seq<char>) -> Option<UrlPartsView>;

/// The parts of the URL that the text `normalized_url` writes for `u` reads back as: the
/// same URL with its host in lower case, a default port dropped and the path `/`.
pub open spec fn reparsed_base_url(u: UrlPartsView) -> UrlPartsView {
    UrlPartsView {
        host: Some(ascii_lower_text(u.host->0)),
        port: kept_port(u.scheme, u.port),
        path: "/"@,
        ..u
    }
}

/// The host of `u` holds no whitespace.
pub open spec fn host_without_whitespace(u: UrlPartsView) -> bool {
    forall|i: int| 0 <= i < u.host->0.len() ==> !is_unicode_whitespace(#[trigger] u.host->0[i])
}

/// Parses `input` with `url::Url::parse` (which reqwest re-exports as `reqwest::Url`) and
/// reads the scheme, user name, password, host, port, path, query and fragment of the
/// result. Claimed: the outcome is `url_parse` of the text (what `url_parse` is on given
/// text is left to the url crate); and for an `http`/`https` URL with a host and nothing
/// after it, two facts the url crate keeps: its host holds no whitespace (hosts of these
/// schemes go through IDNA with the URL deny list, which refuses whitespace), and the text
/// `scheme://host[:port]` parses back as the same URL with the path `/` (a URL parses back
/// from its own serialization, `Url::check_invariants`, and an empty path of these schemes
/// reads as `/`).
#[verifier::external_body]
fn parse_url_parts(input: &str) -> (r: Option<UrlParts>)
    ensures
        r matches Some(p) ==> url_parse(input@) == Some(p@),
        r is None ==> url_parse(input@) is None,
        r is Some && normalized_url(Some(r->0@)) is Ok ==> host_without_whitespace(r->0@),
        r is Some && normalized_url(Some(r->0@)) is Ok ==> url_parse(
            normalized_url(Some(r->0@))->Ok_0,
        ) == Some(reparsed_base_url(r->0@)),
{
    reqwest::Url::parse(input).ok().map(|u| UrlParts {
        scheme: u.scheme().to_string(),
        username: u.username().to_string(),
        password: u.password().map(|p| p.to_string()),
        host: u.host_str().map(|h| h.to_string()),
        port: u.port(),
        path: u.path().to_string(),
        query: u.query().map(|q| q.to_string()),
        fragment: u.fragment().map(|f| f.to_string()),
    })
}

/// Why a base URL given by the user was refused.
#[derive(Debug, Clone, Copy, PartialEq, Eq, Structural)]
pub enum UrlErrorKind {
    Empty,
    InvalidUrl,
    BadScheme,
    HasCredentials,
    HasQueryOrFragment,
    HasPath,
    MissingHost,
}

/// A refused base URL, with the label of the setting it was given for.
#[derive(Debug)]
pub struct UrlError {
    pub kind: UrlErrorKind,
    pub label: String,
}

/// ASCII lower case of one character (`char::to_ascii_lowercase`).
pub open spec fn ascii_lower(c: char) -> char {
    if 'A' <= c && c <= 'Z' {
        ((c as u32) + 32) as char
    } else {
        c
    }
}

pub open spec fn ascii_lower_text(s: Seq<char>) -> Seq<char> {
    Seq::new(s.len(), |i: int| ascii_lower(s[i]))
}

/// The port that stays in a normalized URL: none where it is the scheme's default.
pub open spec fn kept_port(scheme: Seq<char>, port: Option<u16>) -> Option<u16> {
    match port {
        Some(p) => if (scheme == "http"@ && p == 80) || (scheme == "https"@ && p == 443) {
            None
        } else {
            Some(p)
        },
        None => None,
    }
}

/// What a parsed URL normalizes to: `scheme://host[:port]` with the host in lower case,
/// or why it is refused as a base URL.
pub open spec fn normalized_url(parsed: Option<UrlPartsView>) -> Result<Seq<char>, UrlErrorKind> {
    match parsed {
        None => Err(UrlErrorKind::InvalidUrl),
        Some(u) => {
            if u.scheme != "http"@ && u.scheme != "https"@ {
                Err(UrlErrorKind::BadScheme)
            } else if u.username.len() > 0 || u.password is Some {
                Err(UrlErrorKind::HasCredentials)
            } else if u.query is Some || u.fragment is Some {
                Err(UrlErrorKind::HasQueryOrFragment)
            } else if u.path != "/"@ && u.path.len() > 0 {
                Err(UrlErrorKind::HasPath)
            } else {
                match u.host {
                    None => Err(UrlErrorKind::MissingHost),
                    Some(h) => {
                        let base = u.scheme + "://"@ + ascii_lower_text(h);
                        match kept_port(u.scheme, u.port) {
                            Some(p) => Ok(base + seq![':'] + decimal(p as nat)),
                            None => Ok(base),
                        }
                    },
                }
            }
        },
    }
}

/// What normalizing the text `raw` as a base URL gives.
pub open spec fn normalized_url_text(raw: Seq<char>) -> Result<Seq<char>, UrlErrorKind> {
    let t = trim_ws(raw);
    if t.len() == 0 {
        Err(UrlErrorKind::Empty)
    } else {
        normalized_url(url_parse(t))
    }
}

impl UrlError {
    /// The message shown for this error.
    pub fn message(&self) -> (m: String)
        ensures
            m@ == self.label@ + match self.kind {
                UrlErrorKind::Empty => " must not be empty"@,
                UrlErrorKind::InvalidUrl => " must be a valid URL (expected http/https)"@,
                UrlErrorKind::BadScheme => " scheme must be http or https"@,
                UrlErrorKind::HasCredentials => " must not include username/password"@,
                UrlErrorKind::HasQueryOrFragment => " must not include query/fragment"@,
                UrlErrorKind::HasPath => " must not include a path"@,
                UrlErrorKind::MissingHost => " must include a host"@,
            },
    {
        let mut m = String::from_str(self.label.as_str());
        let tail = match self.kind {
            UrlErrorKind::Empty => " must not be empty",
            UrlErrorKind::InvalidUrl => " must be a valid URL (expected http/https)",
            UrlErrorKind::BadScheme => " scheme must be http or https",
            UrlErrorKind::HasCredentials => " must not include username/password",
            UrlErrorKind::HasQueryOrFragment => " must not include query/fragment",
            UrlErrorKind::HasPath => " must not include a path",
            UrlErrorKind::MissingHost => " must include a host",
        };
        push_str(&mut m, tail);
        m
    }
}

/// Whether two texts are equal.
pub fn text_eq(a: &str, b: &str) -> (r: bool)
    ensures
        r == (a@ == b@),
{
    let va = chars_of(a);
    let vb = chars_of(b);
    if va.len() != vb.len() {
        assert(va@.len() != vb@.len());
        return false;
    }
    let mut i: usize = 0;
    while i < va.len()
        invariant
            va@ == a@,
            vb@ == b@,
            va.len() == vb.len(),
            i <= va.len(),
            forall|j: int| 0 <= j < i ==> va@[j] == vb@[j],
        decreases va.len() - i,
    {
        if va[i] != vb[i] {
            assert(va@[i as int] != vb@[i as int]);
            return false;
        }
        i += 1;
    }
    assert(va@ =~= vb@);
    true
}

/// `s` in ASCII lower case (`str::to_ascii_lowercase`).
pub fn to_ascii_lowercase(s: &str) -> (r: String)
    ensures
        r@ == ascii_lower_text(s@),
{
    let v = chars_of(s);
    let mut out = String::new();
    let mut i: usize = 0;
    while i < v.len()
        invariant
            i <= v.len(),
            out@ == ascii_lower_text(v@.take(i as int)),
        decreases v.len() - i,
    {
        let c = v[i];
        let l = if 'A' <= c && c <= 'Z' {
            let b = (c as u32) as u8;
            ((b + 32) as char)
        } else {
            c
        };
        push_char(&mut out, l);
        i += 1;
        assert(out@ =~= ascii_lower_text(v@.take(i as int)));
    }
    assert(v@.take(v.len() as int) =~= v@);
    out
}

/// Normalizes an already parsed URL to `scheme://host[:port]`: only `http` and `https`
/// without credentials, query, fragment or path are accepted; the host is put in lower
/// case and a default port (80 for http, 443 for https) is dropped.
pub fn normalize_parsed_url(parsed: Option<UrlParts>, label: &str) -> (r: Result<String, UrlError>)
    ensures
        match normalized_url(opt_parts_view(parsed)) {
            Ok(s) => r matches Ok(x) && x@ == s,
            Err(k) => r matches Err(e) && e.kind == k && e.label@ == label@,
        },
{
    let u = match parsed {
        None => {
            return Err(UrlError { kind: UrlErrorKind::InvalidUrl, label: String::from_str(label) });
        },
        Some(u) => u,
    };
    let is_http = text_eq(u.scheme.as_str(), "http");
    let is_https = text_eq(u.scheme.as_str(), "https");
    if !is_http && !is_https {
        return Err(UrlError { kind: UrlErrorKind::BadScheme, label: String::from_str(label) });
    }
    if u.username.as_str().unicode_len() > 0 || u.password.is_some() {
        return Err(
            UrlError { kind: UrlErrorKind::HasCredentials, label: String::from_str(label) },
        );
    }
    if u.query.is_some() || u.fragment.is_some() {
        return Err(
            UrlError { kind: UrlErrorKind::HasQueryOrFragment, label: String::from_str(label) },
        );
    }
    if !text_eq(u.path.as_str(), "/") && u.path.as_str().unicode_len() > 0 {
        return Err(UrlError { kind: UrlErrorKind::HasPath, label: String::from_str(label) });
    }
    let host = match &u.host {
        None => {
            return Err(
                UrlError { kind: UrlErrorKind::MissingHost, label: String::from_str(label) },
            );
        },
        Some(h) => to_ascii_lowercase(h.as_str()),
    };
    let port = match u.port {
        Some(p) => if (is_http && p == 80) || (is_https && p == 443) {
            None
        } else {
            Some(p)
        },
        None => None,
    };
    let mut out = String::from_str(u.scheme.as_str());
    push_str(&mut out, "://");
    push_str(&mut out, host.as_str());
    match port {
        Some(p) => {
            push_char(&mut out, ':');
            push_decimal(&mut out, p as u64);
        },
        None => {},
    }
    Ok(out)
}

pub open spec fn opt_parts_view(o: Option<UrlParts>) -> Option<UrlPartsView> {
    match o {
        Some(p) => Some(p@),
        None => None,
    }
}

/// Checks and normalizes a base URL typed by the user (for the API or the S3 endpoint):
/// surrounding whitespace is ignored, then the text must parse as an `http` or `https` URL
/// with a host and nothing after it; the result is `scheme://host[:port]`.
pub fn normalize_http_url_without_path(raw: &str, label: &str) -> (r: Result<String, UrlError>)
    ensures
        match normalized_url_text(raw@) {
            Ok(s) => r matches Ok(x) && x@ == s,
            Err(k) => r matches Err(e) && e.kind == k && e.label@ == label@,
        },
        r matches Ok(s) ==> normalized_url_text(s@) == Ok::<Seq<char>, UrlErrorKind>(s@),
{
    let v = chars_of(raw);
    let (a, b) = trim_range(&v, 0, v.len(), CharClass::Whitespace);
    proof {
        assert(v@.subrange(0, v@.len() as int) =~= v@);
    }
    if a == b {
        return Err(UrlError { kind: UrlErrorKind::Empty, label: String::from_str(label) });
    }
    let trimmed = string_of(&v, a, b);
    let parsed = parse_url_parts(trimmed.as_str());
    proof {
        if parsed is Some && normalized_url(Some(parsed->0@)) is Ok {
            lemma_normalized_url_reads_back(parsed->0@, normalized_url(Some(parsed->0@))->Ok_0);
        }
    }
    normalize_parsed_url(parsed, label)
}

proof fn lemma_ascii_lower_idempotent(s: Seq<char>)
    ensures
        ascii_lower_text(ascii_lower_text(s)) == ascii_lower_text(s),
{
    assert(ascii_lower_text(ascii_lower_text(s)) =~= ascii_lower_text(s));
}

/// A normalized URL text, parsed back as `reparsed_base_url` says, normalizes to itself.
proof fn lemma_normalized_url_reads_back(u: UrlPartsView, s: Seq<char>)
    requires
        normalized_url(Some(u)) == Ok::<Seq<char>, UrlErrorKind>(s),
        host_without_whitespace(u),
        url_parse(s) == Some(reparsed_base_url(u)),
    ensures
        normalized_url_text(s) == Ok::<Seq<char>, UrlErrorKind>(s),
{
    let h = u.host->0;
    let lh = ascii_lower_text(h);
    lemma_ascii_lower_idempotent(h);
    let q = reparsed_base_url(u);
    reveal_strlit("http");
    reveal_strlit("https");
    reveal_strlit("://");
    reveal_strlit("/");
    assert(normalized_url(Some(q)) == Ok::<Seq<char>, UrlErrorKind>(s));
    let base = u.scheme + "://"@ + lh;
    assert(s[0] == u.scheme[0]);
    assert(!is_unicode_whitespace(s[0]));
    match kept_port(u.scheme, u.port) {
        Some(p) => {
            lemma_decimal_digits(p as nat);
            let d = decimal(p as nat);
            assert(s == base + seq![':'] + d);
            assert(s.last() == d.last());
            assert('0' <= d.last() && d.last() <= '9');
        },
        None => {
            assert(s == base);
            if lh.len() > 0 {
                assert(s.last() == lh.last());
                assert(lh.last() == ascii_lower(h[h.len() - 1]));
                assert(!is_unicode_whitespace(h[h.len() - 1]));
            } else {
                assert(s.last() == '/');
            }
        },
    }
    assert(!is_unicode_whitespace(s.last()));
    lemma_trim_noop(s, CharClass::Whitespace);
}

/// Why a `config` subcommand was refused.
#[derive(Debug)]
pub enum ConfigError {
    /// The URL given was refused.
    Url(UrlError),
    /// The S3 region given was empty once trimmed.
    EmptyRegion,
}

impl ConfigError {
    /// The message shown for this error.
    pub fn message(&self) -> (m: String)
        ensures
            self matches ConfigError::Url(e) ==> m@ == e.label@ + match e.kind {
                UrlErrorKind::Empty => " must not be empty"@,
                UrlErrorKind::InvalidUrl => " must be a valid URL (expected http/https)"@,
                UrlErrorKind::BadScheme => " scheme must be http or https"@,
                UrlErrorKind::HasCredentials => " must not include username/password"@,
                UrlErrorKind::HasQueryOrFragment => " must not include query/fragment"@,
                UrlErrorKind::HasPath => " must not include a path"@,
                UrlErrorKind::MissingHost => " must include a host"@,
            },
            self is EmptyRegion ==> m@ == "S3 region must not be empty"@,
    {
        match self {
            ConfigError::Url(e) => e.message(),
            ConfigError::EmptyRegion => String::from_str("S3 region must not be empty"),
        }
    }
}

/// Why a `config` subcommand is refused.
pub enum ConfigErrorKind {
    Url(UrlErrorKind),
    EmptyRegion,
}

pub open spec fn config_error_kind(e: ConfigError) -> ConfigErrorKind {
    match e {
        ConfigError::Url(u) => ConfigErrorKind::Url(u.kind),
        ConfigError::EmptyRegion => ConfigErrorKind::EmptyRegion,
    }
}

/// `creds` with only the setting named by `cmd` changed: set (`api_base_url` and
/// `s3_endpoint` to the normalized URL, `s3_region` to the trimmed region,
/// `s3_virtual_hosted` to the flag) or cleared. `Show` changes nothing.
pub open spec fn config_after(creds: CredentialsView, cmd: ConfigCommands) -> Result<
    CredentialsView,
    ConfigErrorKind,
> {
    match cmd {
        ConfigCommands::Show => Ok(creds),
        ConfigCommands::SetApi { url } => match normalized_url_text(url@) {
            Ok(n) => Ok(CredentialsView { api_base_url: Some(n), ..creds }),
            Err(k) => Err(ConfigErrorKind::Url(k)),
        },
        ConfigCommands::ClearApi => Ok(CredentialsView { api_base_url: None, ..creds }),
        ConfigCommands::SetS3Endpoint { endpoint } => match normalized_url_text(endpoint@) {
            Ok(n) => Ok(CredentialsView { s3_endpoint: Some(n), ..creds }),
            Err(k) => Err(ConfigErrorKind::Url(k)),
        },
        ConfigCommands::ClearS3Endpoint => Ok(CredentialsView { s3_endpoint: None, ..creds }),
        ConfigCommands::SetS3Region { region } => if trim_ws(region@).len() == 0 {
            Err(ConfigErrorKind::EmptyRegion)
        } else {
            Ok(CredentialsView { s3_region: Some(trim_ws(region@)), ..creds })
        },
        ConfigCommands::ClearS3Region => Ok(CredentialsView { s3_region: None, ..creds }),
        ConfigCommands::SetS3VirtualHosted { enabled } => Ok(
            CredentialsView { s3_virtual_hosted: Some(enabled), ..creds },
        ),
        ConfigCommands::ClearS3VirtualHosted => Ok(
            CredentialsView { s3_virtual_hosted: None, ..creds },
        ),
    }
}

/// Applies a `config` subcommand to the saved credentials (`Show` leaves them as they are).
pub fn apply_config_command(creds: SavedCredentials, cmd: &ConfigCommands) -> (r: Result<
    SavedCredentials,
    ConfigError,
>)
    ensures
        match config_after(creds@, *cmd) {
            Ok(c) => r matches Ok(x) && x@ == c,
            Err(k) => r matches Err(e) && config_error_kind(e) == k,
        },
        *cmd matches ConfigCommands::SetS3VirtualHosted { enabled } ==> (r matches Ok(x)
            && x.s3_virtual_hosted == Some(enabled)),
{
    let mut creds = creds;
    match cmd {
        ConfigCommands::Show => {},
        ConfigCommands::SetApi { url } => {
            match normalize_http_url_without_path(url.as_str(), "API base URL") {
                Ok(n) => {
                    creds.api_base_url = Some(n);
                },
                Err(e) => {
                    return Err(ConfigError::Url(e));
                },
            }
        },
        ConfigCommands::ClearApi => {
            creds.api_base_url = None;
        },
        ConfigCommands::SetS3Endpoint { endpoint } => {
            match normalize_http_url_without_path(endpoint.as_str(), "S3 endpoint") {
                Ok(n) => {
                    creds.s3_endpoint = Some(n);
                },
                Err(e) => {
                    return Err(ConfigError::Url(e));
                },
            }
        },
        ConfigCommands::ClearS3Endpoint => {
            creds.s3_endpoint = None;
        },
        ConfigCommands::SetS3Region { region } => {
            let v = chars_of(region.as_str());
            let (a, b) = trim_range(&v, 0, v.len(), CharClass::Whitespace);
            proof {
                assert(v@.subrange(0, v@.len() as int) =~= v@);
            }
            if a == b {
                return Err(ConfigError::EmptyRegion);
            }
            creds.s3_region = Some(string_of(&v, a, b));
        },
        ConfigCommands::ClearS3Region => {
            creds.s3_region = None;
        },
        ConfigCommands::SetS3VirtualHosted { enabled } => {
            creds.s3_virtual_hosted = Some(*enabled);
        },
        ConfigCommands::ClearS3VirtualHosted => {
            creds.s3_virtual_hosted = None;
        },
    }
    Ok(creds)
}

/// The API base URL a run uses: the `--api` value without trailing `/`; but when `--api`
/// was not given, the saved default (trimmed, without trailing `/`) where there is a
/// non-empty one.
pub open spec fn effective_base_url(
    api: Seq<char>,
    api_is_default: bool,
    saved: Option<Seq<char>>,
) -> Seq<char> {
    match saved {
        Some(s) if api_is_default && trim_end(trim_ws(s), CharClass::Exactly('/')).len()
            > 0 => trim_end(trim_ws(s), CharClass::Exactly('/')),
        _ => trim_end(api, CharClass::Exactly('/')),
    }
}

/// The API base URL for this run (see `effective_base_url`).
pub fn resolve_base_url(api: &str, api_is_default: bool, saved: Option<&str>) -> (r: String)
    ensures
        r@ == effective_base_url(
            api@,
            api_is_default,
            match saved {
                Some(s) => Some(s@),
                None => None,
            },
        ),
{
    if api_is_default {
        if let Some(s) = saved {
            let v = chars_of(s);
            let (a, b) = trim_range(&v, 0, v.len(), CharClass::Whitespace);
            let e = skip_class_back(&v, a, b, CharClass::Exactly('/'));
            proof {
                assert(v@.subrange(0, v@.len() as int) =~= v@);
                let t = v@.subrange(a as int, b as int);
                assert(trim_end(t, CharClass::Exactly('/')) =~= v@.subrange(a as int, e as int));
            }
            if a < e {
                return string_of(&v, a, e);
            }
        }
    }
    let v = chars_of(api);
    let e = skip_class_back(&v, 0, v.len(), CharClass::Exactly('/'));
    proof {
        assert(v@.subrange(0, v@.len() as int) =~= v@);
        assert(trim_end(v@, CharClass::Exactly('/')) =~= v@.subrange(0, e as int));
    }
    string_of(&v, 0, e)
}

/// No `config` subcommand touches the identity or the session: the user id, app key,
/// session tokens and user name are kept by every accepted subcommand.
pub proof fn law_config_keeps_identity_and_session(creds: CredentialsView, cmd: ConfigCommands)
    ensures
        config_after(creds, cmd) matches Ok(n) ==> {
            &&& n.user_id == creds.user_id
            &&& n.user_app_key == creds.user_app_key
            &&& n.auth_tokens == creds.auth_tokens
            &&& n.username == creds.username
        },
{
}

/// Clearing a setting after setting it leaves the setting unset and everything else as
/// it was before.
pub proof fn law_config_set_then_clear(creds: CredentialsView, url: String, region: String, enabled: bool)
    ensures
        config_after(creds, ConfigCommands::SetApi { url }) matches Ok(n) ==> config_after(
            n,
            ConfigCommands::ClearApi,
        ) == Ok::<CredentialsView, ConfigErrorKind>(CredentialsView { api_base_url: None, ..creds }),
        config_after(creds, ConfigCommands::SetS3Endpoint { endpoint: url }) matches Ok(n)
            ==> config_after(n, ConfigCommands::ClearS3Endpoint) == Ok::<
            CredentialsView,
            ConfigErrorKind,
        >(CredentialsView { s3_endpoint: None, ..creds }),
        config_after(creds, ConfigCommands::SetS3Region { region }) matches Ok(n) ==> config_after(
            n,
            ConfigCommands::ClearS3Region,
        ) == Ok::<CredentialsView, ConfigErrorKind>(CredentialsView { s3_region: None, ..creds }),
        config_after(
            config_after(creds, ConfigCommands::SetS3VirtualHosted { enabled })->Ok_0,
            ConfigCommands::ClearS3VirtualHosted,
        ) == Ok::<CredentialsView, ConfigErrorKind>(
            CredentialsView { s3_virtual_hosted: None, ..creds },
        ),
{
}

/// The saved default API base URL is used for a run without `--api`: a clean one
/// (not empty, no whitespace around it, no trailing `/`) exactly as saved. A `--api` given
/// on the command line always wins over it.
pub proof fn law_saved_api_used_without_api(api: Seq<char>, saved: Seq<char>)
    requires
        saved.len() > 0,
        !is_unicode_whitespace(saved[0]),
        !is_unicode_whitespace(saved.last()),
        saved.last() != '/',
    ensures
        effective_base_url(api, true, Some(saved)) == saved,
        effective_base_url(api, false, Some(saved)) == trim_end(api, CharClass::Exactly('/')),
{
    lemma_trim_noop(saved, CharClass::Whitespace);
    assert(trail_len(saved, CharClass::Exactly('/')) == 0);
    assert(saved.take(saved.len() as int) =~= saved);
}

/// A setting that was set reads back as what the user gave: the virtual-hosted-style flag
/// exactly as given (for both values), the region trimmed, and the URLs normalized; each
/// set is accepted exactly when its value is.
pub proof fn law_config_set_reads_back(
    creds: CredentialsView,
    url: String,
    region: String,
    enabled: bool,
)
    ensures
        config_after(creds, ConfigCommands::SetS3VirtualHosted { enabled }) is Ok,
        config_after(creds, ConfigCommands::SetS3VirtualHosted { enabled })->Ok_0.s3_virtual_hosted
            == Some(enabled),
        config_after(creds, ConfigCommands::SetS3Region { region }) is Ok <==> trim_ws(region@).len()
            > 0,
        config_after(creds, ConfigCommands::SetS3Region { region }) matches Ok(n) ==> n.s3_region
            == Some(trim_ws(region@)),
        config_after(creds, ConfigCommands::SetApi { url }) is Ok <==> normalized_url_text(
            url@,
        ) is Ok,
        config_after(creds, ConfigCommands::SetApi { url }) matches Ok(n) ==> n.api_base_url
            == Some(normalized_url_text(url@)->Ok_0),
        config_after(creds, ConfigCommands::SetS3Endpoint { endpoint: url }) matches Ok(n)
            ==> n.s3_endpoint == Some(normalized_url_text(url@)->Ok_0),
{
}

} // verus!
