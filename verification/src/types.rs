//! The data the client keeps and exchanges with the Pipe Network API.
use vstd::prelude::*;

verus! {

/// A point in time: whole seconds since the UNIX epoch (UTC) and nanoseconds past them.
/// Leap seconds show as `nanos` of one second or more, so `nanos < 2_000_000_000`.
#[derive(Debug, Clone, Copy, PartialEq, Eq, Structural)]
pub struct Timestamp {
    pub secs: i64,
    pub nanos: u32,
}

/// `a` is no later than `b`.
pub open spec fn time_le(a: Timestamp, b: Timestamp) -> bool {
    a.secs < b.secs || (a.secs == b.secs && a.nanos <= b.nanos)
}

/// The JWT session tokens the server hands out.
#[derive(Debug)]
pub struct AuthTokens {
    pub access_token: String,
    pub refresh_token: String,
    pub token_type: String,
    pub expires_in: i64,
    pub expires_at: Option<Timestamp>,
    pub csrf_token: Option<String>,
}

/// Body of a token refresh request.
#[derive(Debug)]
pub struct RefreshTokenRequest {
    pub refresh_token: String,
}

/// Body of a token refresh response.
#[derive(Debug)]
pub struct RefreshTokenResponse {
    pub access_token: String,
    pub token_type: String,
    pub expires_in: i64,
    pub csrf_token: Option<String>,
}

/// What the client keeps in its config file: the identity, the session tokens and the
/// per-profile defaults.
#[derive(Debug)]
pub struct SavedCredentials {
    pub user_id: String,
    pub user_app_key: String,
    pub auth_tokens: Option<AuthTokens>,
    pub username: Option<String>,
    /// Optional per-profile default API base URL (used when `--api` is not explicitly set).
    pub api_base_url: Option<String>,
    /// Optional default S3 endpoint override (for presigning and AWS CLI hints).
    pub s3_endpoint: Option<String>,
    /// Optional default S3 region override (for presigning).
    pub s3_region: Option<String>,
    /// Optional default for presigning style (true = virtual-hosted-style, false = path-style).
    pub s3_virtual_hosted: Option<bool>,
}

/// The text of an optional string.
pub open spec fn opt_text(o: Option<String>) -> Option<Seq<char>> {
    match o {
        Some(s) => Some(s@),
        None => None,
    }
}

/// Session tokens as text.
pub struct AuthTokensView {
    pub access_token: Seq<char>,
    pub refresh_token: Seq<char>,
    pub token_type: Seq<char>,
    pub expires_in: i64,
    pub expires_at: Option<Timestamp>,
    pub csrf_token: Option<Seq<char>>,
}

impl View for AuthTokens {
    type V = AuthTokensView;

    open spec fn view(&self) -> AuthTokensView {
        AuthTokensView {
            access_token: self.access_token@,
            refresh_token: self.refresh_token@,
            token_type: self.token_type@,
            expires_in: self.expires_in,
            expires_at: self.expires_at,
            csrf_token: opt_text(self.csrf_token),
        }
    }
}

pub open spec fn opt_tokens_view(o: Option<AuthTokens>) -> Option<AuthTokensView> {
    match o {
        Some(t) => Some(t@),
        None => None,
    }
}

/// Saved credentials as text.
pub struct CredentialsView {
    pub user_id: Seq<char>,
    pub user_app_key: Seq<char>,
    pub auth_tokens: Option<AuthTokensView>,
    pub username: Option<Seq<char>>,
    pub api_base_url: Option<Seq<char>>,
    pub s3_endpoint: Option<Seq<char>>,
    pub s3_region: Option<Seq<char>>,
    pub s3_virtual_hosted: Option<bool>,
}

impl View for SavedCredentials {
    type V = CredentialsView;

    open spec fn view(&self) -> CredentialsView {
        CredentialsView {
            user_id: self.user_id@,
            user_app_key: self.user_app_key@,
            auth_tokens: opt_tokens_view(self.auth_tokens),
            username: opt_text(self.username),
            api_base_url: opt_text(self.api_base_url),
            s3_endpoint: opt_text(self.s3_endpoint),
            s3_region: opt_text(self.s3_region),
            s3_virtual_hosted: self.s3_virtual_hosted,
        }
    }
}

/// The command line: global options and the command to run.
#[derive(Debug)]
pub struct Cli {
    pub api: String,
    pub config: Option<String>,
    pub command: Commands,
}

/// The commands of the client.
#[derive(Debug)]
#[allow(inconsistent_fields)]
pub enum Commands {
    /// Manage local CLI configuration (stored in the config file)
    Config { command: ConfigCommands },
    /// Check prepaid credits balance (USDC) and storage quota
    CreditsStatus { user_id: Option<String> },
    /// Top up prepaid credits (USDC) (guided)
    Topup { amount: String, tx_sig: Option<String>, no_prompt: bool, user_id: Option<String> },
    /// Create a prepaid credits top-up intent (USDC)
    CreditsIntent { amount: String, user_id: Option<String> },
    /// Submit a prepaid credits payment transaction signature for verification
    CreditsSubmit { intent_id: String, tx_sig: String, user_id: Option<String> },
    /// Cancel a pending prepaid credits top-up intent
    CreditsCancel { intent_id: String, user_id: Option<String> },
    /// Legacy: submit a prepaid credits top-up payment (USDC)
    SyncDeposits { user_id: Option<String>, intent_id: Option<String>, tx_sig: Option<String> },
    /// Generate a Solana-compatible Ed25519 keypair file
    WalletKeygen { output: Option<String>, force: bool },
    /// Authenticate via Sign In With Solana (headless)
    WalletAuth { keypair: Option<String> },
    /// Create a new S3 access key
    S3KeyCreate { env: bool },
    /// List S3 access keys
    S3KeyList,
    /// Delete an S3 access key
    S3KeyDelete { access_key_id: String, yes: bool },
    /// Show S3 endpoint and bucket info
    S3Info,
    /// Show storage and bandwidth usage with free-tier breakdown
    Usage { period: String, detailed: bool },
    /// Show your account profile
    Profile,
    /// Log out and terminate the current session
    Logout,
    /// List or revoke active sessions
    Sessions { revoke: Option<String> },
    /// One-command bootstrap: keygen + auth + S3 key creation
    Init { keypair: Option<String> },
}

/// The `config` subcommands.
#[derive(Debug)]
pub enum ConfigCommands {
    /// Show local CLI configuration (from the config file)
    Show,
    /// Set the default API base URL for this config profile
    SetApi { url: String },
    /// Clear the saved default API base URL
    ClearApi,
    /// Set the default S3 endpoint (used for presign + AWS CLI hints)
    SetS3Endpoint { endpoint: String },
    /// Clear the saved S3 endpoint
    ClearS3Endpoint,
    /// Set the default S3 region (used for presign)
    SetS3Region { region: String },
    /// Clear the saved S3 region
    ClearS3Region,
    /// Set whether presigned URLs default to virtual-hosted-style
    SetS3VirtualHosted { enabled: bool },
    /// Clear the saved virtual-hosted-style default
    ClearS3VirtualHosted,
}

/// The state of a prepaid credits top-up intent.
#[derive(Debug)]
pub struct CreditsIntentStatus {
    pub intent_id: String,
    pub status: String,
    pub requested_usdc_raw: i64,
    pub detected_usdc_raw: i64,
    pub credited_usdc_raw: i64,
    pub usdc_mint: String,
    pub treasury_owner_pubkey: String,
    pub treasury_usdc_ata: String,
    pub reference_pubkey: String,
    pub payment_tx_sig: Option<String>,
    pub last_checked_at: Option<String>,
    pub credited_at: Option<String>,
}

/// Body of a request that creates a top-up intent.
#[derive(Debug)]
pub struct CreateCreditsIntentRequest {
    pub amount_usdc_raw: i64,
}

/// Body of a request that submits a payment for a top-up intent.
#[derive(Debug)]
pub struct SubmitCreditsPaymentRequest {
    pub intent_id: String,
    pub tx_sig: String,
}

/// The server's answer to a submitted payment.
#[derive(Debug)]
pub struct SubmitCreditsPaymentResponse {
    pub intent_id: String,
    pub status: String,
    pub requested_usdc_raw: i64,
    pub detected_usdc_raw: i64,
    pub credited_usdc_raw: i64,
    pub balance_usdc_raw: i64,
}

/// Body of a request that cancels a top-up intent.
#[derive(Debug)]
pub struct CancelCreditsIntentRequest {
    pub intent_id: String,
}

/// The server's answer to a cancelled intent.
#[derive(Debug)]
pub struct CreditsCancelResponse {
    pub intent_id: String,
    pub status: String,
}

/// Body of a Sign In With Solana challenge request.
#[derive(Debug)]
pub struct SiwsChallengeRequest {
    pub wallet_public_key: String,
}

/// The challenge the server asks the wallet to sign.
#[derive(Debug)]
pub struct SiwsChallengeResponse {
    pub nonce: String,
    pub message: String,
}

/// Body of a Sign In With Solana verification request.
#[derive(Debug)]
pub struct SiwsVerifyRequest {
    pub wallet_public_key: String,
    pub nonce: String,
    pub message: String,
    pub signature_b64: String,
}

/// The tokens the server returns once the signature is verified.
#[derive(Debug)]
pub struct SiwsVerifyResponse {
    pub access_token: String,
    pub refresh_token: String,
    pub token_type: String,
    pub expires_in: i64,
    pub csrf_token: Option<String>,
}

/// A newly created S3 access key.
#[derive(Debug)]
pub struct S3KeyCreateResponse {
    pub access_key_id: String,
    pub secret_access_key: String,
    pub endpoint: String,
    pub region: String,
    pub bucket_name: String,
    pub name_prefix: String,
}

/// An S3 access key as listed by the server.
#[derive(Debug)]
pub struct S3KeyInfo {
    pub key_name: String,
    pub access_key_id: String,
    pub bucket_id: String,
    pub bucket_name: Option<String>,
    pub name_prefix: String,
    pub capabilities: String,
    pub created_at: String,
}

/// The list of a user's S3 access keys.
#[derive(Debug)]
pub struct S3KeyListResponse {
    pub keys: Vec<S3KeyInfo>,
}

/// The S3 endpoint and region of the service.
#[derive(Debug)]
pub struct S3InfoResponse {
    pub endpoint: String,
    pub region: String,
}

/// The user's bucket and its access settings.
#[derive(Debug)]
pub struct BucketInfoResponse {
    pub bucket_name: String,
    pub public_read: bool,
    pub cors_allowed_origins: Vec<String>,
}

} // verus!
