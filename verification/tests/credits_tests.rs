use pipe_cli::credits::{
    credits_status_next, credits_status_path, is_confirmation_yes, is_success, tx_sig_from_arg,
    CreditsStatusStep,
};

#[test]
fn credits_status_falls_back_to_deposit_balance() {
    assert_eq!(credits_status_path(0), Some("/api/credits/status"));
    assert_eq!(credits_status_next(0, 404), CreditsStatusStep::TryNext(1));
    assert_eq!(credits_status_path(1), Some("/deposit/balance"));
    assert_eq!(credits_status_next(1, 200), CreditsStatusStep::ReadBody);
    assert_eq!(credits_status_path(2), None);
}

#[test]
fn credits_status_steps() {
    assert_eq!(credits_status_next(0, 200), CreditsStatusStep::ReadBody);
    assert_eq!(credits_status_next(0, 204), CreditsStatusStep::ReadBody);
    assert_eq!(credits_status_next(1, 404), CreditsStatusStep::Unsupported);
    assert_eq!(credits_status_next(0, 500), CreditsStatusStep::Failed(500));
    assert_eq!(credits_status_next(1, 401), CreditsStatusStep::Failed(401));
    assert_eq!(credits_status_next(0, 301), CreditsStatusStep::Failed(301));
    assert!(is_success(299));
    assert!(!is_success(300));
    assert!(!is_success(199));
}

#[test]
fn tx_sig_argument() {
    assert_eq!(
        tx_sig_from_arg(Some("https://solscan.io/tx/SIG?cluster=devnet".to_string())),
        Some("SIG".to_string())
    );
    assert_eq!(tx_sig_from_arg(Some("   ".to_string())), None);
    assert_eq!(tx_sig_from_arg(Some("SIG\n".to_string())), Some("SIG".to_string()));
    assert_eq!(tx_sig_from_arg(None), None);
}

#[test]
fn confirmation_prompt() {
    assert!(is_confirmation_yes("y\n"));
    assert!(is_confirmation_yes("  Y "));
    assert!(!is_confirmation_yes("yes\n"));
    assert!(!is_confirmation_yes("\n"));
    assert!(!is_confirmation_yes("n"));
}
