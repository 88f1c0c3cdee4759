use pipe_cli::amount::{
    extract_solana_tx_sig, format_spl_amount_raw, parse_usdc_ui_to_raw, solana_pay_url_raw,
    AmountErrorKind, USDC_DECIMALS_FACTOR,
};

#[test]
fn extracts_tx_sig_from_solscan_url() {
    assert_eq!(
        extract_solana_tx_sig("https://solscan.io/tx/ABC?cluster=mainnet"),
        "ABC"
    );
    assert_eq!(extract_solana_tx_sig("ABC"), "ABC");
    assert_eq!(extract_solana_tx_sig(""), "");
}

#[test]
fn formats_usdc_amounts_without_rounding() {
    assert_eq!(format_spl_amount_raw(0, 6), "0");
    assert_eq!(format_spl_amount_raw(1, 6), "0.000001");
    assert_eq!(format_spl_amount_raw(1_000_000, 6), "1");
    assert_eq!(format_spl_amount_raw(1_234_500, 6), "1.2345");
}

#[test]
fn formats_pipe_amounts_without_rounding() {
    assert_eq!(format_spl_amount_raw(20_000_000_000, 9), "20");
    assert_eq!(format_spl_amount_raw(100_000_000_001, 9), "100.000000001");
}

#[test]
fn parse_whole_number() {
    assert_eq!(parse_usdc_ui_to_raw("10").unwrap(), 10_000_000);
}

#[test]
fn parse_with_decimals() {
    assert_eq!(parse_usdc_ui_to_raw("10.50").unwrap(), 10_500_000);
    assert_eq!(parse_usdc_ui_to_raw("0.001").unwrap(), 1_000);
    assert_eq!(parse_usdc_ui_to_raw("0.000001").unwrap(), 1);
}

#[test]
fn parse_with_dollar_sign() {
    assert_eq!(parse_usdc_ui_to_raw("$25").unwrap(), 25_000_000);
    assert_eq!(parse_usdc_ui_to_raw("$1.50").unwrap(), 1_500_000);
}

#[test]
fn parse_with_whitespace() {
    assert_eq!(parse_usdc_ui_to_raw("  10  ").unwrap(), 10_000_000);
    assert_eq!(parse_usdc_ui_to_raw(" $5.25 ").unwrap(), 5_250_000);
}

#[test]
fn parse_trailing_dot() {
    assert_eq!(parse_usdc_ui_to_raw("10.").unwrap(), 10_000_000);
}

#[test]
fn parse_zero() {
    assert_eq!(parse_usdc_ui_to_raw("0").unwrap(), 0);
    assert_eq!(parse_usdc_ui_to_raw("0.000000").unwrap(), 0);
}

#[test]
fn parse_max_decimals() {
    assert_eq!(parse_usdc_ui_to_raw("1.123456").unwrap(), 1_123_456);
}

#[test]
fn rejects_too_many_decimals() {
    assert!(parse_usdc_ui_to_raw("1.1234567").is_err());
}

#[test]
fn rejects_empty() {
    assert!(parse_usdc_ui_to_raw("").is_err());
    assert!(parse_usdc_ui_to_raw("$").is_err());
}

#[test]
fn rejects_negative() {
    assert!(parse_usdc_ui_to_raw("-5").is_err());
}

#[test]
fn rejects_non_numeric() {
    assert!(parse_usdc_ui_to_raw("abc").is_err());
    assert!(parse_usdc_ui_to_raw("10.5x").is_err());
}

#[test]
fn rejects_overflow() {
    assert!(parse_usdc_ui_to_raw("10000000000000").is_err());
}

#[test]
fn roundtrip_format_parse() {
    let raw = 12_345_678i64;
    let ui = raw as f64 / USDC_DECIMALS_FACTOR as f64;
    let formatted = format!("{:.6}", ui);
    let parsed_back = parse_usdc_ui_to_raw(&formatted).unwrap();
    assert_eq!(parsed_back, raw);
}

#[test]
fn each_amount_error_kind_and_message() {
    let e = parse_usdc_ui_to_raw("  $ ").unwrap_err();
    assert_eq!(e.kind, AmountErrorKind::Required);
    assert_eq!(e.message(), "USDC amount is required");

    let e = parse_usdc_ui_to_raw("1x").unwrap_err();
    assert_eq!(e.kind, AmountErrorKind::Invalid);
    assert_eq!(e.message(), "Invalid USDC amount: 1x");

    let e = parse_usdc_ui_to_raw(".5").unwrap_err();
    assert_eq!(e.kind, AmountErrorKind::Invalid);

    let e = parse_usdc_ui_to_raw("99999999999999999999").unwrap_err();
    assert_eq!(e.kind, AmountErrorKind::Invalid);

    let e = parse_usdc_ui_to_raw("1.1234567").unwrap_err();
    assert_eq!(e.kind, AmountErrorKind::TooManyDecimals);
    assert_eq!(e.message(), "Invalid USDC amount (max 6 decimals): 1.1234567");

    let e = parse_usdc_ui_to_raw("1.2.3").unwrap_err();
    assert_eq!(e.kind, AmountErrorKind::TooManyDecimals);

    let e = parse_usdc_ui_to_raw("10000000000000").unwrap_err();
    assert_eq!(e.kind, AmountErrorKind::TooLarge);
    assert_eq!(e.message(), "USDC amount too large: 10000000000000");
}

#[test]
fn parse_edges() {
    assert_eq!(parse_usdc_ui_to_raw("$$7").unwrap(), 7_000_000);
    assert_eq!(parse_usdc_ui_to_raw("\t3.5\n").unwrap(), 3_500_000);
    assert_eq!(parse_usdc_ui_to_raw("007.000010").unwrap(), 7_000_010);
    assert_eq!(
        parse_usdc_ui_to_raw("9223372036854.775807").unwrap(),
        i64::MAX
    );
    assert!(parse_usdc_ui_to_raw("9223372036854.775808").is_err());
}

#[test]
fn format_then_parse_gives_the_amount_back() {
    for raw in [0i64, 1, 999_999, 1_000_000, 12_345_678, 500_000_001, i64::MAX] {
        let text = format_spl_amount_raw(raw, 6);
        assert_eq!(parse_usdc_ui_to_raw(&text).unwrap(), raw);
    }
}

#[test]
fn format_edges() {
    assert_eq!(format_spl_amount_raw(-1_500_000, 6), "-1.5");
    assert_eq!(format_spl_amount_raw(42, 0), "42");
    assert_eq!(format_spl_amount_raw(-42, 0), "-42");
    assert_eq!(format_spl_amount_raw(i64::MIN, 6), "-9223372036854.775808");
    assert_eq!(format_spl_amount_raw(i64::MAX, 6), "9223372036854.775807");
    assert_eq!(format_spl_amount_raw(123, 20), "123");
    assert_eq!(format_spl_amount_raw(123, 19), "0.0000000000000000123");
}

#[test]
fn solana_pay_link() {
    assert_eq!(
        solana_pay_url_raw("Treasury111", 10_500_000, "MintUSDC", "Ref222", 6),
        "solana:Treasury111?amount=10.5&spl-token=MintUSDC&reference=Ref222"
    );
}

#[test]
fn tx_sig_edges() {
    assert_eq!(extract_solana_tx_sig("  \"https://x.io/tx/SIG#frag\"  "), "SIG");
    assert_eq!(extract_solana_tx_sig("https://x.io/tx/SIG/"), "");
    assert_eq!(extract_solana_tx_sig("SIG\n"), "SIG");
    assert_eq!(extract_solana_tx_sig("\"\""), "");
}

#[test]
fn bare_signature_and_explorer_links() {
    let sig = "5VERv8NMvzbJMEkV8xnrLkEaWRtSz9CosKDYjCJjBRnbJLgp8uirBgmQpjKhoR4tjF3ZpRzrFmBV6UjKdiSZkQUW";
    assert_eq!(extract_solana_tx_sig(sig), sig);
    assert_eq!(extract_solana_tx_sig("AB CD"), "AB CD");
    assert_eq!(extract_solana_tx_sig(&format!("https://solscan.io/tx/{}", sig)), sig);
    assert_eq!(
        extract_solana_tx_sig(&format!("https://explorer.solana.com/tx/{}?cluster=devnet", sig)),
        sig
    );
    assert_eq!(extract_solana_tx_sig(&format!("https://x.io/tx/{}#a?b", sig)), sig);
}

#[test]
fn reading_a_signature_again_gives_it_back() {
    for raw in [
        "https://solscan.io/tx/ABC?cluster=mainnet",
        "  https://x.io/a/b c/#f ",
        "a?b#c/d",
        "\t\n",
        "",
        "x/ y z ",
    ] {
        let r = extract_solana_tx_sig(raw);
        assert!(!r.contains('/') && !r.contains('?') && !r.contains('#'));
        assert_eq!(r.trim(), r);
        assert_eq!(extract_solana_tx_sig(&r), r);
    }
    assert_eq!(extract_solana_tx_sig("a?b#c/d"), "a");
    assert_eq!(extract_solana_tx_sig("x/ y z "), "y z");
}
