//! USDC and SPL token amounts: parsing a user-typed USDC amount into raw
//! units, printing raw token amounts without rounding, Solana Pay links and
//! transaction signatures pasted by the user.
use vstd::prelude::*;

use crate::text::{
    CharClass, is_unicode_whitespace, in_class, lead_len, trail_len, trim_start, trim_end, trim_both, trim_ws, before_first, after_last, is_ascii_digit, all_digits, digits_value, decimal, int_decimal, zero_pad, zeros, pow10, lemma_lead_len_at, lemma_trail_len_at, lemma_lead_len_props, lemma_trail_len_props, lemma_decimal_digits, lemma_pow10_positive, lemma_pow10_monotone, lemma_decimal_len_upper, chars_of, push_char, push_chars, string_of, push_str, skip_class, skip_class_back, trim_range, push_decimal, u64_to_decimal, i64_to_decimal, all_digits_in, digits_to_i64,
};

verus! {

/// Raw units in one USDC (USDC has 6 decimals).
pub const USDC_DECIMALS_FACTOR: i64 = 1_000_000;

/// Why a USDC amount was refused.
#[derive(Debug, Clone, Copy, PartialEq, Eq, Structural)]
pub enum AmountErrorKind {
    /// Nothing but whitespace and `$` signs.
    Required,
    /// The whole part is missing, not all digits, or does not fit in an `i64`.
    Invalid,
    /// The fractional part has more than 6 characters or a non-digit.
    TooManyDecimals,
    /// The amount in raw units does not fit in an `i64`.
    TooLarge,
}

/// A refused USDC amount, with the text the user gave.
#[derive(Debug)]
pub struct AmountError {
    pub kind: AmountErrorKind,
    pub input: String,
}

/// The text of a USDC amount once surrounding whitespace and leading `$` signs are gone.
pub open spec fn usdc_amount_text(input: Seq<char>) -> Seq<char> {
    trim_start(trim_ws(input), CharClass::Exactly('$'))
}

/// Where the whole part of an amount text ends (at its first `.`, or its end).
pub open spec fn whole_len(t: Seq<char>) -> nat {
    lead_len(t, CharClass::Except('.'))
}

/// What parsing a USDC amount gives: the amount in raw units (millionths), or why it is refused.
pub open spec fn usdc_parse(input: Seq<char>) -> Result<int, AmountErrorKind> {
    let t = usdc_amount_text(input);
    let k = whole_len(t);
    let whole = t.take(k as int);
    let frac = t.skip(k + 1 as int);
    if t.len() == 0 {
        Err(AmountErrorKind::Required)
    } else if whole.len() == 0 || !all_digits(whole) || digits_value(whole) > i64::MAX {
        Err(AmountErrorKind::Invalid)
    } else if k < t.len() && (frac.len() > 6 || !all_digits(frac)) {
        Err(AmountErrorKind::TooManyDecimals)
    } else {
        let frac_raw: int = if k < t.len() {
            (digits_value(frac) * pow10((6 - frac.len()) as nat)) as int
        } else {
            0
        };
        let whole_raw = digits_value(whole) * 1_000_000;
        if whole_raw > i64::MAX || whole_raw + frac_raw > i64::MAX {
            Err(AmountErrorKind::TooLarge)
        } else {
            Ok(whole_raw + frac_raw)
        }
    }
}

/// The text `format_spl_amount_raw` gives for `raw` units of a token with `decimals` decimals:
/// the exact decimal value, with no trailing zeros in the fraction and no `.` for whole amounts.
pub open spec fn spl_amount_text(raw: int, decimals: nat) -> Seq<char> {
    if decimals == 0 || pow10(decimals) > u64::MAX {
        int_decimal(raw)
    } else {
        let a: nat = if raw < 0 {
            (-raw) as nat
        } else {
            raw as nat
        };
        let f = pow10(decimals);
        let whole = a / f;
        let frac = a % f;
        let body = if frac == 0 {
            decimal(whole)
        } else {
            decimal(whole) + seq!['.'] + trim_end(
                zero_pad(decimal(frac), decimals),
                CharClass::Exactly('0'),
            )
        };
        if raw < 0 {
            seq!['-'] + body
        } else {
            body
        }
    }
}

/// The Solana Pay transfer request link for `amount_raw` units of the SPL token `mint`.
pub open spec fn solana_pay_url_text(
    recipient: Seq<char>,
    amount_raw: int,
    mint: Seq<char>,
    reference: Seq<char>,
    decimals: nat,
) -> Seq<char> {
    "solana:"@ + recipient + "?amount="@ + spl_amount_text(amount_raw, decimals) + "&spl-token="@
        + mint + "&reference="@ + reference
}

/// The transaction signature in a pasted text: quotes and whitespace around it are
/// dropped, and from a URL the last path segment is kept, without query or fragment.
pub open spec fn tx_sig_text(raw: Seq<char>) -> Seq<char> {
    let t = trim_both(trim_ws(raw), CharClass::Exactly('"'));
    if t.len() == 0 {
        Seq::empty()
    } else {
        trim_ws(after_last(before_first(before_first(t, '?'), '#'), '/'))
    }
}

impl AmountError {
    /// The message shown for this error.
    pub fn message(&self) -> (m: String)
        ensures
            self.kind == AmountErrorKind::Required ==> m@ == "USDC amount is required"@,
            self.kind == AmountErrorKind::Invalid ==> m@ == "Invalid USDC amount: "@
                + self.input@,
            self.kind == AmountErrorKind::TooManyDecimals ==> m@
                == "Invalid USDC amount (max 6 decimals): "@ + self.input@,
            self.kind == AmountErrorKind::TooLarge ==> m@ == "USDC amount too large: "@
                + self.input@,
    {
        let mut m = match self.kind {
            AmountErrorKind::Required => {
                return String::from_str("USDC amount is required");
            },
            AmountErrorKind::Invalid => String::from_str("Invalid USDC amount: "),
            AmountErrorKind::TooManyDecimals => String::from_str(
                "Invalid USDC amount (max 6 decimals): ",
            ),
            AmountErrorKind::TooLarge => String::from_str("USDC amount too large: "),
        };
        push_str(&mut m, self.input.as_str());
        m
    }
}

fn amount_error(kind: AmountErrorKind, input: &str) -> (e: AmountError)
    ensures
        e.kind == kind,
        e.input@ == input@,
{
    AmountError { kind, input: String::from_str(input) }
}

/// `10^d` when it fits in a `u64` (`u64::checked_pow(10, d)`).
pub fn checked_pow10(d: u32) -> (r: Option<u64>)
    ensures
        r is Some <==> pow10(d as nat) <= u64::MAX,
        r matches Some(x) ==> x == pow10(d as nat),
{
    let mut acc: u64 = 1;
    let mut i: u32 = 0;
    while i < d
        invariant
            i <= d,
            acc == pow10(i as nat),
        decreases d - i,
    {
        assert(pow10((i + 1) as nat) == 10 * pow10(i as nat));
        match acc.checked_mul(10) {
            Some(x) => {
                acc = x;
            },
            None => {
                proof {
                    lemma_pow10_monotone((i + 1) as nat, d as nat);
                }
                return None;
            },
        }
        i += 1;
    }
    Some(acc)
}

/// A digit string is worth less than `10^len`.
pub proof fn lemma_digits_value_bound(s: Seq<char>)
    requires
        all_digits(s),
    ensures
        digits_value(s) < pow10(s.len()),
    decreases s.len(),
{
    if s.len() > 0 {
        let p = s.drop_last();
        assert(all_digits(p)) by {
            assert forall|i: int| 0 <= i < p.len() implies is_ascii_digit(#[trigger] p[i]) by {
                assert(p[i] == s[i]);
            }
        }
        lemma_digits_value_bound(p);
        assert(is_ascii_digit(s[s.len() - 1]));
        assert(pow10(s.len()) == 10 * pow10(p.len()));
    }
}

/// Parses a USDC amount such as `"10.50"`, `"$25"` or `" 0.000001 "` into raw units
/// (millionths of a USDC). At most 6 decimals are accepted; nothing is rounded.
pub fn parse_usdc_ui_to_raw(input: &str) -> (r: Result<i64, AmountError>)
    ensures
        usdc_parse(input@) matches Ok(v) ==> r matches Ok(x) && x == v,
        usdc_parse(input@) matches Err(k) ==> r matches Err(e) && e.kind == k && e.input@
            == input@,
{
    let v = chars_of(input);
    let (a, b) = trim_range(&v, 0, v.len(), CharClass::Whitespace);
    let a2 = skip_class(&v, a, b, CharClass::Exactly('$'));
    let ghost t = usdc_amount_text(input@);
    proof {
        assert(v@.subrange(0, v@.len() as int) =~= v@);
        assert(t =~= v@.subrange(a2 as int, b as int));
    }
    if a2 == b {
        return Err(amount_error(AmountErrorKind::Required, input));
    }
    let k = skip_class(&v, a2, b, CharClass::Except('.'));
    proof {
        assert(t.take(whole_len(t) as int) =~= v@.subrange(a2 as int, k as int));
        if k < b {
            assert(t.skip(whole_len(t) + 1 as int) =~= v@.subrange(k + 1, b as int));
        }
    }
    if k == a2 || !all_digits_in(&v, a2, k) {
        return Err(amount_error(AmountErrorKind::Invalid, input));
    }
    let whole: i64 = match digits_to_i64(&v, a2, k) {
        Some(w) => w,
        None => {
            return Err(amount_error(AmountErrorKind::Invalid, input));
        },
    };
    let frac_raw: i64 = if k == b {
        0
    } else {
        let fs = k + 1;
        if b - fs > 6 || !all_digits_in(&v, fs, b) {
            return Err(amount_error(AmountErrorKind::TooManyDecimals, input));
        }
        let ghost f = v@.subrange(fs as int, b as int);
        proof {
            lemma_digits_value_bound(f);
            lemma_pow10_monotone(f.len(), 6);
            assert(pow10(6) == 1_000_000) by {
                reveal_with_fuel(pow10, 7);
            }
        }
        let fv = match digits_to_i64(&v, fs, b) {
            Some(x) => x,
            None => 0,
        };
        let scale = match checked_pow10((6 - (b - fs)) as u32) {
            Some(p) => p,
            None => 1,
        };
        proof {
            lemma_pow10_monotone((6 - f.len()) as nat, 6);
            assert(pow10((6 - f.len()) as nat) <= 1_000_000);
            assert(fv * scale <= 1_000_000 * 1_000_000) by (nonlinear_arith)
                requires
                    0 <= fv < 1_000_000,
                    0 <= scale <= 1_000_000,
            ;
        }
        fv * (scale as i64)
    };
    let whole_raw = match whole.checked_mul(USDC_DECIMALS_FACTOR) {
        Some(x) => x,
        None => {
            return Err(amount_error(AmountErrorKind::TooLarge, input));
        },
    };
    match whole_raw.checked_add(frac_raw) {
        Some(x) => Ok(x),
        None => Err(amount_error(AmountErrorKind::TooLarge, input)),
    }
}

/// Appends the fraction digits of `frac` for a token with `decimals` decimals: zero-padded
/// on the left to `decimals` digits, with trailing zeros cut off.
fn push_fraction(s: &mut String, frac: u64, decimals: u32)
    requires
        frac < pow10(decimals as nat),
        decimals >= 1,
    ensures
        final(s)@ == old(s)@ + trim_end(
            zero_pad(decimal(frac as nat), decimals as nat),
            CharClass::Exactly('0'),
        ),
{
    let ds = u64_to_decimal(frac);
    let dv = chars_of(ds.as_str());
    let mut padded: Vec<char> = Vec::new();
    let mut i: usize = dv.len();
    proof {
        lemma_decimal_digits(frac as nat);
        lemma_decimal_len_upper(frac as nat, decimals as nat);
    }
    while i < decimals as usize
        invariant
            dv.len() <= i <= decimals,
            padded@ == zeros((i - dv.len()) as nat),
        decreases decimals - i,
    {
        padded.push('0');
        i += 1;
        assert(padded@ =~= zeros((i - dv.len()) as nat));
    }
    let mut j: usize = 0;
    let ghost zs = padded@;
    while j < dv.len()
        invariant
            j <= dv.len(),
            padded@ == zs + dv@.take(j as int),
        decreases dv.len() - j,
    {
        padded.push(dv[j]);
        j += 1;
        assert(padded@ =~= zs + dv@.take(j as int));
    }
    proof {
        assert(dv@.take(dv.len() as int) =~= dv@);
        assert(padded@ =~= zero_pad(decimal(frac as nat), decimals as nat));
    }
    let end = skip_class_back(&padded, 0, padded.len(), CharClass::Exactly('0'));
    proof {
        assert(padded@.subrange(0, padded.len() as int) =~= padded@);
    }
    push_chars(s, &padded, 0, end);
    proof {
        let pz = zero_pad(decimal(frac as nat), decimals as nat);
        assert(padded@.subrange(0, end as int) =~= trim_end(pz, CharClass::Exactly('0')));
    }
}

/// Prints `raw` units of a token with `decimals` decimals exactly, e.g. `1234500` with 6
/// decimals as `"1.2345"` and `20_000_000_000` with 9 as `"20"`.
pub fn format_spl_amount_raw(raw: i64, decimals: u32) -> (s: String)
    ensures
        s@ == spl_amount_text(raw as int, decimals as nat),
{
    if decimals == 0 {
        return i64_to_decimal(raw);
    }
    let factor = match checked_pow10(decimals) {
        Some(f) => f,
        None => {
            return i64_to_decimal(raw);
        },
    };
    let negative = raw < 0;
    let abs: u64 = if raw == i64::MIN {
        9223372036854775808u64
    } else if raw < 0 {
        (-raw) as u64
    } else {
        raw as u64
    };
    proof {
        lemma_pow10_positive(decimals as nat);
    }
    let whole = abs / factor;
    let frac = abs % factor;
    let mut out = String::new();
    if negative {
        push_char(&mut out, '-');
    }
    push_decimal(&mut out, whole);
    if frac != 0 {
        push_char(&mut out, '.');
        push_fraction(&mut out, frac, decimals);
    }
    proof {
        let a: nat = abs as nat;
        assert(a == if raw < 0 {
            (-raw) as nat
        } else {
            raw as nat
        });
        assert(out@ =~= spl_amount_text(raw as int, decimals as nat));
    }
    out
}

/// The Solana Pay link that asks for `amount_raw` units of the SPL token `spl_token_mint`
/// to be sent to `recipient_pubkey` with the given reference key.
pub fn solana_pay_url_raw(
    recipient_pubkey: &str,
    amount_raw: i64,
    spl_token_mint: &str,
    reference: &str,
    decimals: u32,
) -> (s: String)
    ensures
        s@ == solana_pay_url_text(
            recipient_pubkey@,
            amount_raw as int,
            spl_token_mint@,
            reference@,
            decimals as nat,
        ),
{
    let mut s = String::from_str("solana:");
    push_str(&mut s, recipient_pubkey);
    push_str(&mut s, "?amount=");
    let amount = format_spl_amount_raw(amount_raw, decimals);
    push_str(&mut s, amount.as_str());
    push_str(&mut s, "&spl-token=");
    push_str(&mut s, spl_token_mint);
    push_str(&mut s, "&reference=");
    push_str(&mut s, reference);
    s
}

/// The transaction signature in what the user pasted: a bare signature, a quoted one, or
/// an explorer URL such as `https://solscan.io/tx/<sig>?cluster=mainnet`.
pub fn extract_solana_tx_sig(raw: &str) -> (s: String)
    ensures
        s@ == tx_sig_text(raw@),
{
    let v = chars_of(raw);
    let (a, b) = trim_range(&v, 0, v.len(), CharClass::Whitespace);
    let (a2, b2) = trim_range(&v, a, b, CharClass::Exactly('"'));
    let ghost t = trim_both(trim_ws(raw@), CharClass::Exactly('"'));
    proof {
        assert(v@.subrange(0, v@.len() as int) =~= v@);
        assert(t =~= v@.subrange(a2 as int, b2 as int));
    }
    if a2 == b2 {
        return String::new();
    }
    let q = skip_class(&v, a2, b2, CharClass::Except('?'));
    let ghost p1 = before_first(t, '?');
    assert(p1 =~= v@.subrange(a2 as int, q as int));
    let h = skip_class(&v, a2, q, CharClass::Except('#'));
    let ghost p2 = before_first(p1, '#');
    assert(p2 =~= v@.subrange(a2 as int, h as int));
    let l = skip_class_back(&v, a2, h, CharClass::Except('/'));
    let ghost p3 = after_last(p2, '/');
    assert(p3 =~= v@.subrange(l as int, h as int));
    let (c, d) = trim_range(&v, l, h, CharClass::Whitespace);
    string_of(&v, c, d)
}

/// A digit string followed by another is worth the first shifted left by the second's length
/// plus the second.
pub proof fn lemma_digits_value_concat(a: Seq<char>, b: Seq<char>)
    ensures
        digits_value(a + b) == digits_value(a) * pow10(b.len()) + digits_value(b),
    decreases b.len(),
{
    if b.len() == 0 {
        assert(a + b =~= a);
        assert(pow10(0) == 1);
    } else {
        let b2 = b.drop_last();
        lemma_digits_value_concat(a, b2);
        assert((a + b).drop_last() =~= a + b2);
        assert((a + b).last() == b.last());
        let x = digits_value(a);
        let p = pow10(b2.len());
        let y = digits_value(b2);
        let d = ((b.last() as nat) - 48) as nat;
        assert(digits_value(a + b) == digits_value(a + b2) * 10 + d);
        assert(pow10(b.len()) == 10 * p);
        assert((x * p + y) * 10 + d == x * (10 * p) + (y * 10 + d)) by (nonlinear_arith);
    }
}

/// A string of `'0'` characters is worth nothing.
pub proof fn lemma_digits_value_zeros(n: nat)
    ensures
        digits_value(zeros(n)) == 0,
    decreases n,
{
    if n > 0 {
        lemma_digits_value_zeros((n - 1) as nat);
        assert(zeros(n).drop_last() =~= zeros((n - 1) as nat));
        assert(zeros(n).last() == '0');
    }
}

/// Digits are neither whitespace, `$` nor `.`.
pub proof fn lemma_digit_not_special(c: char)
    requires
        is_ascii_digit(c),
    ensures
        !is_unicode_whitespace(c),
        c != '$',
        c != '.',
{
}

/// Trimming a class from a text that neither starts nor ends with it changes nothing.
pub proof fn lemma_trim_noop(s: Seq<char>, cls: CharClass)
    requires
        s.len() > 0,
        !in_class(s[0], cls),
        !in_class(s.last(), cls),
    ensures
        trim_start(s, cls) == s,
        trim_both(s, cls) == s,
{
    assert(lead_len(s, cls) == 0);
    assert(s.skip(0) =~= s);
    assert(trail_len(s, cls) == 0);
    assert(s.take(s.len() as int) =~= s);
}

/// Printing a non-negative raw USDC amount with 6 decimals and parsing the text back
/// gives the same amount.
pub proof fn law_usdc_format_parse_roundtrip(raw: i64)
    requires
        raw >= 0,
    ensures
        usdc_parse(spl_amount_text(raw as int, 6)) == Ok::<int, AmountErrorKind>(raw as int),
{
    assert(pow10(6) == 1_000_000) by {
        reveal_with_fuel(pow10, 7);
    }
    let f: nat = 1_000_000;
    let a: nat = raw as nat;
    let w = a / f;
    let r = a % f;
    let d = decimal(w);
    lemma_decimal_digits(w);
    lemma_digit_not_special(d[0]);
    assert(a == w * f + r);
    let s = spl_amount_text(raw as int, 6);
    if r == 0 {
        assert(s == d);
        lemma_digit_not_special(d.last());
        lemma_trim_noop(s, CharClass::Whitespace);
        lemma_trim_noop(s, CharClass::Exactly('$'));
        assert(usdc_amount_text(s) == s);
        assert forall|j: int| 0 <= j < s.len() implies in_class(
            #[trigger] s[j],
            CharClass::Except('.'),
        ) by {
            lemma_digit_not_special(s[j]);
        }
        lemma_lead_len_at(s, CharClass::Except('.'), s.len() as int);
        assert(s.take(s.len() as int) =~= s);
        assert(w <= a);
    } else {
        let dr = decimal(r);
        lemma_decimal_digits(r);
        lemma_decimal_len_upper(r, 6);
        let zs = zeros((6 - dr.len()) as nat);
        let p = zero_pad(dr, 6);
        assert(p == zs + dr);
        assert(p.len() == 6);
        lemma_digits_value_concat(zs, dr);
        lemma_digits_value_zeros((6 - dr.len()) as nat);
        assert(digits_value(p) == r);
        assert(all_digits(p)) by {
            assert forall|i: int| 0 <= i < p.len() implies is_ascii_digit(#[trigger] p[i]) by {
                if i >= zs.len() {
                    assert(p[i] == dr[i - zs.len()]);
                }
            }
        }
        let z = CharClass::Exactly('0');
        let t = trail_len(p, z);
        lemma_trail_len_props(p, z);
        let fr = trim_end(p, z);
        assert(fr == p.take(6 - t));
        let tail = p.skip(6 - t);
        assert(tail =~= zeros(t)) by {
            assert forall|i: int| 0 <= i < t implies tail[i] == '0' by {
                assert(tail[i] == p[6 - t + i]);
                assert(in_class(p[6 - t + i], z));
            }
        }
        assert(p =~= fr + tail);
        lemma_digits_value_concat(fr, tail);
        lemma_digits_value_zeros(t);
        assert(t < 6) by {
            if t == 6 {
                assert(fr.len() == 0);
                assert(fr =~= Seq::<char>::empty());
                assert(digits_value(fr) == 0);
            }
        }
        assert(digits_value(p) == digits_value(fr) * pow10(t));
        assert(fr.len() == 6 - t);
        assert(fr.last() == p[6 - t - 1]);
        assert(fr.last() != '0');
        assert(all_digits(fr)) by {
            assert forall|i: int| 0 <= i < fr.len() implies is_ascii_digit(#[trigger] fr[i]) by {
                assert(fr[i] == p[i]);
            }
        }
        assert(s == d + seq!['.'] + fr);
        assert(s[0] == d[0]);
        assert(s.last() == fr.last());
        lemma_digit_not_special(s.last());
        lemma_trim_noop(s, CharClass::Whitespace);
        lemma_trim_noop(s, CharClass::Exactly('$'));
        assert(usdc_amount_text(s) == s);
        assert forall|j: int| 0 <= j < d.len() implies in_class(
            #[trigger] s[j],
            CharClass::Except('.'),
        ) by {
            assert(s[j] == d[j]);
            lemma_digit_not_special(d[j]);
        }
        assert(s[d.len() as int] == '.');
        lemma_lead_len_at(s, CharClass::Except('.'), d.len() as int);
        assert(s.take(d.len() as int) =~= d);
        assert(s.skip(d.len() + 1 as int) =~= fr);
        assert(w <= a);
        assert(digits_value(fr) * pow10((6 - fr.len()) as nat) == r);
    }
}

/// A transaction signature as the user may paste it bare: not empty, no whitespace or
/// quote at either end, and no `/`, `?` or `#` anywhere.
pub open spec fn bare_tx_sig(sig: Seq<char>) -> bool {
    &&& sig.len() > 0
    &&& !is_unicode_whitespace(sig[0]) && sig[0] != '"'
    &&& !is_unicode_whitespace(sig.last()) && sig.last() != '"'
    &&& forall|i: int| 0 <= i < sig.len() ==> #[trigger] sig[i] != '/' && sig[i] != '?' && sig[i]
        != '#'
}

/// `s` has no `c`: `before_first(s + [c] + t, c)` is `s` and `before_first(s, c)` is `s`.
proof fn lemma_before_first_at(s: Seq<char>, c: char, t: Seq<char>)
    requires
        forall|i: int| 0 <= i < s.len() ==> #[trigger] s[i] != c,
    ensures
        before_first(s + seq![c] + t, c) == s,
        before_first(s, c) == s,
{
    let u = s + seq![c] + t;
    assert forall|j: int| 0 <= j < s.len() implies in_class(#[trigger] u[j], CharClass::Except(c)) by {
        assert(u[j] == s[j]);
    }
    assert(u[s.len() as int] == c);
    lemma_lead_len_at(u, CharClass::Except(c), s.len() as int);
    assert(u.take(s.len() as int) =~= s);
    lemma_lead_len_at(s, CharClass::Except(c), s.len() as int);
    assert(s.take(s.len() as int) =~= s);
}

/// `t` has no `c`: `after_last(s + [c] + t, c)` is `t`.
proof fn lemma_after_last_at(s: Seq<char>, c: char, t: Seq<char>)
    requires
        forall|i: int| 0 <= i < t.len() ==> #[trigger] t[i] != c,
    ensures
        after_last(s + seq![c] + t, c) == t,
{
    let u = s + seq![c] + t;
    assert forall|j: int| u.len() - t.len() <= j < u.len() implies in_class(
        #[trigger] u[j],
        CharClass::Except(c),
    ) by {
        assert(u[j] == t[j - s.len() - 1]);
    }
    assert(u[u.len() - t.len() - 1] == c);
    lemma_trail_len_at(u, CharClass::Except(c), t.len() as int);
    assert(u.skip(u.len() - t.len()) =~= t);
}

/// A bare transaction signature is read as itself.
pub proof fn law_bare_tx_sig_unchanged(sig: Seq<char>)
    requires
        bare_tx_sig(sig),
    ensures
        tx_sig_text(sig) == sig,
{
    lemma_trim_noop(sig, CharClass::Whitespace);
    lemma_trim_noop(sig, CharClass::Exactly('"'));
    assert forall|i: int| 0 <= i < sig.len() implies #[trigger] sig[i] != '?' && sig[i] != '#'
        && sig[i] != '/' by {}
    lemma_before_first_at(sig, '?', Seq::empty());
    lemma_before_first_at(sig, '#', Seq::empty());
    let t = CharClass::Except('/');
    assert forall|j: int| sig.len() - sig.len() <= j < sig.len() implies in_class(
        #[trigger] sig[j],
        t,
    ) by {}
    lemma_trail_len_at(sig, t, sig.len() as int);
    assert(sig.skip(0) =~= sig);
}

/// From an explorer link `<prefix>/<sig>`, optionally followed by a query (`?...`) or a
/// fragment (`#...`), the signature is what is read.
pub proof fn law_tx_sig_from_link(prefix: Seq<char>, sig: Seq<char>, tail: Seq<char>)
    requires
        bare_tx_sig(sig),
        prefix.len() > 0,
        !is_unicode_whitespace(prefix[0]) && prefix[0] != '"',
        forall|i: int| 0 <= i < prefix.len() ==> #[trigger] prefix[i] != '?' && prefix[i] != '#',
        tail.len() == 0 || tail[0] == '?' || tail[0] == '#',
        tail.len() > 0 ==> !is_unicode_whitespace(tail.last()) && tail.last() != '"',
    ensures
        tx_sig_text(prefix + seq!['/'] + sig + tail) == sig,
{
    let u = prefix + seq!['/'] + sig;
    let text = u + tail;
    assert(text[0] == prefix[0]);
    if tail.len() > 0 {
        assert(text.last() == tail.last());
    } else {
        assert(text =~= u);
        assert(text.last() == sig.last());
    }
    lemma_trim_noop(text, CharClass::Whitespace);
    lemma_trim_noop(text, CharClass::Exactly('"'));
    assert(tx_sig_text(text) == trim_ws(after_last(before_first(before_first(text, '?'), '#'), '/')));
    assert forall|i: int| 0 <= i < u.len() implies #[trigger] u[i] != '?' && u[i] != '#' by {
        if i < prefix.len() {
            assert(u[i] == prefix[i]);
        } else if i > prefix.len() {
            assert(u[i] == sig[i - prefix.len() - 1]);
        }
    }
    if tail.len() == 0 {
        lemma_before_first_at(u, '?', Seq::empty());
        lemma_before_first_at(u, '#', Seq::empty());
    } else if tail[0] == '?' {
        lemma_before_first_at(u, '?', tail.drop_first());
        assert(text =~= u + seq!['?'] + tail.drop_first());
        lemma_before_first_at(u, '#', Seq::empty());
    } else {
        let q = CharClass::Except('?');
        lemma_lead_len_props(text, q);
        let k = lead_len(text, q);
        assert(k > u.len()) by {
            if k <= u.len() {
                if k < u.len() {
                    assert(text[k as int] == u[k as int]);
                } else {
                    assert(text[k as int] == tail[0]);
                }
            }
        }
        let p1 = text.take(k as int);
        assert(p1 =~= u + seq!['#'] + p1.skip(u.len() + 1 as int)) by {
            assert(p1[u.len() as int] == tail[0]);
        }
        lemma_before_first_at(u, '#', p1.skip(u.len() + 1 as int));
    }
    assert forall|i: int| 0 <= i < sig.len() implies #[trigger] sig[i] != '/' by {}
    lemma_after_last_at(prefix, '/', sig);
    law_bare_tx_sig_unchanged(sig);
    lemma_trim_noop(sig, CharClass::Whitespace);
}

/// What every reading of a pasted signature looks like: no `/`, `?` or `#`, and no
/// whitespace at either end.
pub open spec fn tx_sig_shape(r: Seq<char>) -> bool {
    &&& forall|i: int| 0 <= i < r.len() ==> #[trigger] r[i] != '/' && r[i] != '?' && r[i] != '#'
    &&& r.len() > 0 ==> !is_unicode_whitespace(r[0]) && !is_unicode_whitespace(r.last())
}

/// `s` holds no `"`.
pub open spec fn no_quote(s: Seq<char>) -> bool {
    forall|i: int| 0 <= i < s.len() ==> #[trigger] s[i] != '"'
}

/// Trimming a class from both ends keeps a stretch `s[a..b]` whose ends are not of the class.
proof fn lemma_trim_both_range(s: Seq<char>, cls: CharClass) -> (r: (int, int))
    ensures
        0 <= r.0 <= r.1 <= s.len(),
        trim_both(s, cls) == s.subrange(r.0, r.1),
        r.0 < r.1 ==> !in_class(s[r.0], cls) && !in_class(s[r.1 - 1], cls),
{
    lemma_lead_len_props(s, cls);
    let a = lead_len(s, cls) as int;
    let t = s.skip(a);
    lemma_trail_len_props(t, cls);
    let k = trail_len(t, cls) as int;
    let b = s.len() - k;
    assert(trim_both(s, cls) =~= s.subrange(a, b));
    if a < b {
        assert(t[t.len() - k - 1] == s[b - 1]);
    }
    (a, b)
}

/// A text of that shape without quotes is read as itself.
proof fn lemma_shaped_tx_sig_fixed(r: Seq<char>)
    requires
        tx_sig_shape(r),
        no_quote(r),
    ensures
        tx_sig_text(r) == r,
{
    if r.len() == 0 {
        lemma_trim_both_range(r, CharClass::Whitespace);
        assert(trim_ws(r).len() == 0);
        lemma_trim_both_range(trim_ws(r), CharClass::Exactly('"'));
        assert(tx_sig_text(r) =~= r);
    } else {
        law_bare_tx_sig_unchanged(r);
    }
}

/// Whatever is pasted, the signature read from it holds no `/`, `?` or `#` and has no
/// whitespace at either end. Where the paste holds no `"`, neither does what is read, and
/// reading it again gives it back; a paste that already has that shape is read as itself.
pub proof fn law_tx_sig_reading(raw: Seq<char>)
    ensures
        tx_sig_shape(tx_sig_text(raw)),
        no_quote(raw) ==> no_quote(tx_sig_text(raw)) && tx_sig_text(tx_sig_text(raw))
            == tx_sig_text(raw),
        no_quote(raw) && tx_sig_shape(raw) ==> tx_sig_text(raw) == raw,
{
    let ws = CharClass::Whitespace;
    let (a0, b0) = lemma_trim_both_range(raw, ws);
    let t0 = trim_ws(raw);
    let (a1, b1) = lemma_trim_both_range(t0, CharClass::Exactly('"'));
    let t = trim_both(t0, CharClass::Exactly('"'));
    let r = tx_sig_text(raw);
    if t.len() == 0 {
        assert(r =~= Seq::<char>::empty());
    } else {
        let cq = CharClass::Except('?');
        lemma_lead_len_props(t, cq);
        let p1 = before_first(t, '?');
        let ch = CharClass::Except('#');
        lemma_lead_len_props(p1, ch);
        let p2 = before_first(p1, '#');
        let cs = CharClass::Except('/');
        lemma_trail_len_props(p2, cs);
        let k = p2.len() - trail_len(p2, cs);
        let p3 = after_last(p2, '/');
        assert(p3 == p2.skip(k));
        assert forall|i: int| 0 <= i < p3.len() implies #[trigger] p3[i] != '/' && p3[i] != '?'
            && p3[i] != '#' && (no_quote(raw) ==> p3[i] != '"') by {
            assert(p3[i] == p2[k + i]);
            assert(in_class(p2[k + i], cs));
            assert(p2[k + i] == p1[k + i]);
            assert(in_class(p1[k + i], ch));
            assert(p1[k + i] == t[k + i]);
            assert(in_class(t[k + i], cq));
            assert(t[k + i] == t0[a1 + k + i]);
            assert(t0[a1 + k + i] == raw[a0 + a1 + k + i]);
        }
        let (c, d) = lemma_trim_both_range(p3, ws);
        assert(r == p3.subrange(c, d));
        assert forall|i: int| 0 <= i < r.len() implies #[trigger] r[i] != '/' && r[i] != '?'
            && r[i] != '#' && (no_quote(raw) ==> r[i] != '"') by {
            assert(r[i] == p3[c + i]);
        }
        if r.len() > 0 {
            assert(r[0] == p3[c]);
            assert(r.last() == p3[d - 1]);
        }
    }
    if no_quote(raw) {
        lemma_shaped_tx_sig_fixed(r);
        if tx_sig_shape(raw) {
            lemma_shaped_tx_sig_fixed(raw);
        }
    }
}

// ----- what a printed amount reads as -----

/// `s` is the exact decimal text of `raw / 10^d`: a `-` exactly when `raw` is negative, a
/// whole part of at least one digit with no leading zero (unless it is `0`), and where the
/// value is not whole, a `.` and at most `d` digits with no trailing `0`; read as a decimal
/// number it is `raw / 10^d`.
pub open spec fn exact_decimal_text(s: Seq<char>, raw: int, d: nat) -> bool {
    exists|w: Seq<char>, f: Seq<char>|
        #![trigger all_digits(w), all_digits(f)]
        {
            &&& s == (if raw < 0 {
                seq!['-']
            } else {
                Seq::empty()
            }) + w + (if f.len() == 0 {
                Seq::<char>::empty()
            } else {
                seq!['.'] + f
            })
            &&& w.len() >= 1 && all_digits(w) && (w.len() == 1 || w[0] != '0')
            &&& all_digits(f) && f.len() <= d && (f.len() > 0 ==> f.last() != '0')
            &&& digits_value(w) * pow10(d) + digits_value(f) * pow10((d - f.len()) as nat) == (
            if raw < 0 {
                -raw
            } else {
                raw
            })
        }
}

/// The fraction digits of `frac / 10^d` (for `0 < frac < 10^d`), zero-padded to `d` places
/// with the trailing zeros cut, are digits, end in a non-zero digit and are worth `frac`.
proof fn lemma_fraction_digits(frac: nat, d: nat)
    requires
        d >= 1,
        0 < frac < pow10(d),
    ensures
        ({
            let f = trim_end(zero_pad(decimal(frac), d), CharClass::Exactly('0'));
            &&& all_digits(f)
            &&& 1 <= f.len() <= d
            &&& f.last() != '0'
            &&& digits_value(f) * pow10((d - f.len()) as nat) == frac
        }),
{
    let dr = decimal(frac);
    lemma_decimal_digits(frac);
    lemma_decimal_len_upper(frac, d);
    let zs = zeros((d - dr.len()) as nat);
    let p = zero_pad(dr, d);
    assert(p =~= zs + dr);
    assert(p.len() == d);
    lemma_digits_value_concat(zs, dr);
    lemma_digits_value_zeros((d - dr.len()) as nat);
    assert(digits_value(p) == frac);
    assert(all_digits(p)) by {
        assert forall|i: int| 0 <= i < p.len() implies is_ascii_digit(#[trigger] p[i]) by {
            if i >= zs.len() {
                assert(p[i] == dr[i - zs.len()]);
            }
        }
    }
    let z = CharClass::Exactly('0');
    let t = trail_len(p, z);
    lemma_trail_len_props(p, z);
    let fr = trim_end(p, z);
    assert(fr == p.take(d - t));
    let tail = p.skip(d - t);
    assert(tail =~= zeros(t)) by {
        assert forall|i: int| 0 <= i < t implies tail[i] == '0' by {
            assert(tail[i] == p[d - t + i]);
            assert(in_class(p[d - t + i], z));
        }
    }
    assert(p =~= fr + tail);
    lemma_digits_value_concat(fr, tail);
    lemma_digits_value_zeros(t);
    assert(t < d) by {
        if t == d {
            assert(fr =~= Seq::<char>::empty());
            assert(digits_value(fr) == 0);
        }
    }
    assert(fr.len() == d - t);
    assert(fr.last() == p[d - t - 1]);
    assert(all_digits(fr)) by {
        assert forall|i: int| 0 <= i < fr.len() implies is_ascii_digit(#[trigger] fr[i]) by {
            assert(fr[i] == p[i]);
        }
    }
    assert((d - fr.len()) as nat == t);
}

/// `format_spl_amount_raw` prints the exact value: for every amount and every number of
/// decimals with `10^d` in a `u64`, the text read as a decimal number is `raw / 10^d`, with
/// a digit before any `.` and no trailing `0` after it.
pub proof fn law_spl_amount_text_is_exact(raw: i64, d: nat)
    requires
        pow10(d) <= u64::MAX,
    ensures
        exact_decimal_text(spl_amount_text(raw as int, d), raw as int, d),
{
    let a: nat = if raw < 0 {
        (-raw) as nat
    } else {
        raw as nat
    };
    let sign: Seq<char> = if raw < 0 {
        seq!['-']
    } else {
        Seq::empty()
    };
    let s = spl_amount_text(raw as int, d);
    lemma_pow10_positive(d);
    if d == 0 {
        let w = decimal(a);
        let f = Seq::<char>::empty();
        lemma_decimal_digits(a);
        assert(pow10(0) == 1);
        assert(s =~= sign + w + Seq::<char>::empty());
        assert(digits_value(f) == 0);
        assert(digits_value(w) * pow10(d) + digits_value(f) * pow10((d - f.len()) as nat) == a);
        assert(all_digits(f));
        assert(all_digits(w));
    } else {
        let p = pow10(d);
        let whole = a / p;
        let frac = a % p;
        let w = decimal(whole);
        lemma_decimal_digits(whole);
        assert(a == whole * p + frac) by (nonlinear_arith)
            requires
                p > 0,
                whole == a / p,
                frac == a % p,
        ;
        if frac == 0 {
            let f = Seq::<char>::empty();
            assert(s =~= sign + w + Seq::<char>::empty());
            assert(digits_value(f) == 0);
            assert(digits_value(f) * pow10((d - f.len()) as nat) == 0) by (nonlinear_arith)
                requires
                    digits_value(f) == 0,
            ;
            assert(all_digits(f));
            assert(all_digits(w));
        } else {
            let f = trim_end(zero_pad(decimal(frac), d), CharClass::Exactly('0'));
            lemma_fraction_digits(frac, d);
            assert(s =~= sign + w + (seq!['.'] + f));
            assert(all_digits(f));
            assert(all_digits(w));
        }
    }
}

/// The amount of a Solana Pay link is the exact decimal text of `amount_raw / 10^decimals`:
/// the link is `solana:<recipient>?amount=<amount>&spl-token=<mint>&reference=<reference>`
/// with such an amount.
pub proof fn law_solana_pay_link_amount(
    recipient: Seq<char>,
    amount_raw: i64,
    mint: Seq<char>,
    reference: Seq<char>,
    decimals: nat,
)
    requires
        pow10(decimals) <= u64::MAX,
    ensures
        exists|amount: Seq<char>|
            #[trigger] exact_decimal_text(amount, amount_raw as int, decimals) && solana_pay_url_text(
                recipient,
                amount_raw as int,
                mint,
                reference,
                decimals,
            ) == "solana:"@ + recipient + "?amount="@ + amount + "&spl-token="@ + mint
                + "&reference="@ + reference,
{
    law_spl_amount_text_is_exact(amount_raw, decimals);
    let amount = spl_amount_text(amount_raw as int, decimals);
    assert(exact_decimal_text(amount, amount_raw as int, decimals));
}

// ----- quoted signatures -----

/// `n` double quotes.
pub open spec fn quotes(n: nat) -> Seq<char> {
    Seq::new(n, |i: int| '"')
}

/// Only whitespace.
pub open spec fn all_whitespace(s: Seq<char>) -> bool {
    forall|i: int| 0 <= i < s.len() ==> is_unicode_whitespace(#[trigger] s[i])
}

/// A bare signature pasted with any number of double quotes on either side, and any
/// whitespace around those, is read as the signature itself.
pub proof fn law_quoted_tx_sig(sig: Seq<char>, ws1: Seq<char>, q1: nat, q2: nat, ws2: Seq<char>)
    requires
        bare_tx_sig(sig),
        all_whitespace(ws1),
        all_whitespace(ws2),
    ensures
        tx_sig_text(ws1 + quotes(q1) + sig + quotes(q2) + ws2) == sig,
{
    let m = quotes(q1) + sig + quotes(q2);
    let raw = ws1 + m + ws2;
    assert(ws1 + quotes(q1) + sig + quotes(q2) + ws2 =~= raw);
    let w = CharClass::Whitespace;
    let q = CharClass::Exactly('"');
    assert('"' as u32 == 34);
    // leading and trailing whitespace are exactly ws1 and ws2
    assert forall|j: int| 0 <= j < ws1.len() implies in_class(#[trigger] raw[j], w) by {
        assert(raw[j] == ws1[j]);
    }
    assert(m[0] == if q1 > 0 { '"' } else { sig[0] });
    assert(raw[ws1.len() as int] == m[0]);
    lemma_lead_len_at(raw, w, ws1.len() as int);
    let t0 = trim_start(raw, w);
    assert(t0 =~= m + ws2);
    assert forall|j: int| t0.len() - ws2.len() <= j < t0.len() implies in_class(#[trigger] t0[j], w) by {
        assert(t0[j] == ws2[j - m.len()]);
    }
    assert(m.last() == if q2 > 0 { '"' } else { sig.last() });
    assert(t0[t0.len() - ws2.len() - 1] == m.last());
    lemma_trail_len_at(t0, w, ws2.len() as int);
    assert(trim_ws(raw) =~= m);
    // then the quotes
    assert forall|j: int| 0 <= j < q1 implies in_class(#[trigger] m[j], q) by {
        assert(m[j] == '"');
    }
    assert(m[q1 as int] == sig[0]);
    lemma_lead_len_at(m, q, q1 as int);
    let t1 = trim_start(m, q);
    assert(t1 =~= sig + quotes(q2));
    assert forall|j: int| t1.len() - q2 <= j < t1.len() implies in_class(#[trigger] t1[j], q) by {
        assert(t1[j] == '"');
    }
    assert(t1[t1.len() - q2 - 1] == sig.last());
    lemma_trail_len_at(t1, q, q2 as int);
    assert(trim_both(m, q) =~= sig);
    // a bare signature reads the same way
    lemma_trim_noop(sig, w);
    lemma_trim_noop(sig, q);
    assert(trim_both(trim_ws(raw), q) == trim_both(trim_ws(sig), q));
    law_bare_tx_sig_unchanged(sig);
}

} // verus!
