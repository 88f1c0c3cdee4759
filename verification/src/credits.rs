//! Prepaid credits: which endpoint answers the balance, what to do with each answer,
//! and the user input of a top-up.
use vstd::prelude::*;

use crate::amount::{extract_solana_tx_sig, tx_sig_text};
use crate::text::{chars_of, trim_range, trim_ws, CharClass};

verus! {

/// An HTTP status in the 2xx range (`reqwest::StatusCode::is_success`).
pub open spec fn is_success_status(code: u16) -> bool {
    200 <= code <= 299
}

/// Whether an HTTP status reports success (200 to 299).
pub fn is_success(code: u16) -> (b: bool)
    ensures
        b == is_success_status(code),
{
    200 <= code && code <= 299
}

/// The endpoints that may answer the credits balance, newest first.
pub open spec fn credits_status_path_text(index: nat) -> Option<Seq<char>> {
    if index == 0 {
        Some("/api/credits/status"@)
    } else if index == 1 {
        Some("/deposit/balance"@)
    } else {
        None
    }
}

/// The credits balance endpoint to try at step `index`, if any is left.
pub fn credits_status_path(index: usize) -> (r: Option<&'static str>)
    ensures
        match credits_status_path_text(index as nat) {
            Some(p) => r matches Some(s) && s@ == p,
            None => r is None,
        },
{
    if index == 0 {
        Some("/api/credits/status")
    } else if index == 1 {
        Some("/deposit/balance")
    } else {
        None
    }
}

/// What to do with the answer of a credits balance endpoint.
#[derive(Debug, Clone, Copy, PartialEq, Eq, Structural)]
pub enum CreditsStatusStep {
    /// The endpoint answered: read the balance from the body.
    ReadBody,
    /// The endpoint does not exist here: try the next one.
    TryNext(usize),
    /// No endpoint is left: the server has no prepaid credits.
    Unsupported,
    /// The request failed with this status.
    Failed(u16),
}

/// The step after endpoint `index` answered with `status`: read the body on success, try
/// the next endpoint on 404 (or give up when none is left), fail on any other status.
pub fn credits_status_next(index: usize, status: u16) -> (s: CreditsStatusStep)
    requires
        credits_status_path_text(index as nat) is Some,
    ensures
        is_success_status(status) ==> s == CreditsStatusStep::ReadBody,
        status == 404 && credits_status_path_text((index + 1) as nat) is Some ==> s
            == CreditsStatusStep::TryNext((index + 1) as usize),
        status == 404 && credits_status_path_text((index + 1) as nat) is None ==> s
            == CreditsStatusStep::Unsupported,
        !is_success_status(status) && status != 404 ==> s == CreditsStatusStep::Failed(status),
{
    if is_success(status) {
        CreditsStatusStep::ReadBody
    } else if status == 404 {
        if index == 0 {
            CreditsStatusStep::TryNext(1)
        } else {
            CreditsStatusStep::Unsupported
        }
    } else {
        CreditsStatusStep::Failed(status)
    }
}

/// The transaction signature given with `--tx-sig`, as `extract_solana_tx_sig` reads it;
/// none where that leaves nothing.
pub fn tx_sig_from_arg(arg: Option<String>) -> (r: Option<String>)
    ensures
        match arg {
            Some(a) => if tx_sig_text(a@).len() == 0 {
                r is None
            } else {
                r matches Some(s) && s@ == tx_sig_text(a@)
            },
            None => r is None,
        },
{
    match arg {
        Some(a) => {
            let s = extract_solana_tx_sig(a.as_str());
            if s.as_str().unicode_len() == 0 {
                None
            } else {
                Some(s)
            }
        },
        None => None,
    }
}

/// Whether an answer to a yes/no prompt is yes: `y` or `Y`, whitespace around it ignored.
pub fn is_confirmation_yes(input: &str) -> (b: bool)
    ensures
        b == (trim_ws(input@) == seq!['y'] || trim_ws(input@) == seq!['Y']),
{
    let v = chars_of(input);
    let (a, e) = trim_range(&v, 0, v.len(), CharClass::Whitespace);
    proof {
        assert(v@.subrange(0, v@.len() as int) =~= v@);
        assert(trim_ws(input@) == v@.subrange(a as int, e as int));
        assert(seq!['y'].len() == 1 && seq!['Y'].len() == 1);
    }
    if e - a != 1 {
        return false;
    }
    let c = v[a];
    proof {
        assert(trim_ws(input@) =~= seq![c]);
        assert(seq![c] == seq!['y'] ==> c == 'y') by {
            assert(seq![c][0] == c);
        }
        assert(seq![c] == seq!['Y'] ==> c == 'Y') by {
            assert(seq![c][0] == c);
        }
    }
    c == 'y' || c == 'Y'
}

} // verus!
