//! Character-level text handling: classes of characters, trimming and
//! splitting as `str` does them, decimal digit strings, and building
//! `String`s from characters.
use vstd::prelude::*;

verus! {

/// A class of characters that a trim or a split stops at.
#[derive(Clone, Copy)]
pub enum CharClass {
    /// Characters with the Unicode `White_Space` property (what `char::is_whitespace` accepts).
    Whitespace,
    /// Exactly this character.
    Exactly(char),
    /// Every character but this one.
    Except(char),
}

/// The Unicode `White_Space` property, which `char::is_whitespace` and `str::trim` use.
pub open spec fn is_unicode_whitespace(c: char) -> bool {
    let u = c as u32;
    ||| 0x09 <= u <= 0x0D
    ||| u == 0x20
    ||| u == 0x85
    ||| u == 0xA0
    ||| u == 0x1680
    ||| 0x2000 <= u <= 0x200A
    ||| u == 0x2028
    ||| u == 0x2029
    ||| u == 0x202F
    ||| u == 0x205F
    ||| u == 0x3000
}

pub open spec fn in_class(c: char, cls: CharClass) -> bool {
    match cls {
        CharClass::Whitespace => is_unicode_whitespace(c),
        CharClass::Exactly(x) => c == x,
        CharClass::Except(x) => c != x,
    }
}

/// Number of leading characters of `s` that are in `cls`.
pub open spec fn lead_len(s: Seq<char>, cls: CharClass) -> nat
    decreases s.len(),
{
    if s.len() > 0 && in_class(s[0], cls) {
        1 + lead_len(s.drop_first(), cls)
    } else {
        0
    }
}

/// Number of trailing characters of `s` that are in `cls`.
pub open spec fn trail_len(s: Seq<char>, cls: CharClass) -> nat
    decreases s.len(),
{
    if s.len() > 0 && in_class(s.last(), cls) {
        1 + trail_len(s.drop_last(), cls)
    } else {
        0
    }
}

/// `s` without its leading characters of class `cls` (`str::trim_start_matches`).
pub open spec fn trim_start(s: Seq<char>, cls: CharClass) -> Seq<char> {
    s.skip(lead_len(s, cls) as int)
}

/// `s` without its trailing characters of class `cls` (`str::trim_end_matches`).
pub open spec fn trim_end(s: Seq<char>, cls: CharClass) -> Seq<char> {
    s.take(s.len() - trail_len(s, cls))
}

/// `s` without leading and trailing characters of class `cls` (`str::trim_matches`).
pub open spec fn trim_both(s: Seq<char>, cls: CharClass) -> Seq<char> {
    trim_end(trim_start(s, cls), cls)
}

/// `str::trim`: both ends stripped of Unicode whitespace.
pub open spec fn trim_ws(s: Seq<char>) -> Seq<char> {
    trim_both(s, CharClass::Whitespace)
}

/// The part of `s` before the first `c`, or all of `s` when `c` does not occur
/// (the first item of `str::split(c)`).
pub open spec fn before_first(s: Seq<char>, c: char) -> Seq<char> {
    s.take(lead_len(s, CharClass::Except(c)) as int)
}

/// The part of `s` after the last `c`, or all of `s` when `c` does not occur
/// (the first item of `str::rsplit(c)`).
pub open spec fn after_last(s: Seq<char>, c: char) -> Seq<char> {
    s.skip(s.len() - trail_len(s, CharClass::Except(c)))
}

pub open spec fn is_ascii_digit(c: char) -> bool {
    '0' <= c && c <= '9'
}

pub open spec fn all_digits(s: Seq<char>) -> bool {
    forall|i: int| 0 <= i < s.len() ==> is_ascii_digit(#[trigger] s[i])
}

/// The character of the decimal digit `d` (0 to 9).
pub open spec fn digit_char(d: nat) -> char {
    (d + 48) as char
}

/// The value of a string of decimal digits (0 for the empty string).
pub open spec fn digits_value(s: Seq<char>) -> nat
    decreases s.len(),
{
    if s.len() == 0 {
        0
    } else {
        digits_value(s.drop_last()) * 10 + ((s.last() as nat) - 48) as nat
    }
}

/// The shortest decimal representation of `n`, as `Display` writes it.
pub open spec fn decimal(n: nat) -> Seq<char>
    decreases n,
{
    if n < 10 {
        seq![digit_char(n)]
    } else {
        decimal(n / 10).push(digit_char(n % 10))
    }
}

/// The decimal representation of an integer, with a leading `-` when negative.
pub open spec fn int_decimal(i: int) -> Seq<char> {
    if i < 0 {
        seq!['-'] + decimal((-i) as nat)
    } else {
        decimal(i as nat)
    }
}

/// `s` padded on the left with `'0'` up to `width` characters (`format!("{:0width$}")`).
pub open spec fn zero_pad(s: Seq<char>, width: nat) -> Seq<char> {
    if s.len() >= width {
        s
    } else {
        zeros((width - s.len()) as nat) + s
    }
}

/// `n` copies of `'0'`.
pub open spec fn zeros(n: nat) -> Seq<char> {
    Seq::new(n, |i: int| '0')
}

pub open spec fn pow10(d: nat) -> nat
    decreases d,
{
    if d == 0 {
        1
    } else {
        10 * pow10((d - 1) as nat)
    }
}

// ----- lemmas -----

pub proof fn lemma_lead_len_at(s: Seq<char>, cls: CharClass, i: int)
    requires
        0 <= i <= s.len(),
        forall|j: int| 0 <= j < i ==> in_class(#[trigger] s[j], cls),
        i == s.len() || !in_class(s[i], cls),
    ensures
        lead_len(s, cls) == i,
    decreases i,
{
    if i > 0 {
        let t = s.drop_first();
        assert forall|j: int| 0 <= j < i - 1 implies in_class(#[trigger] t[j], cls) by {
            assert(t[j] == s[j + 1]);
        }
        if i - 1 < t.len() {
            assert(t[i - 1] == s[i]);
        }
        lemma_lead_len_at(t, cls, i - 1);
        assert(in_class(s[0], cls));
    }
}

pub proof fn lemma_trail_len_at(s: Seq<char>, cls: CharClass, k: int)
    requires
        0 <= k <= s.len(),
        forall|j: int| s.len() - k <= j < s.len() ==> in_class(#[trigger] s[j], cls),
        k == s.len() || !in_class(s[s.len() - k - 1], cls),
    ensures
        trail_len(s, cls) == k,
    decreases k,
{
    if k > 0 {
        let t = s.drop_last();
        assert forall|j: int| t.len() - (k - 1) <= j < t.len() implies in_class(
            #[trigger] t[j],
            cls,
        ) by {
            assert(t[j] == s[j]);
        }
        if k - 1 < t.len() {
            assert(t[t.len() - (k - 1) - 1] == s[s.len() - k - 1]);
        }
        lemma_trail_len_at(t, cls, k - 1);
        assert(in_class(s.last(), cls));
    }
}

/// The leading run of class characters is exactly what `lead_len` counts.
pub proof fn lemma_lead_len_props(s: Seq<char>, cls: CharClass)
    ensures
        lead_len(s, cls) <= s.len(),
        forall|j: int| 0 <= j < lead_len(s, cls) ==> in_class(#[trigger] s[j], cls),
        lead_len(s, cls) < s.len() ==> !in_class(s[lead_len(s, cls) as int], cls),
    decreases s.len(),
{
    if s.len() > 0 && in_class(s[0], cls) {
        let t = s.drop_first();
        lemma_lead_len_props(t, cls);
        assert forall|j: int| 0 <= j < lead_len(s, cls) implies in_class(#[trigger] s[j], cls) by {
            if j > 0 {
                assert(s[j] == t[j - 1]);
            }
        }
        if lead_len(s, cls) < s.len() {
            assert(s[lead_len(s, cls) as int] == t[lead_len(t, cls) as int]);
        }
    }
}

pub proof fn lemma_trail_len_props(s: Seq<char>, cls: CharClass)
    ensures
        trail_len(s, cls) <= s.len(),
        forall|j: int|
            s.len() - trail_len(s, cls) <= j < s.len() ==> in_class(#[trigger] s[j], cls),
        trail_len(s, cls) < s.len() ==> !in_class(s[s.len() - trail_len(s, cls) - 1], cls),
    decreases s.len(),
{
    if s.len() > 0 && in_class(s.last(), cls) {
        let t = s.drop_last();
        lemma_trail_len_props(t, cls);
        assert forall|j: int| s.len() - trail_len(s, cls) <= j < s.len() implies in_class(
            #[trigger] s[j],
            cls,
        ) by {
            if j < s.len() - 1 {
                assert(s[j] == t[j]);
            }
        }
        if trail_len(s, cls) < s.len() {
            assert(s[s.len() - trail_len(s, cls) - 1] == t[t.len() - trail_len(t, cls) - 1]);
        }
    }
}

pub proof fn lemma_digits_value_push(s: Seq<char>, c: char)
    ensures
        digits_value(s.push(c)) == digits_value(s) * 10 + ((c as nat) - 48) as nat,
{
    assert(s.push(c).drop_last() =~= s);
}

pub proof fn lemma_decimal_digits(n: nat)
    ensures
        all_digits(decimal(n)),
        decimal(n).len() >= 1,
        digits_value(decimal(n)) == n,
        decimal(n)[0] != '0' || n == 0,
    decreases n,
{
    if n >= 10 {
        lemma_decimal_digits(n / 10);
        let p = decimal(n / 10);
        lemma_digits_value_push(p, digit_char(n % 10));
        assert(decimal(n) == p.push(digit_char(n % 10)));
        assert((digit_char(n % 10) as nat) == n % 10 + 48);
        assert(n == (n / 10) * 10 + n % 10);
        let d = ((digit_char(n % 10) as nat) - 48) as nat;
        assert(d == n % 10);
        assert(digits_value(decimal(n)) == digits_value(p) * 10 + d);
        assert(digits_value(p) == n / 10);
        assert(decimal(n)[0] == p[0]);
    } else {
        assert(decimal(n).drop_last() =~= Seq::<char>::empty());
        assert((digit_char(n) as nat) == n + 48);
        assert(digits_value(decimal(n)) == digits_value(decimal(n).drop_last()) * 10 + ((decimal(n).last() as nat) - 48) as nat);
    }
}

pub proof fn lemma_pow10_positive(d: nat)
    ensures
        pow10(d) >= 1,
    decreases d,
{
    if d > 0 {
        lemma_pow10_positive((d - 1) as nat);
    }
}

pub proof fn lemma_pow10_monotone(a: nat, b: nat)
    requires
        a <= b,
    ensures
        pow10(a) <= pow10(b),
    decreases b,
{
    lemma_pow10_positive(b);
    if a < b {
        lemma_pow10_monotone(a, (b - 1) as nat);
    }
}

/// A decimal with `k` digits is below `10^k`.
pub proof fn lemma_decimal_len_bound(n: nat, k: nat)
    requires
        decimal(n).len() == k,
    ensures
        n < pow10(k),
    decreases n,
{
    assert(pow10(1) == 10) by {
        assert(pow10(0) == 1);
    }
    if n >= 10 {
        lemma_decimal_len_bound(n / 10, (k - 1) as nat);
        assert(pow10(k) == 10 * pow10((k - 1) as nat));
        assert(n < 10 * (n / 10 + 1));
    }
}

/// Values below `10^k` have at most `k` digits (for `k >= 1`).
pub proof fn lemma_decimal_len_upper(n: nat, k: nat)
    requires
        k >= 1,
        n < pow10(k),
    ensures
        decimal(n).len() <= k,
    decreases n,
{
    if n >= 10 {
        assert(k >= 2) by {
            if k == 1 {
                assert(pow10(1) == 10 * pow10(0));
            }
        }
        assert(n / 10 < pow10((k - 1) as nat)) by {
            assert(pow10(k) == 10 * pow10((k - 1) as nat));
        }
        lemma_decimal_len_upper(n / 10, (k - 1) as nat);
    }
}

// ----- executable helpers -----

pub fn char_in_class(c: char, cls: CharClass) -> (b: bool)
    ensures
        b == in_class(c, cls),
{
    match cls {
        CharClass::Whitespace => {
            let u = c as u32;
            (0x09 <= u && u <= 0x0D) || u == 0x20 || u == 0x85 || u == 0xA0 || u == 0x1680 || (
            0x2000 <= u && u <= 0x200A) || u == 0x2028 || u == 0x2029 || u == 0x202F || u
                == 0x205F || u == 0x3000
        },
        CharClass::Exactly(x) => c == x,
        CharClass::Except(x) => c != x,
    }
}

/// The characters of `s`, in order.
pub fn chars_of(s: &str) -> (v: Vec<char>)
    ensures
        v@ == s@,
{
    let mut v: Vec<char> = Vec::new();
    for c in it: s.chars()
        invariant
            v@ == it.seq().take(it.index() as int),
    {
        v.push(c);
    }
    v
}

/// Appends `c` to `s` (`String::push`).
#[verifier::external_body]
pub(crate) fn push_char(s: &mut String, c: char)
    ensures
        final(s)@ == old(s)@.push(c),
{
    s.push(c);
}

/// Appends the characters of `v[from..to]` to `s`.
pub fn push_chars(s: &mut String, v: &Vec<char>, from: usize, to: usize)
    requires
        from <= to <= v.len(),
    ensures
        final(s)@ == old(s)@ + v@.subrange(from as int, to as int),
{
    let mut i = from;
    while i < to
        invariant
            from <= i <= to <= v.len(),
            s@ == old(s)@ + v@.subrange(from as int, i as int),
        decreases to - i,
    {
        push_char(s, v[i]);
        i += 1;
        assert(s@ =~= old(s)@ + v@.subrange(from as int, i as int));
    }
}

/// A `String` holding `v[from..to]`.
pub fn string_of(v: &Vec<char>, from: usize, to: usize) -> (s: String)
    requires
        from <= to <= v.len(),
    ensures
        s@ == v@.subrange(from as int, to as int),
{
    let mut s = String::new();
    push_chars(&mut s, v, from, to);
    assert(s@ =~= v@.subrange(from as int, to as int));
    s
}

/// Appends all of `t` to `s`.
pub fn push_str(s: &mut String, t: &str)
    ensures
        final(s)@ == old(s)@ + t@,
{
    s.append(t);
}

/// Index of the first character of `v[from..to]` not in `cls`, or `to`.
pub fn skip_class(v: &Vec<char>, from: usize, to: usize, cls: CharClass) -> (k: usize)
    requires
        from <= to <= v.len(),
    ensures
        from <= k <= to,
        k - from == lead_len(v@.subrange(from as int, to as int), cls),
{
    let mut i = from;
    while i < to && char_in_class(v[i], cls)
        invariant
            from <= i <= to <= v.len(),
            forall|j: int| from <= j < i ==> in_class(#[trigger] v@[j], cls),
        decreases to - i,
    {
        i += 1;
    }
    proof {
        let s = v@.subrange(from as int, to as int);
        assert forall|j: int| 0 <= j < i - from implies in_class(#[trigger] s[j], cls) by {
            assert(s[j] == v@[from + j]);
        }
        if i < to {
            assert(s[i - from] == v@[i as int]);
        }
        lemma_lead_len_at(s, cls, i - from);
    }
    i
}

/// Index just past the last character of `v[from..to]` not in `cls`, or `from`.
pub fn skip_class_back(v: &Vec<char>, from: usize, to: usize, cls: CharClass) -> (k: usize)
    requires
        from <= to <= v.len(),
    ensures
        from <= k <= to,
        to - k == trail_len(v@.subrange(from as int, to as int), cls),
{
    let mut i = to;
    while i > from && char_in_class(v[i - 1], cls)
        invariant
            from <= i <= to <= v.len(),
            forall|j: int| i <= j < to ==> in_class(#[trigger] v@[j], cls),
        decreases i - from,
    {
        i -= 1;
    }
    proof {
        let s = v@.subrange(from as int, to as int);
        assert forall|j: int| s.len() - (to - i) <= j < s.len() implies in_class(
            #[trigger] s[j],
            cls,
        ) by {
            assert(s[j] == v@[from + j]);
        }
        if i > from {
            assert(s[s.len() - (to - i) - 1] == v@[i - 1]);
        }
        lemma_trail_len_at(s, cls, (to - i) as int);
    }
    i
}

/// Bounds `(a, b)` of `v[from..to]` with both ends of class `cls` cut off.
pub fn trim_range(v: &Vec<char>, from: usize, to: usize, cls: CharClass) -> (r: (usize, usize))
    requires
        from <= to <= v.len(),
    ensures
        from <= r.0 <= r.1 <= to,
        v@.subrange(r.0 as int, r.1 as int) == trim_both(
            v@.subrange(from as int, to as int),
            cls,
        ),
{
    let a = skip_class(v, from, to, cls);
    let b = skip_class_back(v, a, to, cls);
    proof {
        let s = v@.subrange(from as int, to as int);
        let t = trim_start(s, cls);
        assert(t =~= v@.subrange(a as int, to as int));
        assert(trim_end(t, cls) =~= v@.subrange(a as int, b as int));
    }
    (a, b)
}

/// The decimal digit character for `d`.
pub fn digit_to_char(d: u64) -> (c: char)
    requires
        d < 10,
    ensures
        c == digit_char(d as nat),
{
    match d {
        0 => '0',
        1 => '1',
        2 => '2',
        3 => '3',
        4 => '4',
        5 => '5',
        6 => '6',
        7 => '7',
        8 => '8',
        _ => '9',
    }
}

/// Appends the decimal representation of `n` to `s`.
pub fn push_decimal(s: &mut String, n: u64)
    ensures
        final(s)@ == old(s)@ + decimal(n as nat),
    decreases n,
{
    if n < 10 {
        push_char(s, digit_to_char(n));
        assert(s@ =~= old(s)@ + decimal(n as nat));
    } else {
        push_decimal(s, n / 10);
        push_char(s, digit_to_char(n % 10));
        assert(s@ =~= old(s)@ + decimal(n as nat));
    }
}

/// The decimal representation of `n` as a `String` (`u64::to_string`).
pub fn u64_to_decimal(n: u64) -> (s: String)
    ensures
        s@ == decimal(n as nat),
{
    let mut s = String::new();
    push_decimal(&mut s, n);
    assert(s@ =~= decimal(n as nat));
    s
}

/// The decimal representation of `n` with a leading `-` when negative (`i64::to_string`).
pub fn i64_to_decimal(n: i64) -> (s: String)
    ensures
        s@ == int_decimal(n as int),
{
    if n < 0 {
        let mut s = String::new();
        push_char(&mut s, '-');
        let m: u64 = if n == i64::MIN {
            9223372036854775808u64
        } else {
            (-n) as u64
        };
        push_decimal(&mut s, m);
        assert(s@ =~= int_decimal(n as int));
        s
    } else {
        u64_to_decimal(n as u64)
    }
}

/// Whether every character of `v[from..to]` is an ASCII digit.
pub fn all_digits_in(v: &Vec<char>, from: usize, to: usize) -> (b: bool)
    requires
        from <= to <= v.len(),
    ensures
        b == all_digits(v@.subrange(from as int, to as int)),
{
    let mut i = from;
    while i < to
        invariant
            from <= i <= to <= v.len(),
            forall|j: int| from <= j < i ==> is_ascii_digit(#[trigger] v@[j]),
        decreases to - i,
    {
        if !('0' <= v[i] && v[i] <= '9') {
            assert(!is_ascii_digit(v@.subrange(from as int, to as int)[i - from]));
            return false;
        }
        i += 1;
    }
    proof {
        let s = v@.subrange(from as int, to as int);
        assert forall|j: int| 0 <= j < s.len() implies is_ascii_digit(#[trigger] s[j]) by {
            assert(s[j] == v@[from + j]);
        }
    }
    true
}

/// The value of the digit string `v[from..to]` if it fits in an `i64`.
pub fn digits_to_i64(v: &Vec<char>, from: usize, to: usize) -> (r: Option<i64>)
    requires
        from <= to <= v.len(),
        all_digits(v@.subrange(from as int, to as int)),
    ensures
        r is Some <==> digits_value(v@.subrange(from as int, to as int)) <= i64::MAX,
        r matches Some(x) ==> x == digits_value(v@.subrange(from as int, to as int)),
{
    let mut acc: i64 = 0;
    let mut i = from;
    while i < to
        invariant
            from <= i <= to <= v.len(),
            all_digits(v@.subrange(from as int, to as int)),
            acc == digits_value(v@.subrange(from as int, i as int)),
        decreases to - i,
    {
        let ghost pre = v@.subrange(from as int, i as int);
        assert(is_ascii_digit(v@.subrange(from as int, to as int)[i - from]));
        assert(v@.subrange(from as int, to as int)[i - from] == v@[i as int]);
        let d = (v[i] as u32 - 48) as i64;
        assert(v@.subrange(from as int, i + 1) =~= pre.push(v@[i as int]));
        proof {
            lemma_digits_value_push(pre, v@[i as int]);
        }
        match acc.checked_mul(10) {
            Some(m) => match m.checked_add(d) {
                Some(a) => {
                    acc = a;
                },
                None => {
                    proof {
                        lemma_digits_value_prefix_le(v@.subrange(from as int, to as int), i + 1 - from);
                        assert(v@.subrange(from as int, to as int).take(i + 1 - from) =~= v@.subrange(from as int, i + 1));
                    }
                    return None;
                },
            },
            None => {
                proof {
                    lemma_digits_value_prefix_le(v@.subrange(from as int, to as int), i + 1 - from);
                    assert(v@.subrange(from as int, to as int).take(i + 1 - from) =~= v@.subrange(from as int, i + 1));
                }
                return None;
            },
        }
        i += 1;
    }
    Some(acc)
}

/// The value of a digit string is at least that of each of its prefixes.
pub proof fn lemma_digits_value_prefix_le(s: Seq<char>, k: int)
    requires
        0 <= k <= s.len(),
        all_digits(s),
    ensures
        digits_value(s.take(k)) <= digits_value(s),
    decreases s.len() - k,
{
    if k < s.len() {
        let p = s.take(k + 1);
        lemma_digits_value_prefix_le(s, k + 1);
        assert(p.drop_last() =~= s.take(k));
        assert(p.last() == s[k]);
        assert(is_ascii_digit(s[k]));
        assert(digits_value(p) == digits_value(s.take(k)) * 10 + ((s[k] as nat) - 48) as nat);
    } else {
        assert(s.take(k) =~= s);
    }
}

} // verus!
