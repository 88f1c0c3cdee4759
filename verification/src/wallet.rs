//! Solana wallet keys: Ed25519 keypairs, their base58 public keys, the JSON keypair
//! file (`[secret..., public...]` as in the Solana CLI's `id.json`), and signing.
use base64::Engine;
use ed25519_dalek::Signer;
use vstd::prelude::*;

use crate::text::{decimal, lemma_decimal_digits, push_char, push_decimal};

verus! {

/// The Ed25519 public key of the 32-byte secret key `secret` (`ed25519_dalek`).
pub uninterp spec fn ed25519_public_key(secret: Seq<u8>) -> Seq<u8>;

/// The Ed25519 signature of `message` under the 32-byte secret key `secret`.
pub uninterp spec fn ed25519_signature(secret: Seq<u8>, message: Seq<u8>) -> Seq<u8>;

/// `b ^ e`.
pub open spec fn power(b: nat, e: nat) -> nat
    decreases e,
{
    if e == 0 {
        1
    } else {
        b * power(b, (e - 1) as nat)
    }
}

/// The value of `bytes` read as a big-endian number.
pub open spec fn big_endian_value(bytes: Seq<u8>) -> nat
    decreases bytes.len(),
{
    if bytes.len() == 0 {
        0
    } else {
        big_endian_value(bytes.drop_last()) * 256 + bytes.last() as nat
    }
}

/// The base-58 digits of `n`, most significant first, with no leading zero (none for 0).
pub open spec fn base58_digits(n: nat) -> Seq<nat>
    decreases n,
{
    if n == 0 {
        Seq::empty()
    } else {
        base58_digits(n / 58).push(n % 58)
    }
}

/// The number of leading zero bytes of `bytes`.
pub open spec fn leading_zero_bytes(bytes: Seq<u8>) -> nat
    decreases bytes.len(),
{
    if bytes.len() > 0 && bytes[0] == 0 {
        1 + leading_zero_bytes(bytes.drop_first())
    } else {
        0
    }
}

/// The Bitcoin base58 alphabet.
pub open spec fn base58_char(d: nat) -> char {
    "123456789ABCDEFGHJKLMNPQRSTUVWXYZabcdefghijkmnopqrstuvwxyz"@[d as int]
}

/// The base58 text of `bytes` with the Bitcoin alphabet: one `1` for each leading zero
/// byte, then the base-58 digits of the bytes' big-endian value.
pub open spec fn base58_text(bytes: Seq<u8>) -> Seq<char> {
    Seq::new(leading_zero_bytes(bytes), |i: int| '1') + base58_digits(
        big_endian_value(bytes),
    ).map_values(|d: nat| base58_char(d))
}

/// The base64 text of `bytes` with the standard alphabet and padding.
pub uninterp spec fn base64_standard_text(bytes: Seq<u8>) -> Seq<char>;

/// The bytes that `serde_json` reads from `text` as a `Vec<u8>`, or `None` where it
/// refuses the text.
pub uninterp spec fn json_byte_array(text: Seq<char>) -> Option<Seq<u8>>;

// ----- the length of a base58 text -----

proof fn lemma_power_positive(b: nat, e: nat)
    requires
        b >= 1,
    ensures
        power(b, e) >= 1,
    decreases e,
{
    if e > 0 {
        lemma_power_positive(b, (e - 1) as nat);
        assert(b * power(b, (e - 1) as nat) >= 1) by (nonlinear_arith)
            requires
                b >= 1,
                power(b, (e - 1) as nat) >= 1,
        ;
    }
}

proof fn lemma_power_monotone(b: nat, e1: nat, e2: nat)
    requires
        b >= 1,
        e1 <= e2,
    ensures
        power(b, e1) <= power(b, e2),
    decreases e2,
{
    if e1 < e2 {
        lemma_power_monotone(b, e1, (e2 - 1) as nat);
        lemma_power_positive(b, (e2 - 1) as nat);
        let p = power(b, (e2 - 1) as nat);
        assert(p <= b * p) by (nonlinear_arith)
            requires
                b >= 1,
                p >= 1,
        ;
    }
}

proof fn lemma_power_58_le_256(k: nat)
    ensures
        power(58, k) <= power(256, k),
    decreases k,
{
    if k > 0 {
        lemma_power_58_le_256((k - 1) as nat);
        let a = power(58, (k - 1) as nat);
        let c = power(256, (k - 1) as nat);
        assert(58 * a <= 256 * c) by (nonlinear_arith)
            requires
                a <= c,
        ;
    }
}

/// `256^m <= 58^(m + 12)` for the lengths of a 32-byte key.
proof fn lemma_power_256_le_58(m: nat)
    requires
        m <= 32,
    ensures
        power(256, m) <= power(58, m + 12),
    decreases 32 - m,
{
    if m == 32 {
        reveal_with_fuel(power, 45);
        assert(power(256, 32) == 115792089237316195423570985008687907853269984665640564039457584007913129639936nat);
        assert(power(58, 44) == 389790918707373377135528568990913592653094657612049369038476873218241589149696nat);
    } else {
        lemma_power_256_le_58(m + 1);
        let a = power(256, m);
        let c = power(58, m + 12);
        assert(power(256, m + 1) == 256 * a);
        assert(power(58, m + 13) == 58 * c);
        assert(a <= c) by (nonlinear_arith)
            requires
                256 * a <= 58 * c,
        ;
    }
}

/// A big-endian value is below `256^len`.
proof fn lemma_big_endian_value_bound(b: Seq<u8>)
    ensures
        big_endian_value(b) < power(256, b.len()),
    decreases b.len(),
{
    if b.len() > 0 {
        let p = b.drop_last();
        lemma_big_endian_value_bound(p);
        let v = big_endian_value(p);
        let q = power(256, p.len());
        let l = b.last() as nat;
        assert(v * 256 + l < q * 256) by (nonlinear_arith)
            requires
                v < q,
                l < 256,
        ;
    }
}

/// The first byte weighs `256^(len - 1)`.
proof fn lemma_big_endian_value_head(b: Seq<u8>)
    requires
        b.len() >= 1,
    ensures
        big_endian_value(b) == b[0] as nat * power(256, (b.len() - 1) as nat) + big_endian_value(
            b.drop_first(),
        ),
    decreases b.len(),
{
    if b.len() == 1 {
        assert(big_endian_value(b.drop_last()) == 0);
        assert(big_endian_value(b.drop_first()) == 0);
        assert(b.last() == b[0]);
        assert(power(256, 0) == 1);
        let p0 = power(256, 0);
        assert(b[0] as nat * p0 == b[0] as nat) by (nonlinear_arith)
            requires
                p0 == 1,
        ;
        assert(big_endian_value(b) == big_endian_value(b.drop_last()) * 256 + b.last() as nat);
    } else {
        let p = b.drop_last();
        lemma_big_endian_value_head(p);
        assert(p.drop_first() =~= b.drop_first().drop_last());
        assert(p[0] == b[0]);
        assert(b.drop_first().last() == b.last());
        let x = b[0] as nat;
        let w = power(256, (p.len() - 1) as nat);
        let r = big_endian_value(p.drop_first());
        assert(power(256, (b.len() - 1) as nat) == 256 * w);
        assert(big_endian_value(b) == big_endian_value(p) * 256 + b.last() as nat);
        assert(big_endian_value(p) == x * w + r);
        assert(big_endian_value(b.drop_first()) == r * 256 + b.last() as nat);
        assert((x * w + r) * 256 + b.last() as nat == x * (256 * w) + (r * 256
            + b.last() as nat)) by (nonlinear_arith);
        let pw = power(256, (b.len() - 1) as nat);
        assert(x * pw == x * (256 * w)) by (nonlinear_arith)
            requires
                pw == 256 * w,
        ;
    }
}

/// Leading zero bytes add nothing to the value, and the byte after them is not zero.
proof fn lemma_leading_zero_bytes(b: Seq<u8>)
    ensures
        leading_zero_bytes(b) <= b.len(),
        big_endian_value(b) == big_endian_value(b.skip(leading_zero_bytes(b) as int)),
        leading_zero_bytes(b) < b.len() ==> b[leading_zero_bytes(b) as int] != 0,
    decreases b.len(),
{
    if b.len() > 0 && b[0] == 0 {
        let t = b.drop_first();
        lemma_leading_zero_bytes(t);
        lemma_big_endian_value_head(b);
        assert(b.skip(leading_zero_bytes(b) as int) =~= t.skip(leading_zero_bytes(t) as int));
        if leading_zero_bytes(b) < b.len() {
            assert(b[leading_zero_bytes(b) as int] == t[leading_zero_bytes(t) as int]);
        }
    } else {
        assert(b.skip(0) =~= b);
    }
}

/// `n` has `len` base-58 digits exactly when `58^(len - 1) <= n < 58^len` (or both are 0).
proof fn lemma_base58_digits_len(n: nat)
    ensures
        n < power(58, base58_digits(n).len()),
        n > 0 ==> base58_digits(n).len() >= 1 && power(58, (base58_digits(n).len() - 1) as nat)
            <= n,
    decreases n,
{
    if n > 0 {
        let m = n / 58;
        lemma_base58_digits_len(m);
        let d = base58_digits(m).len();
        assert(base58_digits(n).len() == d + 1);
        let p = power(58, d);
        assert(n < 58 * p) by (nonlinear_arith)
            requires
                m < p,
                m == n / 58,
        ;
        if m > 0 {
            let q = power(58, (d - 1) as nat);
            assert(p == 58 * q);
            assert(58 * q <= n) by (nonlinear_arith)
                requires
                    q <= m,
                    m == n / 58,
            ;
        }
    }
}

/// The base58 text of a 32-byte key has from 32 to 44 characters.
pub proof fn lemma_base58_text_len_32(b: Seq<u8>)
    requires
        b.len() == 32,
    ensures
        32 <= base58_text(b).len() <= 44,
{
    lemma_leading_zero_bytes(b);
    let z = leading_zero_bytes(b);
    let c = b.skip(z as int);
    let m: nat = (32 - z) as nat;
    let v = big_endian_value(b);
    assert(v == big_endian_value(c));
    lemma_base58_digits_len(v);
    let d = base58_digits(v).len();
    assert(base58_text(b).len() == z + d);
    lemma_big_endian_value_bound(c);
    lemma_power_256_le_58(m);
    if d > m + 12 {
        lemma_power_monotone(58, m + 12, (d - 1) as nat);
        assert(false);
    }
    if z < 32 {
        lemma_big_endian_value_head(c);
        assert(c[0] == b[z as int]);
        let w = power(256, (m - 1) as nat);
        lemma_power_positive(256, (m - 1) as nat);
        assert(c[0] as nat * w >= w) by (nonlinear_arith)
            requires
                c[0] as nat >= 1,
                w >= 1,
        ;
        if d < m {
            lemma_power_monotone(58, d, (m - 1) as nat);
            lemma_power_58_le_256((m - 1) as nat);
            assert(false);
        }
    }
}

/// Builds `ed25519_dalek::SigningKey::from_bytes(secret)` and reads its verifying key's
/// bytes. Claimed: 32 bytes, `ed25519_public_key(secret)`.
#[verifier::external_body]
fn public_key_of_secret(secret: &Vec<u8>) -> (p: Vec<u8>)
    requires
        secret.len() == 32,
    ensures
        p@ == ed25519_public_key(secret@),
        p.len() == 32,
{
    let bytes: [u8; 32] = secret.as_slice().try_into().unwrap();
    ed25519_dalek::SigningKey::from_bytes(&bytes).verifying_key().to_bytes().to_vec()
}

/// Signs `message` with `ed25519_dalek::SigningKey::from_bytes(secret)` (`Signer::sign`)
/// and gives the signature's bytes. Claimed: 64 bytes, `ed25519_signature(secret, message)`
/// (Ed25519 signing is deterministic).
#[verifier::external_body]
fn sign_with_secret(secret: &Vec<u8>, message: &[u8]) -> (s: Vec<u8>)
    requires
        secret.len() == 32,
    ensures
        s@ == ed25519_signature(secret@, message@),
        s.len() == 64,
{
    let bytes: [u8; 32] = secret.as_slice().try_into().unwrap();
    ed25519_dalek::SigningKey::from_bytes(&bytes).sign(message).to_bytes().to_vec()
}

/// A fresh secret key from `ed25519_dalek::SigningKey::generate` with the operating
/// system's random source (`rand::rngs::OsRng`). Claimed: 32 bytes; nothing else, the
/// bytes are random.
#[verifier::external_body]
fn random_secret_key() -> (s: Vec<u8>)
    ensures
        s.len() == 32,
{
    ed25519_dalek::SigningKey::generate(&mut rand::rngs::OsRng).to_bytes().to_vec()
}

/// `bs58::encode(bytes).into_string()`. Claimed: `base58_text(bytes)`, the text the
/// crate's `encode_into` builds: it accumulates the base-58 digits of the big-endian value,
/// adds a zero digit for each leading zero byte, maps digits through the Bitcoin alphabet
/// and reverses.
#[verifier::external_body]
fn base58_encode(bytes: &[u8]) -> (s: String)
    ensures
        s@ == base58_text(bytes@),
{
    bs58::encode(bytes).into_string()
}

/// `base64::engine::general_purpose::STANDARD.encode(bytes)`. Claimed:
/// `base64_standard_text(bytes)`. Inputs so long that the encoded length overflows
/// (where base64 panics) are excluded.
#[verifier::external_body]
fn base64_standard_encode(bytes: &[u8]) -> (s: String)
    requires
        bytes.len() <= usize::MAX / 2,
    ensures
        s@ == base64_standard_text(bytes@),
{
    base64::engine::general_purpose::STANDARD.encode(bytes)
}

/// `text` as a JSON array of byte values: `[` and `]` around the decimal values,
/// separated by `,` (what `serde_json::to_string` writes for a `Vec<u8>`).
pub open spec fn json_byte_list(bytes: Seq<u8>) -> Seq<char> {
    seq!['['] + json_byte_items(bytes) + seq![']']
}

pub open spec fn json_byte_items(bytes: Seq<u8>) -> Seq<char>
    decreases bytes.len(),
{
    if bytes.len() == 0 {
        Seq::empty()
    } else if bytes.len() == 1 {
        decimal(bytes[0] as nat)
    } else {
        json_byte_items(bytes.drop_last()) + seq![','] + decimal(bytes.last() as nat)
    }
}

pub open spec fn is_json_byte_list(text: Seq<char>) -> bool {
    exists|b: Seq<u8>| text == json_byte_list(b)
}

/// Reads `text` with `serde_json::from_str::<Vec<u8>>`. Claimed: success and the bytes
/// are as `json_byte_array` says, and a JSON array of byte values such as
/// `json_byte_list` writes is read back as those bytes. serde_json's error message is
/// left unsaid.
#[verifier::external_body]
fn parse_json_byte_array(text: &str) -> (r: Result<Vec<u8>, String>)
    ensures
        r is Ok <==> json_byte_array(text@) is Some,
        r matches Ok(v) ==> json_byte_array(text@) == Some(v@),
        is_json_byte_list(text@) ==> (r is Ok && text@ == json_byte_list(r->Ok_0@)),
{
    serde_json::from_str::<Vec<u8>>(text).map_err(|e| e.to_string())
}

/// An Ed25519 keypair as a Solana wallet holds it.
#[derive(Debug)]
pub struct SolanaKeypair {
    /// The 32-byte secret key.
    pub secret: Vec<u8>,
    /// The 32-byte public key.
    pub public: Vec<u8>,
}

impl SolanaKeypair {
    /// The public key belongs to the secret key.
    pub open spec fn wf(&self) -> bool {
        &&& self.secret.len() == 32
        &&& self.public.len() == 32
        &&& self.public@ == ed25519_public_key(self.secret@)
    }
}

/// The keypair of a 32-byte secret key.
pub fn keypair_from_secret(secret: Vec<u8>) -> (kp: SolanaKeypair)
    requires
        secret.len() == 32,
    ensures
        kp.wf(),
        kp.secret@ == secret@,
{
    let public = public_key_of_secret(&secret);
    SolanaKeypair { secret, public }
}

/// A new keypair from a random secret key.
pub fn generate_keypair() -> (kp: SolanaKeypair)
    ensures
        kp.wf(),
{
    keypair_from_secret(random_secret_key())
}

/// The wallet address: the public key in base58.
pub fn pubkey_base58(kp: &SolanaKeypair) -> (s: String)
    ensures
        s@ == base58_text(kp.public@),
        kp.public.len() == 32 ==> 32 <= s@.len() <= 44,
{
    proof {
        if kp.public.len() == 32 {
            lemma_base58_text_len_32(kp.public@);
        }
    }
    base58_encode(kp.public.as_slice())
}

/// The 64 bytes of the keypair file: secret key then public key.
pub fn keypair_bytes(kp: &SolanaKeypair) -> (b: Vec<u8>)
    ensures
        b@ == kp.secret@ + kp.public@,
{
    let mut b: Vec<u8> = Vec::new();
    let mut i: usize = 0;
    while i < kp.secret.len()
        invariant
            i <= kp.secret.len(),
            b@ == kp.secret@.take(i as int),
        decreases kp.secret.len() - i,
    {
        b.push(kp.secret[i]);
        i += 1;
        assert(b@ =~= kp.secret@.take(i as int));
    }
    let mut j: usize = 0;
    assert(kp.secret@.take(kp.secret.len() as int) =~= kp.secret@);
    while j < kp.public.len()
        invariant
            j <= kp.public.len(),
            b@ == kp.secret@ + kp.public@.take(j as int),
        decreases kp.public.len() - j,
    {
        b.push(kp.public[j]);
        j += 1;
        assert(b@ =~= kp.secret@ + kp.public@.take(j as int));
    }
    assert(kp.public@.take(kp.public.len() as int) =~= kp.public@);
    b
}

/// `bytes` as a JSON array (what `serde_json::to_string` writes for a `Vec<u8>`).
pub fn json_of_bytes(bytes: &Vec<u8>) -> (s: String)
    ensures
        s@ == json_byte_list(bytes@),
{
    let mut s = String::new();
    push_char(&mut s, '[');
    let mut i: usize = 0;
    while i < bytes.len()
        invariant
            i <= bytes.len(),
            s@ == seq!['['] + json_byte_items(bytes@.take(i as int)),
        decreases bytes.len() - i,
    {
        if i > 0 {
            push_char(&mut s, ',');
        }
        push_decimal(&mut s, bytes[i] as u64);
        proof {
            let t = bytes@.take(i + 1 as int);
            assert(t.drop_last() =~= bytes@.take(i as int));
            if i == 0 {
                assert(json_byte_items(bytes@.take(0)) =~= Seq::<char>::empty());
            }
        }
        i += 1;
        assert(s@ =~= seq!['['] + json_byte_items(bytes@.take(i as int)));
    }
    push_char(&mut s, ']');
    assert(bytes@.take(bytes.len() as int) =~= bytes@);
    assert(s@ =~= json_byte_list(bytes@));
    s
}

/// The text of the keypair file for `kp`: its 64 bytes as a JSON array.
pub fn keypair_file_json(kp: &SolanaKeypair) -> (s: String)
    ensures
        s@ == json_byte_list(kp.secret@ + kp.public@),
{
    let b = keypair_bytes(kp);
    json_of_bytes(&b)
}

/// Why a keypair file was refused.
#[derive(Debug)]
pub enum KeypairError {
    /// Not a JSON array of bytes (serde_json's message).
    InvalidJson(String),
    /// A JSON array of bytes, but not 64 of them (the count).
    WrongLength(usize),
}

/// What loading a keypair file gives: the secret key (its first 32 bytes; the public key
/// is derived from it again), or why the file is refused.
pub open spec fn keypair_file_secret(text: Seq<char>) -> Result<Seq<u8>, Option<nat>> {
    match json_byte_array(text) {
        None => Err(None),
        Some(b) => if b.len() == 64 {
            Ok(b.take(32))
        } else {
            Err(Some(b.len()))
        },
    }
}

/// Loads a keypair from the text of a keypair file: a JSON array of 64 bytes, the secret
/// key then the public key; the public key is derived from the secret key again.
/// A file written by `keypair_file_json` loads back as the same keypair.
pub fn keypair_from_json(data: &str) -> (r: Result<SolanaKeypair, KeypairError>)
    ensures
        match keypair_file_secret(data@) {
            Ok(s) => r matches Ok(kp) && kp.wf() && kp.secret@ == s,
            Err(None) => r matches Err(KeypairError::InvalidJson(_)),
            Err(Some(n)) => r matches Err(KeypairError::WrongLength(m)) && m == n,
        },
        forall|b: Seq<u8>|
            b.len() == 64 && #[trigger] json_byte_list(b) == data@ ==> (r matches Ok(k)
                && k.secret@ == b.take(32)),
{
    let bytes = match parse_json_byte_array(data) {
        Ok(b) => b,
        Err(e) => {
            return Err(KeypairError::InvalidJson(e));
        },
    };
    proof {
        assert forall|b: Seq<u8>|
            b.len() == 64 && #[trigger] json_byte_list(b) == data@ implies bytes@ == b by {
            assert(is_json_byte_list(data@));
            lemma_json_byte_list_injective(bytes@, b);
        }
    }
    if bytes.len() != 64 {
        return Err(KeypairError::WrongLength(bytes.len()));
    }
    let mut secret: Vec<u8> = Vec::new();
    let mut i: usize = 0;
    while i < 32
        invariant
            i <= 32,
            bytes.len() == 64,
            secret@ == bytes@.take(i as int),
        decreases 32 - i,
    {
        secret.push(bytes[i]);
        i += 1;
        assert(secret@ =~= bytes@.take(i as int));
    }
    proof {
        assert forall|b: Seq<u8>|
            b.len() == 64 && #[trigger] json_byte_list(b) == data@ implies secret@ == b.take(32) by {
            assert(bytes@ == b);
            assert(bytes@.take(32) =~= secret@);
        }
    }
    Ok(keypair_from_secret(secret))
}

// ----- the JSON byte list is read back unambiguously -----

proof fn lemma_decimal_no_comma(n: nat)
    ensures
        forall|i: int| 0 <= i < decimal(n).len() ==> #[trigger] decimal(n)[i] != ',',
{
    lemma_decimal_digits(n);
}

proof fn lemma_decimal_injective(a: nat, b: nat)
    requires
        decimal(a) == decimal(b),
    ensures
        a == b,
{
    lemma_decimal_digits(a);
    lemma_decimal_digits(b);
}

/// The items of a list of two or more bytes are the items of all but the last, a comma,
/// and the last; a single item holds no comma.
proof fn lemma_items_shape(b: Seq<u8>)
    ensures
        b.len() == 1 ==> forall|i: int|
            0 <= i < json_byte_items(b).len() ==> #[trigger] json_byte_items(b)[i] != ',',
        b.len() >= 1 ==> json_byte_items(b).len() >= 1,
{
    if b.len() == 1 {
        lemma_decimal_no_comma(b[0] as nat);
        lemma_decimal_digits(b[0] as nat);
    } else if b.len() > 1 {
        lemma_decimal_digits(b.last() as nat);
    }
}

/// Splitting `x + [','] + d` at its last comma, where `d` holds no comma.
proof fn lemma_split_last_comma(x1: Seq<char>, d1: Seq<char>, x2: Seq<char>, d2: Seq<char>)
    requires
        x1 + seq![','] + d1 == x2 + seq![','] + d2,
        forall|i: int| 0 <= i < d1.len() ==> #[trigger] d1[i] != ',',
        forall|i: int| 0 <= i < d2.len() ==> #[trigger] d2[i] != ',',
    ensures
        x1 == x2,
        d1 == d2,
{
    let s = x1 + seq![','] + d1;
    let t = x2 + seq![','] + d2;
    assert(s == t);
    assert(s.len() == t.len());
    if d1.len() < d2.len() {
        let i = x1.len() as int;
        assert(s.len() == t.len());
        assert(x1.len() > x2.len());
        assert(s[i] == ',');
        let a2 = x2 + seq![','];
        assert(a2.len() == x2.len() + 1);
        assert(t == a2 + d2);
        assert(0 <= i - a2.len() < d2.len());
        assert(t[i] == d2[i - a2.len()]);
        assert(d2[i - x2.len() - 1] != ',');
    } else if d2.len() < d1.len() {
        let i = x2.len() as int;
        assert(s.len() == t.len());
        assert(x2.len() > x1.len());
        assert(t[i] == ',');
        let a1 = x1 + seq![','];
        assert(a1.len() == x1.len() + 1);
        assert(s == a1 + d1);
        assert(0 <= i - a1.len() < d1.len());
        assert(s[i] == d1[i - a1.len()]);
        assert(d1[i - x1.len() - 1] != ',');
    }
    assert(x1.len() == x2.len());
    assert(x1 =~= s.take(x1.len() as int));
    assert(x2 =~= s.take(x2.len() as int));
    assert(d1 =~= s.skip(x1.len() + 1 as int));
    assert(d2 =~= s.skip(x2.len() + 1 as int));
}

proof fn lemma_json_byte_items_injective(a: Seq<u8>, b: Seq<u8>)
    requires
        json_byte_items(a) == json_byte_items(b),
    ensures
        a == b,
    decreases a.len() + b.len(),
{
    lemma_items_shape(a);
    lemma_items_shape(b);
    if a.len() == 0 || b.len() == 0 {
        if a.len() != 0 || b.len() != 0 {
            assert(false);
        }
        assert(a =~= b);
    } else if a.len() == 1 && b.len() == 1 {
        lemma_decimal_injective(a[0] as nat, b[0] as nat);
        assert(a =~= b);
    } else if a.len() == 1 {
        let x = json_byte_items(b.drop_last());
        assert(json_byte_items(b)[x.len() as int] == ',');
        assert(false);
    } else if b.len() == 1 {
        let x = json_byte_items(a.drop_last());
        assert(json_byte_items(a)[x.len() as int] == ',');
        assert(false);
    } else {
        lemma_decimal_no_comma(a.last() as nat);
        lemma_decimal_no_comma(b.last() as nat);
        lemma_split_last_comma(
            json_byte_items(a.drop_last()),
            decimal(a.last() as nat),
            json_byte_items(b.drop_last()),
            decimal(b.last() as nat),
        );
        lemma_decimal_injective(a.last() as nat, b.last() as nat);
        lemma_json_byte_items_injective(a.drop_last(), b.drop_last());
        assert(a =~= a.drop_last().push(a.last()));
        assert(b =~= b.drop_last().push(b.last()));
    }
}

/// Two byte lists with the same JSON text are the same.
pub proof fn lemma_json_byte_list_injective(a: Seq<u8>, b: Seq<u8>)
    requires
        json_byte_list(a) == json_byte_list(b),
    ensures
        a == b,
{
    let la = json_byte_list(a);
    assert(json_byte_items(a) =~= la.subrange(1, la.len() - 1));
    assert(json_byte_items(b) =~= la.subrange(1, la.len() - 1));
    lemma_json_byte_items_injective(a, b);
}

/// The signature of `message` under the wallet's secret key.
pub fn sign_message(kp: &SolanaKeypair, message: &[u8]) -> (s: Vec<u8>)
    requires
        kp.wf(),
    ensures
        s@ == ed25519_signature(kp.secret@, message@),
        s.len() == 64,
{
    sign_with_secret(&kp.secret, message)
}

/// The signature of `message` under the wallet's secret key, in standard base64.
pub fn sign_message_base64(kp: &SolanaKeypair, message: &[u8]) -> (s: String)
    requires
        kp.wf(),
    ensures
        s@ == base64_standard_text(ed25519_signature(kp.secret@, message@)),
{
    let sig = sign_message(kp, message);
    base64_standard_encode(sig.as_slice())
}

} // verus!
