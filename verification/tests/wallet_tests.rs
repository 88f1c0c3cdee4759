use base64::Engine;
use ed25519_dalek::{Signature, Verifier, VerifyingKey};
use pipe_cli::wallet::{
    generate_keypair, json_of_bytes, keypair_bytes, keypair_file_json, keypair_from_json,
    keypair_from_secret, pubkey_base58, sign_message, sign_message_base64, KeypairError,
    SolanaKeypair,
};

#[test]
fn generate_and_load_roundtrip() {
    let generated = generate_keypair();
    let gen_pubkey = pubkey_base58(&generated);
    let json = keypair_file_json(&generated);

    let loaded = keypair_from_json(&json).unwrap();
    let load_pubkey = pubkey_base58(&loaded);
    assert_eq!(gen_pubkey, load_pubkey);
    assert_eq!(generated.secret, loaded.secret);
    assert_eq!(generated.public, loaded.public);
}

#[test]
fn generate_gives_a_new_key_each_time() {
    let k1 = generate_keypair();
    let k2 = generate_keypair();
    assert_ne!(pubkey_base58(&k1), pubkey_base58(&k2));
}

#[test]
fn load_rejects_wrong_length() {
    match keypair_from_json("[1,2,3]") {
        Err(KeypairError::WrongLength(n)) => assert_eq!(n, 3),
        other => panic!("unexpected: {other:?}"),
    }
}

#[test]
fn load_rejects_invalid_json() {
    assert!(matches!(keypair_from_json("not json"), Err(KeypairError::InvalidJson(_))));
    assert!(matches!(keypair_from_json("[1,2,256]"), Err(KeypairError::InvalidJson(_))));
}

#[test]
fn pubkey_is_valid_base58() {
    let kp = generate_keypair();
    let pubkey = pubkey_base58(&kp);
    assert!(pubkey.len() >= 32 && pubkey.len() <= 44);
    assert_eq!(bs58::decode(&pubkey).into_vec().unwrap(), kp.public);
}

#[test]
fn keypair_can_sign_and_verify() {
    let kp = generate_keypair();
    let message = b"test message for SIWS";
    let sig = sign_message(&kp, message);
    let verifying_key = VerifyingKey::from_bytes(&kp.public.clone().try_into().unwrap()).unwrap();
    let signature = Signature::from_bytes(&sig.clone().try_into().unwrap());
    assert!(verifying_key.verify_strict(message, &signature).is_ok());
    assert!(verifying_key.verify(b"another message", &signature).is_err());

    let b64 = sign_message_base64(&kp, message);
    assert_eq!(b64, base64::engine::general_purpose::STANDARD.encode(&sig));
}

#[test]
fn known_secret_gives_known_public_key() {
    let secret: Vec<u8> = (1u8..=32).collect();
    let kp = keypair_from_secret(secret.clone());
    let expected = ed25519_dalek::SigningKey::from_bytes(&secret.clone().try_into().unwrap())
        .verifying_key()
        .to_bytes()
        .to_vec();
    assert_eq!(kp.public, expected);
    assert_ne!(kp.public, secret);
    assert_eq!(pubkey_base58(&kp), bs58::encode(&expected).into_string());
}

#[test]
fn keypair_file_layout() {
    let secret: Vec<u8> = vec![7u8; 32];
    let kp = keypair_from_secret(secret);
    let bytes = keypair_bytes(&kp);
    assert_eq!(bytes.len(), 64);
    assert_eq!(&bytes[..32], &kp.secret[..]);
    assert_eq!(&bytes[32..], &kp.public[..]);
    let json = keypair_file_json(&kp);
    assert_eq!(json, serde_json::to_string(&bytes).unwrap());
    assert_eq!(json_of_bytes(&vec![]), "[]");
    assert_eq!(json_of_bytes(&vec![0, 10, 255]), "[0,10,255]");
}

#[test]
fn load_reads_the_secret_and_derives_the_public_key() {
    let mut bytes: Vec<u8> = (1u8..=32).collect();
    bytes.extend(std::iter::repeat(0u8).take(32));
    let text = format!(" {} ", serde_json::to_string(&bytes).unwrap());
    let kp = keypair_from_json(&text).unwrap();
    assert_eq!(kp.secret, bytes[..32].to_vec());
    assert_eq!(kp.public, keypair_from_secret(bytes[..32].to_vec()).public);
}

#[test]
fn base58_lengths_of_32_byte_keys() {
    let zeros = SolanaKeypair { secret: vec![0; 32], public: vec![0; 32] };
    assert_eq!(pubkey_base58(&zeros), "1".repeat(32));
    let ones = SolanaKeypair { secret: vec![0; 32], public: vec![255; 32] };
    assert_eq!(pubkey_base58(&ones).len(), 44);
    let mut last = vec![0u8; 32];
    last[31] = 1;
    let small = SolanaKeypair { secret: vec![0; 32], public: last };
    assert_eq!(pubkey_base58(&small), format!("{}2", "1".repeat(31)));
    let mut first = vec![0u8; 32];
    first[0] = 1;
    let big = SolanaKeypair { secret: vec![0; 32], public: first.clone() };
    assert_eq!(pubkey_base58(&big), bs58::encode(&first).into_string());
    assert_eq!(pubkey_base58(&big).len(), 43);
}
