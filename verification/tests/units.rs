//! Field encryption, key derivation and secret-message behavior on their
//! own, against the real crypto.

use enclave_io::field::{decrypt_field, encrypt_serializeable};
use enclave_io::json::Json;
use enclave_io::keys::{calc_encryption_key, KeyPair};
use enclave_io::msg::SecretMessage;
use enclave_io::EnclaveError;

fn keypair() -> KeyPair {
    KeyPair { secret: [7u8; 32] }
}

fn request_key() -> [u8; 32] {
    calc_encryption_key(&[1u8; 32], &[2u8; 32], &keypair())
}

#[test]
fn field_encryption_is_deterministic() {
    let key = request_key();
    let v = Json::Str(b"hello".to_vec());
    let c1 = encrypt_serializeable(&key, &v).unwrap();
    let c2 = encrypt_serializeable(&key, &v).unwrap();
    assert_eq!(c1, c2);
}

#[test]
fn field_round_trip() {
    let key = request_key();
    let v = Json::Str(b"hello world".to_vec());
    let ct = encrypt_serializeable(&key, &v).unwrap();
    let pt = decrypt_field(&key, &ct).unwrap();
    assert_eq!(pt, b"hello world".to_vec());
}

#[test]
fn object_field_round_trip() {
    let key = request_key();
    let mut entries: Vec<(Vec<u8>, Json)> = Vec::new();
    entries.push((b"a".to_vec(), Json::Num(b"1".to_vec())));
    let v = Json::Obj(entries);
    let ct = encrypt_serializeable(&key, &v).unwrap();
    let pt = decrypt_field(&key, &ct).unwrap();
    assert_eq!(pt, br#"{"a":1}"#.to_vec());
}

#[test]
fn tampered_ciphertext_is_rejected() {
    let key = request_key();
    let v = Json::Str(b"hello".to_vec());
    let ct = encrypt_serializeable(&key, &v).unwrap();
    let mut raw = base64::decode(&ct).unwrap();
    raw[0] ^= 1;
    let tampered = base64::encode(&raw).into_bytes();
    assert_eq!(decrypt_field(&key, &tampered), Err(EnclaveError::EncryptionError));
}

#[test]
fn text_that_is_not_base64_is_rejected() {
    let key = request_key();
    assert_eq!(decrypt_field(&key, b"!!!"), Err(EnclaveError::EncryptionError));
}

#[test]
fn distinct_nonces_give_distinct_keys() {
    let k1 = calc_encryption_key(&[1u8; 32], &[2u8; 32], &keypair());
    let k2 = calc_encryption_key(&[9u8; 32], &[2u8; 32], &keypair());
    assert_ne!(k1, k2);
}

#[test]
fn distinct_callers_give_distinct_keys() {
    let k1 = calc_encryption_key(&[1u8; 32], &[2u8; 32], &keypair());
    let k2 = calc_encryption_key(&[1u8; 32], &[3u8; 32], &keypair());
    assert_ne!(k1, k2);
}

#[test]
fn secret_message_from_base64() {
    let sm = SecretMessage::from_base64(b"eyJhIjoxfQ==", [1u8; 32], [2u8; 32]).unwrap();
    assert_eq!(sm.msg, br#"{"a":1}"#.to_vec());
    assert_eq!(sm.nonce, [1u8; 32]);
    assert_eq!(sm.user_public_key, [2u8; 32]);
}

#[test]
fn secret_message_rejects_bad_base64() {
    let r = SecretMessage::from_base64(b"!!!", [1u8; 32], [2u8; 32]);
    assert_eq!(r.err().unwrap(), EnclaveError::FailedToDeserialize);
}

#[test]
fn secret_message_serialization_layout() {
    let sm = SecretMessage { nonce: [1u8; 32], user_public_key: [2u8; 32], msg: b"abc".to_vec() };
    let bytes = sm.to_vec();
    assert_eq!(&bytes[0..32], &[1u8; 32]);
    assert_eq!(&bytes[32..64], &[2u8; 32]);
    assert_eq!(&bytes[64..], b"abc");
}

#[test]
fn secret_message_encrypt_in_place_round_trip() {
    let key = request_key();
    let mut sm = SecretMessage { nonce: [1u8; 32], user_public_key: [2u8; 32], msg: b"abc".to_vec() };
    sm.encrypt_in_place(&key).unwrap();
    assert_ne!(sm.msg, b"abc".to_vec());
    let ct_b64 = base64::encode(&sm.msg).into_bytes();
    assert_eq!(decrypt_field(&key, &ct_b64).unwrap(), b"abc".to_vec());
}
