//! End-to-end behavior of the output encryption pipeline, checked against
//! the real cipher, key agreement and JSON serializer.

use aes_siv::aead::generic_array::GenericArray;
use aes_siv::siv::Aes128Siv;
use aes_siv::KeyInit;

use enclave_io::field::decrypt_field;
use enclave_io::keys::{calc_encryption_key, KeyPair};
use enclave_io::output::encrypt_output;
use enclave_io::EnclaveError;

fn keypair() -> KeyPair {
    KeyPair { secret: [7u8; 32] }
}

fn nonce() -> [u8; 32] {
    [1u8; 32]
}

fn user_pk() -> [u8; 32] {
    [2u8; 32]
}

fn request_key() -> [u8; 32] {
    calc_encryption_key(&nonce(), &user_pk(), &keypair())
}

fn run(input: &str) -> Vec<u8> {
    encrypt_output(input.as_bytes().to_vec(), nonce(), user_pk(), &keypair()).unwrap()
}

fn siv_open(key: &[u8; 32], ct: &[u8]) -> Vec<u8> {
    let mut siv = Aes128Siv::new(GenericArray::from_slice(key));
    let ad: [&[u8]; 0] = [];
    siv.decrypt(ad, ct).unwrap()
}

#[test]
fn scenario_ok_string() {
    let out = run(r#"{"Ok":"5"}"#);
    let v: serde_json::Value = serde_json::from_slice(&out).unwrap();
    let obj = v.as_object().unwrap();
    assert_eq!(obj.len(), 1);
    let ct = obj["Ok"].as_str().unwrap();
    let pt = decrypt_field(&request_key(), ct.as_bytes()).unwrap();
    assert_eq!(pt, b"5".to_vec());
}

#[test]
fn scenario_err_object() {
    let out = run(r#"{"Err":{"out_of_gas":{}}}"#);
    let v: serde_json::Value = serde_json::from_slice(&out).unwrap();
    let obj = v.as_object().unwrap();
    assert_eq!(obj.len(), 1);
    let ct = v["Err"]["generic_err"]["msg"].as_str().unwrap();
    let pt = decrypt_field(&request_key(), ct.as_bytes()).unwrap();
    assert_eq!(pt, br#"{"out_of_gas":{}}"#.to_vec());
}

#[test]
fn scenario_execute_message() {
    let out = run(
        r#"{"Ok":{"messages":[{"wasm":{"execute":{"contract_addr":"A","code_hash":"H","msg":"eyJhIjoxfQ==","send":[]}}}]}}"#,
    );
    let v: serde_json::Value = serde_json::from_slice(&out).unwrap();
    let m = &v["Ok"]["messages"][0]["wasm"]["execute"];
    assert_eq!(m["contract_addr"].as_str().unwrap(), "A");
    assert_eq!(m["code_hash"].as_str().unwrap(), "H");
    assert!(m["send"].as_array().unwrap().is_empty());
    let blob = base64::decode(m["msg"].as_str().unwrap()).unwrap();
    assert_eq!(&blob[0..32], &nonce());
    assert_eq!(&blob[32..64], &user_pk());
    let pt = siv_open(&request_key(), &blob[64..]);
    let mut expected = b"H".to_vec();
    expected.extend_from_slice(&base64::decode("eyJhIjoxfQ==").unwrap());
    assert_eq!(pt, expected);
    assert_eq!(&expected[1..], br#"{"a":1}"#);
}

#[test]
fn scenario_instantiate_message() {
    let out = run(
        r#"{"Ok":{"messages":[{"wasm":{"instantiate":{"code_id":1,"code_hash":"H","msg":"eyJhIjoxfQ==","send":[],"label":"L"}}}]}}"#,
    );
    let v: serde_json::Value = serde_json::from_slice(&out).unwrap();
    let m = &v["Ok"]["messages"][0]["wasm"]["instantiate"];
    assert_eq!(m["code_id"].as_u64().unwrap(), 1);
    assert_eq!(m["label"].as_str().unwrap(), "L");
    let blob = base64::decode(m["msg"].as_str().unwrap()).unwrap();
    let pt = siv_open(&request_key(), &blob[64..]);
    assert_eq!(&pt[0..1], b"H");
}

#[test]
fn scenario_malformed_input() {
    let r = encrypt_output(b"not json".to_vec(), nonce(), user_pk(), &keypair());
    assert_eq!(r, Err(EnclaveError::FailedToDeserialize));
}

#[test]
fn scenario_no_data_field() {
    let out = run(r#"{"Ok":{"log":[]}}"#);
    let v: serde_json::Value = serde_json::from_slice(&out).unwrap();
    let ok = v["Ok"].as_object().unwrap();
    assert!(!ok.contains_key("data"));
    assert!(ok.contains_key("log"));
}

#[test]
fn data_field_encrypted() {
    let out = run(r#"{"Ok":{"data":"abc"}}"#);
    let v: serde_json::Value = serde_json::from_slice(&out).unwrap();
    let ct = v["Ok"]["data"].as_str().unwrap();
    let pt = decrypt_field(&request_key(), ct.as_bytes()).unwrap();
    assert_eq!(pt, b"abc".to_vec());
}

#[test]
fn log_events_encrypted() {
    let out = run(r#"{"Ok":{"log":[{"key":"k","value":"v"},{"key":7,"value":"w"}]}}"#);
    let v: serde_json::Value = serde_json::from_slice(&out).unwrap();
    let events = v["Ok"]["log"].as_array().unwrap();
    let k = events[0]["key"].as_str().unwrap();
    let val = events[0]["value"].as_str().unwrap();
    assert_eq!(decrypt_field(&request_key(), k.as_bytes()).unwrap(), b"k".to_vec());
    assert_eq!(decrypt_field(&request_key(), val.as_bytes()).unwrap(), b"v".to_vec());
    // a non-string key is untouched
    assert_eq!(events[1]["key"].as_u64().unwrap(), 7);
    let w = events[1]["value"].as_str().unwrap();
    assert_eq!(decrypt_field(&request_key(), w.as_bytes()).unwrap(), b"w".to_vec());
}

#[test]
fn both_branches_pass_through() {
    let input = r#"{"Err":{"a":1},"Ok":"x"}"#;
    let out = run(input);
    assert_eq!(out, input.as_bytes().to_vec());
}

#[test]
fn neither_branch_passes_through() {
    let input = r#"{"foo":1}"#;
    let out = run(input);
    assert_eq!(out, input.as_bytes().to_vec());
}

#[test]
fn non_object_passes_through() {
    let out = run("[1,2]");
    assert_eq!(out, b"[1,2]".to_vec());
}

#[test]
fn unknown_message_kind_passes_through() {
    let input = r#"{"Ok":{"messages":[{"bank":{"amount":1}}]}}"#;
    let out = run(input);
    let v: serde_json::Value = serde_json::from_slice(&out).unwrap();
    assert_eq!(v["Ok"]["messages"][0]["bank"]["amount"].as_u64().unwrap(), 1);
}

#[test]
fn wasm_tag_with_two_kinds_is_schema_mismatch() {
    let input =
        br#"{"Ok":{"messages":[{"wasm":{"execute":{"contract_addr":"A","code_hash":"H","msg":"eyJhIjoxfQ==","send":[]},"instantiate":{"code_id":1,"code_hash":"H","msg":"eyJhIjoxfQ==","send":[],"label":"L"}}}]}}"#
        .to_vec();
    let r = encrypt_output(input, nonce(), user_pk(), &keypair());
    assert_eq!(r, Err(EnclaveError::FailedToDeserialize));
}

#[test]
fn only_framing_quotes_are_stripped() {
    // the string value ends in a double quote, so its JSON text ends in an
    // escaped quote; only the two framing quotes are transport framing
    let out = run(r#"{"Ok":"a\""}"#);
    let v: serde_json::Value = serde_json::from_slice(&out).unwrap();
    let ct = v["Ok"].as_str().unwrap();
    let pt = decrypt_field(&request_key(), ct.as_bytes()).unwrap();
    assert_eq!(pt, br#"a\""#.to_vec());
}

#[test]
fn unknown_wasm_kind_is_schema_mismatch() {
    let input = br#"{"Ok":{"messages":[{"wasm":{"unknown":{}}}]}}"#.to_vec();
    let r = encrypt_output(input, nonce(), user_pk(), &keypair());
    assert_eq!(r, Err(EnclaveError::FailedToDeserialize));
}

#[test]
fn payload_that_is_not_base64_is_schema_mismatch() {
    let input =
        br#"{"Ok":{"messages":[{"wasm":{"execute":{"contract_addr":"A","code_hash":"H","msg":"!!!","send":[]}}}]}}"#
        .to_vec();
    let r = encrypt_output(input, nonce(), user_pk(), &keypair());
    assert_eq!(r, Err(EnclaveError::FailedToDeserialize));
}

#[test]
fn missing_execute_field_is_schema_mismatch() {
    let input =
        br#"{"Ok":{"messages":[{"wasm":{"execute":{"contract_addr":"A","msg":"eyJhIjoxfQ=="}}}]}}"#
        .to_vec();
    let r = encrypt_output(input, nonce(), user_pk(), &keypair());
    assert_eq!(r, Err(EnclaveError::FailedToDeserialize));
}

#[test]
fn encryption_is_deterministic_end_to_end() {
    let input = r#"{"Ok":"answer"}"#;
    assert_eq!(run(input), run(input));
}

#[test]
fn message_order_is_preserved() {
    let input = r#"{"Ok":{"messages":[{"bank":{"n":1}},{"bank":{"n":2}},{"bank":{"n":3}}]}}"#;
    let out = run(input);
    let v: serde_json::Value = serde_json::from_slice(&out).unwrap();
    let ms = v["Ok"]["messages"].as_array().unwrap();
    assert_eq!(ms.len(), 3);
    for (i, m) in ms.iter().enumerate() {
        assert_eq!(m["bank"]["n"].as_u64().unwrap(), (i + 1) as u64);
    }
}
