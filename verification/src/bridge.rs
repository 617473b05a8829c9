//! Trusted wrappers around the third-party crates that the pipeline consumes:
//! serde_json for the document text, base64 for payload encodings, x25519 and
//! HKDF-SHA256 for key agreement and derivation, and AES-SIV as the
//! deterministic authenticated cipher. Each result that is a pure function of
//! the arguments is given a name, and every contract is stated over it.

use vstd::prelude::*;

use aes_siv::aead::generic_array::GenericArray;
use serde_json::Value;
use aes_siv::siv::Aes128Siv;
use aes_siv::KeyInit;

use crate::json::{model, Json, JsonVal};

verus! {

#[verifier::external_type_specification]
#[verifier::external_body]
pub struct ExValue(serde_json::Value);

/// The document, if any, that the input bytes spell in JSON.
pub uninterp spec fn parse_of(bytes: Seq<u8>) -> Option<JsonVal>;

/// The JSON text that serde_json prints for a document.
pub uninterp spec fn ser_of(doc: JsonVal) -> Seq<u8>;

/// Whether a document serializes: writing a tree value out cannot fail, so
/// this holds exactly when every string and key of the document is valid
/// UTF-8 and every number text is a JSON number — a function of the
/// document alone.
pub uninterp spec fn ser_ok_of(doc: JsonVal) -> bool;

/// The standard base64 text of a byte string.
pub uninterp spec fn b64_of(bytes: Seq<u8>) -> Seq<u8>;

/// The bytes, if any, that a base64 text decodes to.
pub uninterp spec fn b64_dec_of(text: Seq<u8>) -> Option<Seq<u8>>;

/// The x25519 shared secret of a secret key and a peer public key.
pub uninterp spec fn dh_of(secret: Seq<u8>, peer: Seq<u8>) -> Seq<u8>;

/// The HKDF-SHA256 output for the given input key material and salt.
pub uninterp spec fn kdf_of(ikm: Seq<u8>, salt: Seq<u8>) -> Seq<u8>;

/// The AES-128-SIV ciphertext of a plaintext under a key, with no
/// associated data. Deterministic by design: a function of its arguments.
pub uninterp spec fn siv_of(key: Seq<u8>, plaintext: Seq<u8>) -> Seq<u8>;

/// Relies on serde_json::from_slice: parses the input bytes as one JSON
/// document, failing exactly when they are not valid JSON. A parsed
/// document always serializes again: its strings and keys come out of
/// serde_json's own UTF-8 strings, and its number texts are printed by
/// serde_json and parse back.
#[verifier::external_body]
pub fn parse_json(bytes: &[u8]) -> (r: Option<Json>)
    ensures
        r is Some <==> parse_of(bytes@) is Some,
        r matches Some(j) ==> parse_of(bytes@) == Some(model(j)),
        r matches Some(j) ==> ser_ok_of(model(j)),
{
    serde_json::from_slice::<Value>(bytes).ok().map(from_value)
}

/// Relies on serde_json::Value: rebuilds the parsed tree with owned bytes,
/// keeping each number's decimal text.
#[verifier::external_body]
fn from_value(v: Value) -> Json {
    match v {
        Value::Null => Json::Null,
        Value::Bool(b) => Json::Bool(b),
        Value::Number(n) => Json::Num(n.to_string().into_bytes()),
        Value::String(s) => Json::Str(s.into_bytes()),
        Value::Array(a) => Json::Arr(a.into_iter().map(from_value).collect()),
        Value::Object(o) => Json::Obj(
            o.into_iter().map(|(k, x)| (k.into_bytes(), from_value(x))).collect(),
        ),
    }
}

/// Relies on serde_json::Value: rebuilds the document as serde_json's tree,
/// failing when a number's text or a string's bytes are not what JSON takes.
#[verifier::external_body]
fn to_value(j: &Json) -> Option<Value> {
    Some(match j {
        Json::Null => Value::Null,
        Json::Bool(b) => Value::Bool(*b),
        Json::Num(n) => Value::Number(
            serde_json::from_str(core::str::from_utf8(n).ok()?).ok()?,
        ),
        Json::Str(s) => Value::String(String::from_utf8(s.clone()).ok()?),
        Json::Arr(a) => Value::Array(a.iter().map(to_value).collect::<Option<_>>()?),
        Json::Obj(es) => Value::Object(
            es.iter().map(
                |e| Some((String::from_utf8(e.0.clone()).ok()?, to_value(&e.1)?)),
            ).collect::<Option<_>>()?,
        ),
    })
}

/// Relies on serde_json::to_vec: prints the document back as JSON text.
/// Writing a tree value into a byte vector cannot fail, so the call fails
/// exactly when the document cannot be rebuilt as serde_json's tree: a
/// string or key that is not UTF-8, or number text that is not a JSON
/// number — a function of the document alone, named `ser_ok_of`.
#[verifier::external_body]
pub fn json_ser(j: &Json) -> (r: Option<Vec<u8>>)
    ensures
        r is Some <==> ser_ok_of(model(*j)),
        r matches Some(b) ==> b@ == ser_of(model(*j)),
{
    serde_json::to_vec(&to_value(j)?).ok()
}

/// Relies on base64::encode: standard alphabet with padding, ASCII text out.
#[verifier::external_body]
pub fn b64_encode(data: &[u8]) -> (r: Vec<u8>)
    ensures
        r@ == b64_of(data@),
{
    base64::encode(data).into_bytes()
}

/// Relies on base64::decode: decodes standard base64 and inverts
/// base64::encode, so the text of any encoding decodes to what was encoded.
#[verifier::external_body]
pub fn b64_decode(text: &[u8]) -> (r: Option<Vec<u8>>)
    ensures
        r is Some <==> b64_dec_of(text@) is Some,
        r matches Some(d) ==> b64_dec_of(text@) == Some(d@),
        forall|p: Seq<u8>| text@ == b64_of(p) ==> r is Some && r->0@ == p,
{
    base64::decode(text).ok()
}

/// Relies on x25519_dalek::StaticSecret::diffie_hellman: the x25519 shared
/// secret, a function of the two key values alone.
#[verifier::external_body]
pub fn dh(secret: &[u8; 32], peer: &[u8; 32]) -> (r: [u8; 32])
    ensures
        r@ == dh_of(secret@, peer@),
{
    let sk = x25519_dalek::StaticSecret::from(*secret);
    let pk = x25519_dalek::PublicKey::from(*peer);
    sk.diffie_hellman(&pk).to_bytes()
}

/// Relies on hkdf::Hkdf with sha2::Sha256: HKDF-SHA256 of the agreement
/// secret salted by the nonce, a function of its inputs alone. A 32-byte
/// output is always within HKDF's bound, so expand cannot fail here.
#[verifier::external_body]
pub fn kdf(ikm: &[u8; 32], salt: &[u8; 32]) -> (r: [u8; 32])
    ensures
        r@ == kdf_of(ikm@, salt@),
{
    let hk = hkdf::Hkdf::<sha2::Sha256>::new(Some(salt), ikm);
    let mut okm = [0u8; 32];
    let _ = hk.expand(&[], &mut okm);
    okm
}

/// Relies on aes_siv::siv::Aes128Siv::encrypt with no associated data:
/// deterministic authenticated encryption, a function of key and plaintext.
/// With no headers the call's only error source (more headers than the
/// cipher takes) is unreachable, so it always succeeds.
#[verifier::external_body]
pub fn siv_encrypt(key: &[u8; 32], plaintext: &[u8]) -> (r: Option<Vec<u8>>)
    ensures
        r is Some,
        r matches Some(c) ==> c@ == siv_of(key@, plaintext@),
{
    let mut siv = Aes128Siv::new(GenericArray::from_slice(key));
    let ad: [&[u8]; 0] = [];
    siv.encrypt(ad, plaintext).ok()
}

/// Relies on aes_siv::siv::Aes128Siv::decrypt: returns the exact plaintext
/// of any ciphertext made under the same key, and fails on anything else.
#[verifier::external_body]
pub fn siv_decrypt(key: &[u8; 32], ciphertext: &[u8]) -> (r: Option<Vec<u8>>)
    ensures
        forall|p: Seq<u8>| ciphertext@ == siv_of(key@, p) ==> r is Some && r->0@ == p,
{
    let mut siv = Aes128Siv::new(GenericArray::from_slice(key));
    let ad: [&[u8]; 0] = [];
    siv.decrypt(ad, ciphertext).ok()
}

} // verus!
