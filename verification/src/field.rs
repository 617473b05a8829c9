//! Field encryption: one plaintext field is canonicalized to JSON text, its
//! framing quotes are stripped, the bytes are encrypted deterministically and
//! the ciphertext is re-encoded as base64 text.

use vstd::prelude::*;
use vstd::slice::{slice_index_get, slice_subrange, slice_to_vec};

use crate::bridge::{b64_decode, b64_encode, b64_of, json_ser, ser_of, ser_ok_of, siv_decrypt,
    siv_encrypt, siv_of};
use crate::json::{model, Json, JsonVal};
use crate::keys::AESKey;
use crate::EnclaveError;

verus! {

/// The serialized text of a field with its framing stripped: when the text
/// is a quoted string, exactly the two framing double quotes go — they are
/// transport framing, not secret content — and any other text is kept whole.
pub open spec fn trim_quotes(s: Seq<u8>) -> Seq<u8> {
    if s.len() >= 2 && s[0] == 34u8 && s[s.len() - 1] == 34u8 {
        s.subrange(1, s.len() - 1)
    } else {
        s
    }
}

/// Strips the framing double quotes of a quoted string, one leading and one
/// trailing; any other text is kept whole.
pub fn trim_quote_bytes(s: &[u8]) -> (r: Vec<u8>)
    ensures
        r@ == trim_quotes(s@),
{
    let n = s.len();
    if n >= 2 && *slice_index_get(s, 0) == 34u8 && *slice_index_get(s, n - 1) == 34u8 {
        slice_to_vec(slice_subrange(s, 1, n - 1))
    } else {
        slice_to_vec(s)
    }
}

/// The canonical plaintext of one field: its JSON text with framing quotes
/// stripped.
pub open spec fn field_plaintext(v: JsonVal) -> Seq<u8> {
    trim_quotes(ser_of(v))
}

/// The encrypted form of one field: base64 text of the deterministic
/// ciphertext of its canonical plaintext.
pub open spec fn field_cipher(key: Seq<u8>, v: JsonVal) -> Seq<u8> {
    b64_of(siv_of(key, field_plaintext(v)))
}

/// Encrypts one field of the document. Identical key and value always yield
/// identical output. It fails exactly when the value cannot be canonicalized
/// to JSON text; the cipher itself cannot fail.
pub fn encrypt_serializeable(key: &AESKey, val: &Json) -> (r: Result<Vec<u8>, EnclaveError>)
    ensures
        r is Ok <==> ser_ok_of(model(*val)),
        r matches Ok(ct) ==> ct@ == field_cipher(key@, model(*val)),
        r matches Err(e) ==> e == EnclaveError::EncryptionError,
{
    let serialized = match json_ser(val) {
        Some(b) => b,
        None => {
            return Err(EnclaveError::EncryptionError);
        },
    };
    let trimmed = trim_quote_bytes(serialized.as_slice());
    match siv_encrypt(key, trimmed.as_slice()) {
        Some(ct) => Ok(b64_encode(ct.as_slice())),
        None => Err(EnclaveError::EncryptionError),
    }
}

/// The decrypt collaborator: decodes base64 ciphertext text and opens it
/// under the same key. For every plaintext p and key K, decrypting the
/// encryption of p under K returns exactly p.
pub fn decrypt_field(key: &AESKey, ct: &[u8]) -> (r: Result<Vec<u8>, EnclaveError>)
    ensures
        forall|p: Seq<u8>|
            ct@ == b64_of(siv_of(key@, p)) ==> (r matches Ok(pt) && pt@ == p),
        r matches Err(e) ==> e == EnclaveError::EncryptionError,
{
    let raw = match b64_decode(ct) {
        Some(d) => d,
        None => {
            return Err(EnclaveError::EncryptionError);
        },
    };
    match siv_decrypt(key, raw.as_slice()) {
        Some(pt) => Ok(pt),
        None => Err(EnclaveError::EncryptionError),
    }
}

} // verus!
