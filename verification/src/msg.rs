//! The message recursor: walks the dispatched sub-messages of a success
//! result, and for every known message kind binds the payload to the targeted
//! code version (code hash ‖ payload bytes), wraps it as a `SecretMessage`
//! keyed to the request's nonce and caller key, encrypts it and replaces only
//! the payload field. Everything else passes through untouched.
//!
//! The known kinds are the wasm-tagged `execute` and `instantiate` messages.
//! A sequence element without a wasm tag is outside the known set and passes
//! through unmodified; a wasm tag that does not hold exactly one known kind
//! with a well-shaped body is a schema mismatch and fails the request.

use vstd::prelude::*;
use vstd::slice::{slice_index_get, slice_to_vec};

use crate::bridge::{b64_dec_of, b64_decode, b64_encode, b64_of, siv_encrypt, siv_of};
use crate::json::{
    bytes_eq, clone_json, find, k_code_hash, k_code_id, k_contract_addr, k_execute,
    k_instantiate, k_label, k_msg, k_send, k_wasm, lemma_model_entries, lemma_model_seq, lookup,
    model, model_entries, model_seq, name_bytes, FieldName, Json, JsonVal,
};
use crate::keys::{AESKey, Ed25519PublicKey, IoNonce};
use crate::EnclaveError;

verus! {

/// A ciphertext wrapper bound to one (nonce, caller public key) pair: only
/// the holder of the matching private material recovers the payload.
pub struct SecretMessage {
    pub nonce: [u8; 32],
    pub user_public_key: [u8; 32],
    pub msg: Vec<u8>,
}

/// The serialized form of a secret message.
pub open spec fn secret_msg_bytes(nonce: Seq<u8>, pk: Seq<u8>, payload: Seq<u8>) -> Seq<u8> {
    nonce + pk + payload
}

impl SecretMessage {
    /// Wraps a base64 payload for the given (nonce, caller key) pair; a text
    /// that is not base64 is a schema mismatch.
    pub fn from_base64(b64_payload: &[u8], nonce: IoNonce, user_public_key: Ed25519PublicKey) -> (r:
        Result<SecretMessage, EnclaveError>)
        ensures
            b64_dec_of(b64_payload@) matches Some(d) ==> (r matches Ok(sm) && sm.msg@ == d
                && sm.nonce@ == nonce@ && sm.user_public_key@ == user_public_key@),
            b64_dec_of(b64_payload@) is None ==> (r matches Err(e) && e
                == EnclaveError::FailedToDeserialize),
            forall|p: Seq<u8>|
                b64_payload@ == b64_of(p) ==> (r matches Ok(sm) && sm.msg@ == p),
    {
        match b64_decode(b64_payload) {
            Some(d) => Ok(SecretMessage { nonce, user_public_key, msg: d }),
            None => Err(EnclaveError::FailedToDeserialize),
        }
    }

    /// Encrypts the payload in place under the derived key. The cipher
    /// cannot fail, so neither can this.
    pub fn encrypt_in_place(&mut self, key: &AESKey) -> (r: Result<(), EnclaveError>)
        ensures
            r is Ok,
            final(self).msg@ == siv_of(key@, old(self).msg@),
            final(self).nonce == old(self).nonce,
            final(self).user_public_key == old(self).user_public_key,
    {
        match siv_encrypt(key, self.msg.as_slice()) {
            Some(ct) => {
                self.msg = ct;
                Ok(())
            },
            None => Err(EnclaveError::EncryptionError),
        }
    }

    /// Serializes as nonce ‖ caller public key ‖ payload.
    pub fn to_vec(&self) -> (r: Vec<u8>)
        ensures
            r@ == secret_msg_bytes(self.nonce@, self.user_public_key@, self.msg@),
    {
        let mut out: Vec<u8> = Vec::new();
        push_bytes(&mut out, self.nonce.as_slice());
        push_bytes(&mut out, self.user_public_key.as_slice());
        push_bytes(&mut out, self.msg.as_slice());
        out
    }
}

/// Appends a byte slice to a vector.
pub fn push_bytes(dst: &mut Vec<u8>, src: &[u8])
    ensures
        final(dst)@ == old(dst)@ + src@,
{
    let n = src.len();
    for i in 0..n
        invariant
            n == src@.len(),
            dst@ == old(dst)@ + src@.subrange(0, i as int),
        decreases n - i,
    {
        dst.push(*slice_index_get(src, i));
        proof {
            assert(dst@ =~= old(dst)@ + src@.subrange(0, i + 1));
        }
    }
    proof {
        assert(dst@ =~= old(dst)@ + src@);
    }
}

/// The code-integrity hash named by a message body, as bytes; empty when the
/// body has none.
pub open spec fn code_hash_of(f: Seq<(Seq<u8>, JsonVal)>) -> Seq<u8> {
    match lookup(f, k_code_hash()) {
        Some(JsonVal::Str(h)) => h,
        _ => Seq::empty(),
    }
}

/// The encrypted, re-encoded payload of one message: base64 of the secret
/// message whose ciphertext binds the code hash to the raw payload bytes.
pub open spec fn payload_cipher(
    key: Seq<u8>,
    nonce: Seq<u8>,
    pk: Seq<u8>,
    hash: Seq<u8>,
    raw: Seq<u8>,
) -> Seq<u8> {
    b64_of(secret_msg_bytes(nonce, pk, siv_of(key, hash + raw)))
}

/// One entry of a message body after payload encryption: a base64 string
/// payload is replaced, every other entry is kept.
pub open spec fn tr_field_entry(
    e: (Seq<u8>, JsonVal),
    key: Seq<u8>,
    nonce: Seq<u8>,
    pk: Seq<u8>,
    hash: Seq<u8>,
) -> (Seq<u8>, JsonVal) {
    match e.1 {
        JsonVal::Str(m) => if e.0 == k_msg() {
            match b64_dec_of(m) {
                Some(raw) => (e.0, JsonVal::Str(payload_cipher(key, nonce, pk, hash, raw))),
                None => e,
            }
        } else {
            e
        },
        _ => e,
    }
}

/// A message body after payload encryption.
pub open spec fn tr_fields(
    f: Seq<(Seq<u8>, JsonVal)>,
    key: Seq<u8>,
    nonce: Seq<u8>,
    pk: Seq<u8>,
) -> Seq<(Seq<u8>, JsonVal)> {
    Seq::new(f.len(), |i: int| tr_field_entry(f[i], key, nonce, pk, code_hash_of(f)))
}

/// The shape an execute body must have: destination, code hash, a base64
/// payload, and funds.
pub open spec fn exec_fields_ok(f: Seq<(Seq<u8>, JsonVal)>) -> bool {
    &&& lookup(f, k_contract_addr()) matches Some(JsonVal::Str(_))
    &&& lookup(f, k_code_hash()) matches Some(JsonVal::Str(_))
    &&& (lookup(f, k_msg()) matches Some(JsonVal::Str(m)) && b64_dec_of(m) is Some)
    &&& lookup(f, k_send()) is Some
}

/// The shape an instantiate body must have: code id, code hash, a base64
/// payload, funds, and a label.
pub open spec fn inst_fields_ok(f: Seq<(Seq<u8>, JsonVal)>) -> bool {
    &&& lookup(f, k_code_id()) matches Some(JsonVal::Num(_))
    &&& lookup(f, k_code_hash()) matches Some(JsonVal::Str(_))
    &&& (lookup(f, k_msg()) matches Some(JsonVal::Str(m)) && b64_dec_of(m) is Some)
    &&& lookup(f, k_send()) is Some
    &&& lookup(f, k_label()) matches Some(JsonVal::Str(_))
}

/// One entry of a wasm tag: it must name a known kind with a well-shaped body.
pub open spec fn wasm_entry_ok(e: (Seq<u8>, JsonVal)) -> bool {
    ||| (e.0 == k_execute() && (e.1 matches JsonVal::Obj(f) && exec_fields_ok(f)))
    ||| (e.0 == k_instantiate() && (e.1 matches JsonVal::Obj(f) && inst_fields_ok(f)))
}

/// A wasm tag value: a closed tagged union, so exactly one entry, and that
/// entry a known kind.
pub open spec fn wasm_ok(w: Seq<(Seq<u8>, JsonVal)>) -> bool {
    &&& w.len() == 1
    &&& forall|i: int| 0 <= i < w.len() ==> wasm_entry_ok(#[trigger] w[i])
}

/// One entry of a wasm tag after payload encryption.
pub open spec fn tr_wasm_entry(
    e: (Seq<u8>, JsonVal),
    key: Seq<u8>,
    nonce: Seq<u8>,
    pk: Seq<u8>,
) -> (Seq<u8>, JsonVal) {
    match e.1 {
        JsonVal::Obj(f) => (e.0, JsonVal::Obj(tr_fields(f, key, nonce, pk))),
        _ => e,
    }
}

/// A wasm tag value after payload encryption.
pub open spec fn tr_wasm(
    w: Seq<(Seq<u8>, JsonVal)>,
    key: Seq<u8>,
    nonce: Seq<u8>,
    pk: Seq<u8>,
) -> Seq<(Seq<u8>, JsonVal)> {
    Seq::new(w.len(), |i: int| tr_wasm_entry(w[i], key, nonce, pk))
}

/// One entry of a message element: a wasm tag must hold a well-shaped value.
pub open spec fn msg_entry_ok(e: (Seq<u8>, JsonVal)) -> bool {
    e.0 == k_wasm() ==> (e.1 matches JsonVal::Obj(w) && wasm_ok(w))
}

/// Whether one element of the message sequence fits the schema: an object
/// with a wasm tag must carry a known kind; anything else is outside the
/// known set and passes through.
pub open spec fn msg_ok(el: JsonVal) -> bool {
    el matches JsonVal::Obj(es) ==> forall|i: int| 0 <= i < es.len() ==> msg_entry_ok(
        #[trigger] es[i],
    )
}

/// One entry of a message element after payload encryption.
pub open spec fn tr_msg_entry(
    e: (Seq<u8>, JsonVal),
    key: Seq<u8>,
    nonce: Seq<u8>,
    pk: Seq<u8>,
) -> (Seq<u8>, JsonVal) {
    if e.0 == k_wasm() {
        match e.1 {
            JsonVal::Obj(w) => (e.0, JsonVal::Obj(tr_wasm(w, key, nonce, pk))),
            _ => e,
        }
    } else {
        e
    }
}

/// One element of the message sequence after payload encryption.
pub open spec fn tr_msg_el(el: JsonVal, key: Seq<u8>, nonce: Seq<u8>, pk: Seq<u8>) -> JsonVal {
    match el {
        JsonVal::Obj(es) => JsonVal::Obj(
            Seq::new(es.len(), |i: int| tr_msg_entry(es[i], key, nonce, pk)),
        ),
        _ => el,
    }
}

/// Whether the whole message sequence fits the schema.
pub open spec fn msgs_ok(ms: Seq<JsonVal>) -> bool {
    forall|i: int| 0 <= i < ms.len() ==> msg_ok(#[trigger] ms[i])
}

/// The message sequence after payload encryption, in the original order.
pub open spec fn tr_msgs(ms: Seq<JsonVal>, key: Seq<u8>, nonce: Seq<u8>, pk: Seq<u8>) -> Seq<
    JsonVal,
> {
    Seq::new(ms.len(), |i: int| tr_msg_el(ms[i], key, nonce, pk))
}

/// Whether the entry named by `which` is present with a string value.
fn field_is_str(f: &Vec<(Vec<u8>, Json)>, which: FieldName) -> (r: bool)
    ensures
        r == (lookup(model_entries(f@), crate::json::name_spec(which)) matches Some(
            JsonVal::Str(_),
        )),
{
    let k = name_bytes(which);
    match find(f, k.as_slice()) {
        Some(j) => match j {
            Json::Str(_) => true,
            _ => false,
        },
        None => false,
    }
}

/// Whether the entry named by `which` is present with a number value.
fn field_is_num(f: &Vec<(Vec<u8>, Json)>, which: FieldName) -> (r: bool)
    ensures
        r == (lookup(model_entries(f@), crate::json::name_spec(which)) matches Some(
            JsonVal::Num(_),
        )),
{
    let k = name_bytes(which);
    match find(f, k.as_slice()) {
        Some(j) => match j {
            Json::Num(_) => true,
            _ => false,
        },
        None => false,
    }
}

/// Whether the entry named by `which` is present at all.
fn field_present(f: &Vec<(Vec<u8>, Json)>, which: FieldName) -> (r: bool)
    ensures
        r == (lookup(model_entries(f@), crate::json::name_spec(which)) is Some),
{
    let k = name_bytes(which);
    match find(f, k.as_slice()) {
        Some(_) => true,
        None => false,
    }
}

/// Whether the payload entry is a string that decodes as base64.
fn msg_decodable(f: &Vec<(Vec<u8>, Json)>) -> (r: bool)
    ensures
        r == (lookup(model_entries(f@), k_msg()) matches Some(JsonVal::Str(m)) && b64_dec_of(m)
            is Some),
{
    let k = name_bytes(FieldName::Msg);
    match find(f, k.as_slice()) {
        Some(j) => match j {
            Json::Str(m) => match b64_decode(m.as_slice()) {
                Some(_) => true,
                None => false,
            },
            _ => false,
        },
        None => false,
    }
}

/// Whether a body fits the execute kind.
fn check_exec_fields(f: &Vec<(Vec<u8>, Json)>) -> (r: bool)
    ensures
        r == exec_fields_ok(model_entries(f@)),
{
    field_is_str(f, FieldName::ContractAddr) && field_is_str(f, FieldName::CodeHash)
        && msg_decodable(f) && field_present(f, FieldName::Send)
}

/// Whether a body fits the instantiate kind.
fn check_inst_fields(f: &Vec<(Vec<u8>, Json)>) -> (r: bool)
    ensures
        r == inst_fields_ok(model_entries(f@)),
{
    field_is_num(f, FieldName::CodeId) && field_is_str(f, FieldName::CodeHash) && msg_decodable(f)
        && field_present(f, FieldName::Send) && field_is_str(f, FieldName::Label)
}

/// Whether a wasm tag value names only known kinds with well-shaped bodies.
fn check_wasm(w: &Vec<(Vec<u8>, Json)>) -> (r: bool)
    ensures
        r == wasm_ok(model_entries(w@)),
{
    proof {
        lemma_model_entries(w@);
    }
    let n = w.len();
    if n != 1 {
        return false;
    }
    for i in 0..n
        invariant
            n == w@.len(),
            n == 1,
            model_entries(w@).len() == n,
            forall|j: int| 0 <= j < n ==> model_entries(w@)[j] == (w@[j].0@, model(w@[j].1)),
            forall|j: int| 0 <= j < i ==> wasm_entry_ok(#[trigger] model_entries(w@)[j]),
        decreases n - i,
    {
        let e = &w[i];
        let is_exec = bytes_eq(e.0.as_slice(), name_bytes(FieldName::Execute).as_slice());
        let is_inst = bytes_eq(e.0.as_slice(), name_bytes(FieldName::Instantiate).as_slice());
        let body_ok = match &e.1 {
            Json::Obj(f) => {
                if is_exec {
                    check_exec_fields(f)
                } else if is_inst {
                    check_inst_fields(f)
                } else {
                    false
                }
            },
            _ => false,
        };
        if !body_ok {
            assert(!wasm_entry_ok(model_entries(w@)[i as int]));
            return false;
        }
    }
    true
}

/// Whether one element of the message sequence fits the schema.
fn check_msg_el(el: &Json) -> (r: bool)
    ensures
        r == msg_ok(model(*el)),
{
    match el {
        Json::Obj(es) => {
            proof {
                lemma_model_entries(es@);
            }
            let n = es.len();
            for i in 0..n
                invariant
                    *el == Json::Obj(*es),
                    n == es@.len(),
                    model_entries(es@).len() == n,
                    forall|j: int| 0 <= j < n ==> model_entries(es@)[j] == (
                        es@[j].0@,
                        model(es@[j].1),
                    ),
                    forall|j: int| 0 <= j < i ==> msg_entry_ok(#[trigger] model_entries(es@)[j]),
                decreases n - i,
            {
                let e = &es[i];
                if bytes_eq(e.0.as_slice(), name_bytes(FieldName::Wasm).as_slice()) {
                    let ok = match &e.1 {
                        Json::Obj(w) => check_wasm(w),
                        _ => false,
                    };
                    if !ok {
                        proof {
                            assert(model(*el) == JsonVal::Obj(model_entries(es@)));
                            assert(!msg_entry_ok(model_entries(es@)[i as int]));
                            assert(model(*el)->Obj_0 == model_entries(es@));
                            assert(!msg_entry_ok(model(*el)->Obj_0[i as int]));
                            assert(!msg_ok(model(*el)));
                        }
                        return false;
                    }
                }
            }
            true
        },
        _ => true,
    }
}

/// Whether the whole message sequence fits the schema.
pub(crate) fn check_msgs(ms: &Vec<Json>) -> (r: bool)
    ensures
        r == msgs_ok(model_seq(ms@)),
{
    proof {
        lemma_model_seq(ms@);
    }
    let n = ms.len();
    for i in 0..n
        invariant
            n == ms@.len(),
            model_seq(ms@).len() == n,
            forall|j: int| 0 <= j < n ==> model_seq(ms@)[j] == model(ms@[j]),
            forall|j: int| 0 <= j < i ==> msg_ok(#[trigger] model_seq(ms@)[j]),
        decreases n - i,
    {
        if !check_msg_el(&ms[i]) {
            proof {
                assert(!msg_ok(model_seq(ms@)[i as int]));
                assert(!msgs_ok(model_seq(ms@)));
            }
            return false;
        }
    }
    true
}

/// Encrypts the payload entries of one message body in place of the old
/// ones, binding each to the body's code hash.
fn transform_fields(
    f: &Vec<(Vec<u8>, Json)>,
    key: &AESKey,
    nonce: &IoNonce,
    pk: &Ed25519PublicKey,
) -> (r: Result<Vec<(Vec<u8>, Json)>, EnclaveError>)
    ensures
        r is Ok,
        r matches Ok(nf) ==> model_entries(nf@) == tr_fields(model_entries(f@), key@, nonce@, pk@),
{
    proof {
        lemma_model_entries(f@);
    }
    let ghost fm = model_entries(f@);
    let hash = get_code_hash(f);
    let mut out: Vec<(Vec<u8>, Json)> = Vec::new();
    let n = f.len();
    for i in 0..n
        invariant
            n == f@.len(),
            fm == model_entries(f@),
            fm.len() == n,
            forall|j: int| 0 <= j < n ==> fm[j] == (f@[j].0@, model(f@[j].1)),
            hash@ == code_hash_of(fm),
            out@.len() == i,
            forall|j: int| 0 <= j < i ==> ((#[trigger] out@[j]).0@, model(out@[j].1))
                == tr_field_entry(fm[j], key@, nonce@, pk@, code_hash_of(fm)),
        decreases n - i,
    {
        let e = &f[i];
        let is_msg = bytes_eq(e.0.as_slice(), name_bytes(FieldName::Msg).as_slice());
        let new_entry: (Vec<u8>, Json) = match &e.1 {
            Json::Str(m) if is_msg => {
                match b64_decode(m.as_slice()) {
                    Some(raw) => {
                        let mut payload = slice_to_vec(hash.as_slice());
                        push_bytes(&mut payload, raw.as_slice());
                        let mut sm = SecretMessage {
                            nonce: *nonce,
                            user_public_key: *pk,
                            msg: payload,
                        };
                        match sm.encrypt_in_place(key) {
                            Ok(_) => {},
                            Err(_) => {
                                return Err(EnclaveError::EncryptionError);
                            },
                        }
                        let encoded = b64_encode(sm.to_vec().as_slice());
                        (slice_to_vec(e.0.as_slice()), Json::Str(encoded))
                    },
                    None => (slice_to_vec(e.0.as_slice()), clone_json(&e.1)),
                }
            },
            _ => (slice_to_vec(e.0.as_slice()), clone_json(&e.1)),
        };
        proof {
            assert((new_entry.0@, model(new_entry.1)) == tr_field_entry(
                fm[i as int],
                key@,
                nonce@,
                pk@,
                code_hash_of(fm),
            ));
        }
        out.push(new_entry);
    }
    proof {
        lemma_model_entries(out@);
        assert(model_entries(out@) =~= tr_fields(fm, key@, nonce@, pk@));
    }
    Ok(out)
}

/// The code hash a body names, as bytes; empty when it has none.
fn get_code_hash(f: &Vec<(Vec<u8>, Json)>) -> (r: Vec<u8>)
    ensures
        r@ == code_hash_of(model_entries(f@)),
{
    let k = name_bytes(FieldName::CodeHash);
    match find(f, k.as_slice()) {
        Some(j) => match j {
            Json::Str(h) => slice_to_vec(h.as_slice()),
            _ => Vec::new(),
        },
        None => Vec::new(),
    }
}

/// Encrypts the payloads under a wasm tag.
fn transform_wasm(
    w: &Vec<(Vec<u8>, Json)>,
    key: &AESKey,
    nonce: &IoNonce,
    pk: &Ed25519PublicKey,
) -> (r: Result<Vec<(Vec<u8>, Json)>, EnclaveError>)
    ensures
        r is Ok,
        r matches Ok(nw) ==> model_entries(nw@) == tr_wasm(model_entries(w@), key@, nonce@, pk@),
{
    proof {
        lemma_model_entries(w@);
    }
    let ghost wm = model_entries(w@);
    let mut out: Vec<(Vec<u8>, Json)> = Vec::new();
    let n = w.len();
    for i in 0..n
        invariant
            n == w@.len(),
            wm == model_entries(w@),
            wm.len() == n,
            forall|j: int| 0 <= j < n ==> wm[j] == (w@[j].0@, model(w@[j].1)),
            out@.len() == i,
            forall|j: int| 0 <= j < i ==> ((#[trigger] out@[j]).0@, model(out@[j].1))
                == tr_wasm_entry(wm[j], key@, nonce@, pk@),
        decreases n - i,
    {
        let e = &w[i];
        let new_entry: (Vec<u8>, Json) = match &e.1 {
            Json::Obj(f) => {
                match transform_fields(f, key, nonce, pk) {
                    Ok(nf) => (slice_to_vec(e.0.as_slice()), Json::Obj(nf)),
                    Err(err) => {
                        return Err(err);
                    },
                }
            },
            _ => (slice_to_vec(e.0.as_slice()), clone_json(&e.1)),
        };
        proof {
            assert((new_entry.0@, model(new_entry.1)) == tr_wasm_entry(
                wm[i as int],
                key@,
                nonce@,
                pk@,
            ));
        }
        out.push(new_entry);
    }
    proof {
        lemma_model_entries(out@);
        assert(model_entries(out@) =~= tr_wasm(wm, key@, nonce@, pk@));
    }
    Ok(out)
}

/// Encrypts the payloads of one element of the message sequence.
fn transform_msg_el(el: &Json, key: &AESKey, nonce: &IoNonce, pk: &Ed25519PublicKey) -> (r: Result<
    Json,
    EnclaveError,
>)
    ensures
        r is Ok,
        r matches Ok(nel) ==> model(nel) == tr_msg_el(model(*el), key@, nonce@, pk@),
{
    match el {
        Json::Obj(es) => {
            proof {
                lemma_model_entries(es@);
            }
            let ghost em = model_entries(es@);
            let mut out: Vec<(Vec<u8>, Json)> = Vec::new();
            let n = es.len();
            for i in 0..n
                invariant
                    *el == Json::Obj(*es),
                    n == es@.len(),
                    em == model_entries(es@),
                    em.len() == n,
                    forall|j: int| 0 <= j < n ==> em[j] == (es@[j].0@, model(es@[j].1)),
                    out@.len() == i,
                    forall|j: int| 0 <= j < i ==> ((#[trigger] out@[j]).0@, model(out@[j].1))
                        == tr_msg_entry(em[j], key@, nonce@, pk@),
                decreases n - i,
            {
                let e = &es[i];
                let is_wasm = bytes_eq(e.0.as_slice(), name_bytes(FieldName::Wasm).as_slice());
                let new_entry: (Vec<u8>, Json) = if is_wasm {
                    match &e.1 {
                        Json::Obj(w) => {
                            match transform_wasm(w, key, nonce, pk) {
                                Ok(nw) => (slice_to_vec(e.0.as_slice()), Json::Obj(nw)),
                                Err(err) => {
                                    return Err(err);
                                },
                            }
                        },
                        _ => (slice_to_vec(e.0.as_slice()), clone_json(&e.1)),
                    }
                } else {
                    (slice_to_vec(e.0.as_slice()), clone_json(&e.1))
                };
                proof {
                    assert((new_entry.0@, model(new_entry.1)) == tr_msg_entry(
                        em[i as int],
                        key@,
                        nonce@,
                        pk@,
                    ));
                }
                out.push(new_entry);
            }
            proof {
                lemma_model_entries(out@);
                assert(model_entries(out@) =~= Seq::new(
                    em.len(),
                    |i: int| tr_msg_entry(em[i], key@, nonce@, pk@),
                ));
            }
            Ok(Json::Obj(out))
        },
        _ => Ok(clone_json(el)),
    }
}

/// Validates the message sequence against the known kinds, then encrypts
/// every payload, keeping the sequence order exactly. It succeeds exactly
/// when the sequence fits the schema: validation comes first, and nothing
/// after it can fail.
pub fn transform_msgs(ms: &Vec<Json>, key: &AESKey, nonce: &IoNonce, pk: &Ed25519PublicKey) -> (r:
    Result<Vec<Json>, EnclaveError>)
    ensures
        r is Ok <==> msgs_ok(model_seq(ms@)),
        r matches Ok(nms) ==> model_seq(nms@) == tr_msgs(model_seq(ms@), key@, nonce@, pk@),
        r matches Err(e) ==> e == EnclaveError::FailedToDeserialize,
{
    proof {
        lemma_model_seq(ms@);
    }
    if !check_msgs(ms) {
        return Err(EnclaveError::FailedToDeserialize);
    }
    let ghost mm = model_seq(ms@);
    let mut out: Vec<Json> = Vec::new();
    let n = ms.len();
    for i in 0..n
        invariant
            n == ms@.len(),
            mm == model_seq(ms@),
            mm.len() == n,
            forall|j: int| 0 <= j < n ==> mm[j] == model(ms@[j]),
            msgs_ok(mm),
            out@.len() == i,
            forall|j: int| 0 <= j < i ==> model(#[trigger] out@[j]) == tr_msg_el(
                mm[j],
                key@,
                nonce@,
                pk@,
            ),
        decreases n - i,
    {
        let nel = match transform_msg_el(&ms[i], key, nonce, pk) {
            Ok(x) => x,
            Err(err) => {
                return Err(err);
            },
        };
        out.push(nel);
    }
    proof {
        lemma_model_seq(out@);
        assert(model_seq(out@) =~= tr_msgs(mm, key@, nonce@, pk@));
    }
    Ok(out)
}

} // verus!
