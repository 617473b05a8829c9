//! The output pipeline: classify the result document into one branch,
//! derive the request key once, encrypt the designated fields of that branch
//! and re-serialize. Unrecognized shapes pass through unmodified, and no
//! partial output is ever produced on failure.

use vstd::prelude::*;
use vstd::slice::slice_to_vec;

use crate::bridge::{json_ser, parse_json, parse_of, ser_of, ser_ok_of};
use crate::field::{encrypt_serializeable, field_cipher};
use crate::json::{
    bytes_eq, clone_json, find, k_data, k_err, k_generic_err, k_key, k_log,
    k_messages, k_msg, k_ok, k_value, lemma_model_entries, lemma_model_seq, lookup, model,
    model_entries, model_seq, name_bytes, FieldName, Json, JsonVal,
};
use crate::keys::{calc_encryption_key, derived_key, AESKey, Ed25519PublicKey, IoNonce, KeyPair};
use crate::msg::{msgs_ok, transform_msgs, tr_msgs};
use crate::EnclaveError;

verus! {

/// The branch a result document falls in. At most one of the error and
/// success members may be populated; every other shape is `Other` and passes
/// through unmodified.
#[derive(Clone, Copy, PartialEq, Eq, Structural)]
pub enum Branch {
    ErrObj,
    OkStr,
    OkObj,
    Other,
}

/// Classifies a document. A document whose error and success members are
/// both populated, or neither, is `Other`.
pub open spec fn classify(doc: JsonVal) -> Branch {
    match doc {
        JsonVal::Obj(es) => {
            let e = lookup(es, k_err());
            let o = lookup(es, k_ok());
            if e is Some && o is Some {
                Branch::Other
            } else if o is None && (e matches Some(JsonVal::Obj(_))) {
                Branch::ErrObj
            } else if e is None && (o matches Some(JsonVal::Str(_))) {
                Branch::OkStr
            } else if e is None && (o matches Some(JsonVal::Obj(_))) {
                Branch::OkObj
            } else {
                Branch::Other
            }
        },
        _ => Branch::Other,
    }
}

/// One log event entry after encryption: string keys and string values are
/// replaced by their field-encrypted form, anything else is untouched.
pub open spec fn tr_log_entry(e: (Seq<u8>, JsonVal), key: Seq<u8>) -> (Seq<u8>, JsonVal) {
    match e.1 {
        JsonVal::Str(_) => if e.0 == k_key() || e.0 == k_value() {
            (e.0, JsonVal::Str(field_cipher(key, e.1)))
        } else {
            e
        },
        _ => e,
    }
}

/// One log event after encryption; an event that is not an object is
/// untouched.
pub open spec fn tr_log_el(el: JsonVal, key: Seq<u8>) -> JsonVal {
    match el {
        JsonVal::Obj(es) => JsonVal::Obj(Seq::new(es.len(), |i: int| tr_log_entry(es[i], key))),
        _ => el,
    }
}

/// The log sequence after encryption, in the original order.
pub open spec fn tr_log(ls: Seq<JsonVal>, key: Seq<u8>) -> Seq<JsonVal> {
    Seq::new(ls.len(), |i: int| tr_log_el(ls[i], key))
}

/// One entry of the success object after its transforms: the message
/// sequence is re-encrypted, log events are encrypted, a string data field
/// is encrypted; everything else is untouched.
pub open spec fn tr_ok_entry(
    e: (Seq<u8>, JsonVal),
    key: Seq<u8>,
    nonce: Seq<u8>,
    pk: Seq<u8>,
) -> (Seq<u8>, JsonVal) {
    if e.0 == k_messages() && e.1 is Arr {
        (e.0, JsonVal::Arr(tr_msgs(e.1->Arr_0, key, nonce, pk)))
    } else if e.0 == k_log() && e.1 is Arr {
        (e.0, JsonVal::Arr(tr_log(e.1->Arr_0, key)))
    } else if e.0 == k_data() && e.1 is Str {
        (e.0, JsonVal::Str(field_cipher(key, e.1)))
    } else {
        e
    }
}

/// The success object's entries after the transforms.
pub open spec fn tr_ok_obj(
    oes: Seq<(Seq<u8>, JsonVal)>,
    key: Seq<u8>,
    nonce: Seq<u8>,
    pk: Seq<u8>,
) -> Seq<(Seq<u8>, JsonVal)> {
    Seq::new(oes.len(), |i: int| tr_ok_entry(oes[i], key, nonce, pk))
}

/// Whether one entry of the success object fits the schema: a message
/// sequence must hold only well-shaped elements.
pub open spec fn ok_entry_ok(e: (Seq<u8>, JsonVal)) -> bool {
    (e.0 == k_messages() && e.1 is Arr) ==> msgs_ok(e.1->Arr_0)
}

/// Whether one top-level entry fits the schema.
pub open spec fn top_entry_ok(e: (Seq<u8>, JsonVal)) -> bool {
    (e.0 == k_ok() && e.1 is Obj) ==> forall|i: int|
        0 <= i < e.1->Obj_0.len() ==> ok_entry_ok(#[trigger] e.1->Obj_0[i])
}

/// Whether the whole document fits the schema: only the success-object
/// branch constrains it, through its message sequence.
pub open spec fn doc_ok(doc: JsonVal) -> bool {
    classify(doc) == Branch::OkObj ==> (doc matches JsonVal::Obj(es) && forall|i: int|
        0 <= i < es.len() ==> top_entry_ok(#[trigger] es[i]))
}

/// Whether one log event entry encrypts: a string key or value must
/// canonicalize to JSON text; the cipher itself cannot fail.
pub open spec fn log_entry_enc_ok(e: (Seq<u8>, JsonVal)) -> bool {
    ((e.0 == k_key() || e.0 == k_value()) && e.1 is Str) ==> ser_ok_of(e.1)
}

/// Whether one log event encrypts.
pub open spec fn log_el_enc_ok(el: JsonVal) -> bool {
    el matches JsonVal::Obj(es) ==> forall|i: int|
        0 <= i < es.len() ==> log_entry_enc_ok(#[trigger] es[i])
}

/// Whether the whole log encrypts.
pub open spec fn log_enc_ok(ls: Seq<JsonVal>) -> bool {
    forall|i: int| 0 <= i < ls.len() ==> log_el_enc_ok(#[trigger] ls[i])
}

/// Whether one success-object entry encrypts: log events and a string data
/// field must canonicalize; message payloads always encrypt.
pub open spec fn ok_entry_enc_ok(e: (Seq<u8>, JsonVal)) -> bool {
    &&& ((e.0 == k_log() && e.1 is Arr) ==> log_enc_ok(e.1->Arr_0))
    &&& ((e.0 == k_data() && e.1 is Str) ==> ser_ok_of(e.1))
}

/// Whether the success object encrypts.
pub open spec fn okobj_enc_ok(oes: Seq<(Seq<u8>, JsonVal)>) -> bool {
    forall|i: int| 0 <= i < oes.len() ==> ok_entry_enc_ok(#[trigger] oes[i])
}

/// Whether one top-level entry of the error branch encrypts.
pub open spec fn err_entry_enc_ok(e: (Seq<u8>, JsonVal)) -> bool {
    (e.0 == k_err() && e.1 is Obj) ==> ser_ok_of(e.1)
}

/// Whether the error branch encrypts.
pub open spec fn err_entries_enc_ok(es: Seq<(Seq<u8>, JsonVal)>) -> bool {
    forall|i: int| 0 <= i < es.len() ==> err_entry_enc_ok(#[trigger] es[i])
}

/// Whether one top-level entry of the string-success branch encrypts.
pub open spec fn okstr_entry_enc_ok(e: (Seq<u8>, JsonVal)) -> bool {
    (e.0 == k_ok() && e.1 is Str) ==> ser_ok_of(e.1)
}

/// Whether the string-success branch encrypts.
pub open spec fn okstr_entries_enc_ok(es: Seq<(Seq<u8>, JsonVal)>) -> bool {
    forall|i: int| 0 <= i < es.len() ==> okstr_entry_enc_ok(#[trigger] es[i])
}

/// Whether one top-level entry of the object-success branch encrypts.
pub open spec fn okobj_entry_enc_ok(e: (Seq<u8>, JsonVal)) -> bool {
    (e.0 == k_ok() && e.1 is Obj) ==> okobj_enc_ok(e.1->Obj_0)
}

/// Whether the object-success branch encrypts.
pub open spec fn okobj_entries_enc_ok(es: Seq<(Seq<u8>, JsonVal)>) -> bool {
    forall|i: int| 0 <= i < es.len() ==> okobj_entry_enc_ok(#[trigger] es[i])
}

/// Whether every field the selected branch encrypts canonicalizes, so that
/// the encryption pass itself cannot fail.
pub open spec fn enc_ok(doc: JsonVal) -> bool {
    match doc {
        JsonVal::Obj(es) => if classify(doc) == Branch::ErrObj {
            err_entries_enc_ok(es)
        } else if classify(doc) == Branch::OkStr {
            okstr_entries_enc_ok(es)
        } else if classify(doc) == Branch::OkObj {
            okobj_entries_enc_ok(es)
        } else {
            true
        },
        _ => true,
    }
}

/// The replacement for a populated error member: a generic error object
/// whose message is the field-encrypted original error object.
pub open spec fn generic_err_value(key: Seq<u8>, errval: JsonVal) -> JsonVal {
    JsonVal::Obj(
        seq![
            (
                k_generic_err(),
                JsonVal::Obj(seq![(k_msg(), JsonVal::Str(field_cipher(key, errval)))]),
            ),
        ],
    )
}

/// One top-level entry in the error branch after encryption.
pub open spec fn tr_err_entry(e: (Seq<u8>, JsonVal), key: Seq<u8>) -> (Seq<u8>, JsonVal) {
    if e.0 == k_err() && e.1 is Obj {
        (e.0, generic_err_value(key, e.1))
    } else {
        e
    }
}

/// One top-level entry in the string-success branch after encryption.
pub open spec fn tr_okstr_entry(e: (Seq<u8>, JsonVal), key: Seq<u8>) -> (Seq<u8>, JsonVal) {
    if e.0 == k_ok() && e.1 is Str {
        (e.0, JsonVal::Str(field_cipher(key, e.1)))
    } else {
        e
    }
}

/// One top-level entry in the object-success branch after its transforms.
pub open spec fn tr_okobj_entry(
    e: (Seq<u8>, JsonVal),
    key: Seq<u8>,
    nonce: Seq<u8>,
    pk: Seq<u8>,
) -> (Seq<u8>, JsonVal) {
    if e.0 == k_ok() && e.1 is Obj {
        (e.0, JsonVal::Obj(tr_ok_obj(e.1->Obj_0, key, nonce, pk)))
    } else {
        e
    }
}

/// The whole document transform: None exactly on a schema mismatch in the
/// message sequence, otherwise the document with the selected branch's
/// fields encrypted, its shape kept.
pub open spec fn transform(doc: JsonVal, key: Seq<u8>, nonce: Seq<u8>, pk: Seq<u8>) -> Option<
    JsonVal,
> {
    if !doc_ok(doc) {
        None
    } else {
        match doc {
            JsonVal::Obj(es) => Some(
                JsonVal::Obj(
                    if classify(doc) == Branch::ErrObj {
                        Seq::new(es.len(), |i: int| tr_err_entry(es[i], key))
                    } else if classify(doc) == Branch::OkStr {
                        Seq::new(es.len(), |i: int| tr_okstr_entry(es[i], key))
                    } else if classify(doc) == Branch::OkObj {
                        Seq::new(es.len(), |i: int| tr_okobj_entry(es[i], key, nonce, pk))
                    } else {
                        es
                    },
                ),
            ),
            _ => Some(doc),
        }
    }
}

/// Classifies a parsed document.
pub fn classify_doc(doc: &Json) -> (r: Branch)
    ensures
        r == classify(model(*doc)),
{
    match doc {
        Json::Obj(es) => {
            proof {
                lemma_model_entries(es@);
            }
            let ke = name_bytes(FieldName::ErrField);
            let ko = name_bytes(FieldName::OkField);
            let fe = find(es, ke.as_slice());
            let fo = find(es, ko.as_slice());
            match (fe, fo) {
                (Some(_), Some(_)) => Branch::Other,
                (Some(ev), None) => match ev {
                    Json::Obj(_) => Branch::ErrObj,
                    _ => Branch::Other,
                },
                (None, Some(ov)) => match ov {
                    Json::Str(_) => Branch::OkStr,
                    Json::Obj(_) => Branch::OkObj,
                    _ => Branch::Other,
                },
                (None, None) => Branch::Other,
            }
        },
        _ => Branch::Other,
    }
}

/// Whether one entry of the success object fits the schema.
fn check_ok_entry(e: &(Vec<u8>, Json)) -> (r: bool)
    ensures
        r == ok_entry_ok((e.0@, model(e.1))),
{
    if bytes_eq(e.0.as_slice(), name_bytes(FieldName::Messages).as_slice()) {
        match &e.1 {
            Json::Arr(ms) => crate::msg::check_msgs(ms),
            _ => true,
        }
    } else {
        true
    }
}

/// Whether one top-level entry fits the schema.
fn check_top_entry(e: &(Vec<u8>, Json)) -> (r: bool)
    ensures
        r == top_entry_ok((e.0@, model(e.1))),
{
    if bytes_eq(e.0.as_slice(), name_bytes(FieldName::OkField).as_slice()) {
        match &e.1 {
            Json::Obj(oes) => {
                proof {
                    lemma_model_entries(oes@);
                }
                let n = oes.len();
                for i in 0..n
                    invariant
                        e.0@ == k_ok(),
                        e.1 == Json::Obj(*oes),
                        n == oes@.len(),
                        model_entries(oes@).len() == n,
                        forall|j: int| 0 <= j < n ==> model_entries(oes@)[j] == (
                            oes@[j].0@,
                            model(oes@[j].1),
                        ),
                        forall|j: int| 0 <= j < i ==> ok_entry_ok(
                            #[trigger] model_entries(oes@)[j],
                        ),
                    decreases n - i,
                {
                    if !check_ok_entry(&oes[i]) {
                        proof {
                            let x = (e.0@, model(e.1));
                            assert(x.1 == model(e.1));
                            assert(model(e.1) == JsonVal::Obj(model_entries(oes@)));
                            assert(x.1->Obj_0 == model_entries(oes@));
                            assert(!ok_entry_ok(x.1->Obj_0[i as int]));
                            assert(!top_entry_ok(x));
                        }
                        return false;
                    }
                }
                true
            },
            _ => true,
        }
    } else {
        true
    }
}

/// Whether the whole document fits the schema.
fn check_doc(doc: &Json) -> (r: bool)
    ensures
        r == doc_ok(model(*doc)),
{
    let branch = classify_doc(doc);
    if !matches!(branch, Branch::OkObj) {
        return true;
    }
    match doc {
        Json::Obj(es) => {
            proof {
                lemma_model_entries(es@);
            }
            let n = es.len();
            for i in 0..n
                invariant
                    *doc == Json::Obj(*es),
                    classify(model(*doc)) == Branch::OkObj,
                    n == es@.len(),
                    model_entries(es@).len() == n,
                    forall|j: int| 0 <= j < n ==> model_entries(es@)[j] == (
                        es@[j].0@,
                        model(es@[j].1),
                    ),
                    forall|j: int| 0 <= j < i ==> top_entry_ok(#[trigger] model_entries(es@)[j]),
                decreases n - i,
            {
                if !check_top_entry(&es[i]) {
                    proof {
                        let d = model(*doc);
                        assert(d == JsonVal::Obj(model_entries(es@)));
                        assert(d->Obj_0 == model_entries(es@));
                        assert(!top_entry_ok(d->Obj_0[i as int]));
                        assert(!doc_ok(d));
                    }
                    return false;
                }
            }
            true
        },
        _ => true,
    }
}

/// Encrypts one log event in place of the old one.
fn transform_log_el(el: &Json, key: &AESKey) -> (r: Result<Json, EnclaveError>)
    ensures
        r is Ok <==> log_el_enc_ok(model(*el)),
        r matches Ok(nel) ==> model(nel) == tr_log_el(model(*el), key@),
        r matches Err(e) ==> e == EnclaveError::EncryptionError,
{
    match el {
        Json::Obj(es) => {
            proof {
                lemma_model_entries(es@);
            }
            let ghost em = model_entries(es@);
            let mut out: Vec<(Vec<u8>, Json)> = Vec::new();
            let n = es.len();
            for i in 0..n
                invariant
                    *el == Json::Obj(*es),
                    n == es@.len(),
                    em == model_entries(es@),
                    em.len() == n,
                    forall|j: int| 0 <= j < n ==> em[j] == (es@[j].0@, model(es@[j].1)),
                    out@.len() == i,
                    forall|j: int| 0 <= j < i ==> log_entry_enc_ok(#[trigger] em[j]),
                    forall|j: int| 0 <= j < i ==> ((#[trigger] out@[j]).0@, model(out@[j].1))
                        == tr_log_entry(em[j], key@),
                decreases n - i,
            {
                let e = &es[i];
                let is_key = bytes_eq(e.0.as_slice(), name_bytes(FieldName::Key).as_slice());
                let is_value = bytes_eq(e.0.as_slice(), name_bytes(FieldName::Value).as_slice());
                let is_str = match &e.1 {
                    Json::Str(_) => true,
                    _ => false,
                };
                let new_entry: (Vec<u8>, Json) = if (is_key || is_value) && is_str {
                    match encrypt_serializeable(key, &e.1) {
                        Ok(ct) => (slice_to_vec(e.0.as_slice()), Json::Str(ct)),
                        Err(err) => {
                            proof {
                                assert(!log_entry_enc_ok(em[i as int]));
                                assert(model(*el) == JsonVal::Obj(model_entries(es@)));
                                assert(!log_entry_enc_ok(model(*el)->Obj_0[i as int]));
                                assert(!log_el_enc_ok(model(*el)));
                            }
                            return Err(err);
                        },
                    }
                } else {
                    (slice_to_vec(e.0.as_slice()), clone_json(&e.1))
                };
                proof {
                    assert(log_entry_enc_ok(em[i as int]));
                    assert((new_entry.0@, model(new_entry.1)) == tr_log_entry(em[i as int], key@));
                }
                out.push(new_entry);
            }
            proof {
                lemma_model_entries(out@);
                assert(model_entries(out@) =~= Seq::new(
                    em.len(),
                    |i: int| tr_log_entry(em[i], key@),
                ));
                assert(log_el_enc_ok(model(*el)));
            }
            Ok(Json::Obj(out))
        },
        _ => Ok(clone_json(el)),
    }
}

/// Encrypts the key and value strings of every log event, keeping order.
fn transform_log(ls: &Vec<Json>, key: &AESKey) -> (r: Result<Vec<Json>, EnclaveError>)
    ensures
        r is Ok <==> log_enc_ok(model_seq(ls@)),
        r matches Ok(nl) ==> model_seq(nl@) == tr_log(model_seq(ls@), key@),
        r matches Err(e) ==> e == EnclaveError::EncryptionError,
{
    proof {
        lemma_model_seq(ls@);
    }
    let ghost lm = model_seq(ls@);
    let mut out: Vec<Json> = Vec::new();
    let n = ls.len();
    for i in 0..n
        invariant
            n == ls@.len(),
            lm == model_seq(ls@),
            lm.len() == n,
            forall|j: int| 0 <= j < n ==> lm[j] == model(ls@[j]),
            out@.len() == i,
            forall|j: int| 0 <= j < i ==> log_el_enc_ok(#[trigger] lm[j]),
            forall|j: int| 0 <= j < i ==> model(#[trigger] out@[j]) == tr_log_el(lm[j], key@),
        decreases n - i,
    {
        let nel = match transform_log_el(&ls[i], key) {
            Ok(x) => x,
            Err(err) => {
                proof {
                    assert(!log_el_enc_ok(model_seq(ls@)[i as int]));
                    assert(!log_enc_ok(model_seq(ls@)));
                }
                return Err(err);
            },
        };
        out.push(nel);
    }
    proof {
        lemma_model_seq(out@);
        assert(model_seq(out@) =~= tr_log(lm, key@));
        assert(log_enc_ok(lm));
    }
    Ok(out)
}

/// Applies the success-object transforms to its entries, after validation.
fn transform_ok_obj(
    oes: &Vec<(Vec<u8>, Json)>,
    key: &AESKey,
    nonce: &IoNonce,
    pk: &Ed25519PublicKey,
) -> (r: Result<Vec<(Vec<u8>, Json)>, EnclaveError>)
    requires
        forall|i: int| 0 <= i < model_entries(oes@).len() ==> ok_entry_ok(
            #[trigger] model_entries(oes@)[i],
        ),
    ensures
        r is Ok <==> okobj_enc_ok(model_entries(oes@)),
        r matches Ok(no) ==> model_entries(no@) == tr_ok_obj(model_entries(oes@), key@, nonce@,
            pk@),
        r matches Err(e) ==> e == EnclaveError::EncryptionError,
{
    proof {
        lemma_model_entries(oes@);
    }
    let ghost om = model_entries(oes@);
    let mut out: Vec<(Vec<u8>, Json)> = Vec::new();
    let n = oes.len();
    for i in 0..n
        invariant
            n == oes@.len(),
            om == model_entries(oes@),
            om.len() == n,
            forall|j: int| 0 <= j < n ==> om[j] == (oes@[j].0@, model(oes@[j].1)),
            forall|j: int| 0 <= j < n ==> ok_entry_ok(#[trigger] om[j]),
            out@.len() == i,
            forall|j: int| 0 <= j < i ==> ok_entry_enc_ok(#[trigger] om[j]),
            forall|j: int| 0 <= j < i ==> ((#[trigger] out@[j]).0@, model(out@[j].1))
                == tr_ok_entry(om[j], key@, nonce@, pk@),
        decreases n - i,
    {
        let e = &oes[i];
        let is_messages = bytes_eq(e.0.as_slice(), name_bytes(FieldName::Messages).as_slice());
        let is_log = bytes_eq(e.0.as_slice(), name_bytes(FieldName::Log).as_slice());
        let is_data = bytes_eq(e.0.as_slice(), name_bytes(FieldName::Data).as_slice());
        let new_entry: (Vec<u8>, Json) = match &e.1 {
            Json::Arr(ms) if is_messages => {
                proof {
                    assert(ok_entry_ok(om[i as int]));
                    assert(msgs_ok(model(e.1)->Arr_0));
                }
                match transform_msgs(ms, key, nonce, pk) {
                    Ok(nms) => (slice_to_vec(e.0.as_slice()), Json::Arr(nms)),
                    Err(_) => {
                        return Err(EnclaveError::EncryptionError);
                    },
                }
            },
            Json::Arr(ls) if is_log => {
                match transform_log(ls, key) {
                    Ok(nl) => (slice_to_vec(e.0.as_slice()), Json::Arr(nl)),
                    Err(err) => {
                        proof {
                            assert(!log_enc_ok(om[i as int].1->Arr_0));
                            assert(!ok_entry_enc_ok(om[i as int]));
                            assert(!okobj_enc_ok(om));
                        }
                        return Err(err);
                    },
                }
            },
            Json::Str(_) if is_data => {
                match encrypt_serializeable(key, &e.1) {
                    Ok(ct) => (slice_to_vec(e.0.as_slice()), Json::Str(ct)),
                    Err(err) => {
                        proof {
                            assert(!ser_ok_of(om[i as int].1));
                            assert(!ok_entry_enc_ok(om[i as int]));
                            assert(!okobj_enc_ok(om));
                        }
                        return Err(err);
                    },
                }
            },
            _ => (slice_to_vec(e.0.as_slice()), clone_json(&e.1)),
        };
        proof {
            assert(ok_entry_enc_ok(om[i as int]));
            assert((new_entry.0@, model(new_entry.1)) == tr_ok_entry(
                om[i as int],
                key@,
                nonce@,
                pk@,
            ));
        }
        out.push(new_entry);
    }
    proof {
        lemma_model_entries(out@);
        assert(model_entries(out@) =~= tr_ok_obj(om, key@, nonce@, pk@));
        assert(okobj_enc_ok(om));
    }
    Ok(out)
}

/// Builds the generic error object around an encrypted error member.
fn build_generic_err(ct: Vec<u8>) -> (r: Json)
    ensures
        model(r) matches JsonVal::Obj(es) && es.len() == 1 && es[0].0 == k_generic_err()
            && (es[0].1 matches JsonVal::Obj(inner) && inner.len() == 1 && inner[0].0 == k_msg()
            && inner[0].1 == JsonVal::Str(ct@)),
{
    let ghost ctv = ct@;
    let msg_key = name_bytes(FieldName::Msg);
    let mut inner: Vec<(Vec<u8>, Json)> = Vec::new();
    inner.push((msg_key, Json::Str(ct)));
    proof {
        lemma_model_entries(inner@);
        assert(model_entries(inner@)[0] == (k_msg(), JsonVal::Str(ctv)));
    }
    let ghost iv = inner@;
    let gkey = name_bytes(FieldName::GenericErr);
    let mut outer: Vec<(Vec<u8>, Json)> = Vec::new();
    outer.push((gkey, Json::Obj(inner)));
    proof {
        lemma_model_entries(outer@);
        assert(model_entries(outer@)[0].0 == k_generic_err());
        assert(model_entries(outer@)[0].1 == JsonVal::Obj(model_entries(iv)));
    }
    Json::Obj(outer)
}

/// Rewrites the top-level entries of the error branch.
fn transform_err_entries(es: &Vec<(Vec<u8>, Json)>, key: &AESKey) -> (r: Result<
    Vec<(Vec<u8>, Json)>,
    EnclaveError,
>)
    ensures
        r is Ok <==> err_entries_enc_ok(model_entries(es@)),
        r matches Ok(nes) ==> model_entries(nes@) == Seq::new(
            model_entries(es@).len(),
            |i: int| tr_err_entry(model_entries(es@)[i], key@),
        ),
        r matches Err(e) ==> e == EnclaveError::EncryptionError,
{
    proof {
        lemma_model_entries(es@);
    }
    let ghost em = model_entries(es@);
    let mut out: Vec<(Vec<u8>, Json)> = Vec::new();
    let n = es.len();
    for i in 0..n
        invariant
            n == es@.len(),
            em == model_entries(es@),
            em.len() == n,
            forall|j: int| 0 <= j < n ==> em[j] == (es@[j].0@, model(es@[j].1)),
            out@.len() == i,
            forall|j: int| 0 <= j < i ==> err_entry_enc_ok(#[trigger] em[j]),
            forall|j: int| 0 <= j < i ==> ((#[trigger] out@[j]).0@, model(out@[j].1))
                == tr_err_entry(em[j], key@),
        decreases n - i,
    {
        let e = &es[i];
        let is_err = bytes_eq(e.0.as_slice(), name_bytes(FieldName::ErrField).as_slice());
        let is_obj = match &e.1 {
            Json::Obj(_) => true,
            _ => false,
        };
        let new_entry: (Vec<u8>, Json) = if is_err && is_obj {
            match encrypt_serializeable(key, &e.1) {
                Ok(ct) => (slice_to_vec(e.0.as_slice()), build_generic_err(ct)),
                Err(err) => {
                    proof {
                        assert(!err_entry_enc_ok(em[i as int]));
                        assert(!err_entries_enc_ok(em));
                    }
                    return Err(err);
                },
            }
        } else {
            (slice_to_vec(e.0.as_slice()), clone_json(&e.1))
        };
        proof {
            assert(err_entry_enc_ok(em[i as int]));
            if is_err && is_obj {
                let m = model(new_entry.1);
                let g = generic_err_value(key@, em[i as int].1);
                assert(m->Obj_0[0].1->Obj_0 =~= g->Obj_0[0].1->Obj_0);
                assert(m->Obj_0[0].1 =~~= g->Obj_0[0].1);
                assert(m->Obj_0 =~= g->Obj_0);
                assert(m =~~= g);
            }
            assert((new_entry.0@, model(new_entry.1)) == tr_err_entry(em[i as int], key@));
        }
        out.push(new_entry);
    }
    proof {
        lemma_model_entries(out@);
        assert(model_entries(out@) =~= Seq::new(em.len(), |i: int| tr_err_entry(em[i], key@)));
        assert(err_entries_enc_ok(em));
    }
    Ok(out)
}

/// Rewrites the top-level entries of the string-success branch.
fn transform_okstr_entries(es: &Vec<(Vec<u8>, Json)>, key: &AESKey) -> (r: Result<
    Vec<(Vec<u8>, Json)>,
    EnclaveError,
>)
    ensures
        r is Ok <==> okstr_entries_enc_ok(model_entries(es@)),
        r matches Ok(nes) ==> model_entries(nes@) == Seq::new(
            model_entries(es@).len(),
            |i: int| tr_okstr_entry(model_entries(es@)[i], key@),
        ),
        r matches Err(e) ==> e == EnclaveError::EncryptionError,
{
    proof {
        lemma_model_entries(es@);
    }
    let ghost em = model_entries(es@);
    let mut out: Vec<(Vec<u8>, Json)> = Vec::new();
    let n = es.len();
    for i in 0..n
        invariant
            n == es@.len(),
            em == model_entries(es@),
            em.len() == n,
            forall|j: int| 0 <= j < n ==> em[j] == (es@[j].0@, model(es@[j].1)),
            out@.len() == i,
            forall|j: int| 0 <= j < i ==> okstr_entry_enc_ok(#[trigger] em[j]),
            forall|j: int| 0 <= j < i ==> ((#[trigger] out@[j]).0@, model(out@[j].1))
                == tr_okstr_entry(em[j], key@),
        decreases n - i,
    {
        let e = &es[i];
        let is_ok = bytes_eq(e.0.as_slice(), name_bytes(FieldName::OkField).as_slice());
        let is_str = match &e.1 {
            Json::Str(_) => true,
            _ => false,
        };
        let new_entry: (Vec<u8>, Json) = if is_ok && is_str {
            match encrypt_serializeable(key, &e.1) {
                Ok(ct) => (slice_to_vec(e.0.as_slice()), Json::Str(ct)),
                Err(err) => {
                    proof {
                        assert(!okstr_entry_enc_ok(em[i as int]));
                        assert(!okstr_entries_enc_ok(em));
                    }
                    return Err(err);
                },
            }
        } else {
            (slice_to_vec(e.0.as_slice()), clone_json(&e.1))
        };
        proof {
            assert(okstr_entry_enc_ok(em[i as int]));
            assert((new_entry.0@, model(new_entry.1)) == tr_okstr_entry(em[i as int], key@));
        }
        out.push(new_entry);
    }
    proof {
        lemma_model_entries(out@);
        assert(model_entries(out@) =~= Seq::new(em.len(), |i: int| tr_okstr_entry(em[i], key@)));
        assert(okstr_entries_enc_ok(em));
    }
    Ok(out)
}

/// Rewrites the top-level entries of the object-success branch.
fn transform_okobj_entries(
    es: &Vec<(Vec<u8>, Json)>,
    key: &AESKey,
    nonce: &IoNonce,
    pk: &Ed25519PublicKey,
) -> (r: Result<Vec<(Vec<u8>, Json)>, EnclaveError>)
    requires
        forall|i: int| 0 <= i < model_entries(es@).len() ==> top_entry_ok(
            #[trigger] model_entries(es@)[i],
        ),
    ensures
        r is Ok <==> okobj_entries_enc_ok(model_entries(es@)),
        r matches Ok(nes) ==> model_entries(nes@) == Seq::new(
            model_entries(es@).len(),
            |i: int| tr_okobj_entry(model_entries(es@)[i], key@, nonce@, pk@),
        ),
        r matches Err(e) ==> e == EnclaveError::EncryptionError,
{
    proof {
        lemma_model_entries(es@);
    }
    let ghost em = model_entries(es@);
    let mut out: Vec<(Vec<u8>, Json)> = Vec::new();
    let n = es.len();
    for i in 0..n
        invariant
            n == es@.len(),
            em == model_entries(es@),
            em.len() == n,
            forall|j: int| 0 <= j < n ==> em[j] == (es@[j].0@, model(es@[j].1)),
            forall|j: int| 0 <= j < n ==> top_entry_ok(#[trigger] em[j]),
            out@.len() == i,
            forall|j: int| 0 <= j < i ==> okobj_entry_enc_ok(#[trigger] em[j]),
            forall|j: int| 0 <= j < i ==> ((#[trigger] out@[j]).0@, model(out@[j].1))
                == tr_okobj_entry(em[j], key@, nonce@, pk@),
        decreases n - i,
    {
        let e = &es[i];
        let is_ok = bytes_eq(e.0.as_slice(), name_bytes(FieldName::OkField).as_slice());
        let new_entry: (Vec<u8>, Json) = match &e.1 {
            Json::Obj(oes) if is_ok => {
                proof {
                    assert(top_entry_ok(em[i as int]));
                    lemma_model_entries(oes@);
                    assert(model(e.1) == JsonVal::Obj(model_entries(oes@)));
                    assert forall|j: int| 0 <= j < model_entries(oes@).len() implies ok_entry_ok(
                        #[trigger] model_entries(oes@)[j],
                    ) by {
                        assert(ok_entry_ok(em[i as int].1->Obj_0[j]));
                    }
                }
                match transform_ok_obj(oes, key, nonce, pk) {
                    Ok(no) => (slice_to_vec(e.0.as_slice()), Json::Obj(no)),
                    Err(err) => {
                        proof {
                            assert(em[i as int].1->Obj_0 == model_entries(oes@));
                            assert(!okobj_entry_enc_ok(em[i as int]));
                            assert(!okobj_entries_enc_ok(em));
                        }
                        return Err(err);
                    },
                }
            },
            _ => (slice_to_vec(e.0.as_slice()), clone_json(&e.1)),
        };
        proof {
            assert(okobj_entry_enc_ok(em[i as int]));
            assert((new_entry.0@, model(new_entry.1)) == tr_okobj_entry(
                em[i as int],
                key@,
                nonce@,
                pk@,
            ));
        }
        out.push(new_entry);
    }
    proof {
        lemma_model_entries(out@);
        assert(model_entries(out@) =~= Seq::new(
            em.len(),
            |i: int| tr_okobj_entry(em[i], key@, nonce@, pk@),
        ));
        assert(okobj_entries_enc_ok(em));
    }
    Ok(out)
}

/// The output encryption pipeline. Parses the result bytes, derives the
/// request key from (nonce, caller public key) under the environment's
/// keypair, encrypts the selected branch's fields, and re-serializes.
///
/// On success the output is exactly the serialization of the transformed
/// document, and success is owed: it holds if and only if the bytes parse,
/// the document fits the schema, every field the selected branch encrypts
/// canonicalizes, and the transformed document serializes. Each error names
/// its own condition the same way, and no partial output is ever produced.
pub fn encrypt_output(
    output: Vec<u8>,
    nonce: IoNonce,
    user_public_key: Ed25519PublicKey,
    io_keypair: &KeyPair,
) -> (r: Result<Vec<u8>, EnclaveError>)
    ensures
        r is Ok <==> (parse_of(output@) matches Some(doc) && doc_ok(doc) && enc_ok(doc)
            && ser_ok_of(
            transform(
                doc,
                derived_key(io_keypair.secret@, user_public_key@, nonce@),
                nonce@,
                user_public_key@,
            )->0,
        )),
        r matches Ok(out) ==> (parse_of(output@) matches Some(doc) && transform(
            doc,
            derived_key(io_keypair.secret@, user_public_key@, nonce@),
            nonce@,
            user_public_key@,
        ) matches Some(doc2) && out@ == ser_of(doc2)),
        r matches Err(e) ==> ((e == EnclaveError::FailedToDeserialize <==> (parse_of(output@)
            is None || !doc_ok(parse_of(output@)->0))) && (e == EnclaveError::EncryptionError <==> (
        parse_of(output@) matches Some(doc) && doc_ok(doc) && !enc_ok(doc))) && (e
            == EnclaveError::FailedToSerialize <==> (parse_of(output@) matches Some(doc) && doc_ok(
            doc,
        ) && enc_ok(doc) && !ser_ok_of(
            transform(
                doc,
                derived_key(io_keypair.secret@, user_public_key@, nonce@),
                nonce@,
                user_public_key@,
            )->0,
        )))),
{
    let key = calc_encryption_key(&nonce, &user_public_key, io_keypair);
    let parsed = match parse_json(output.as_slice()) {
        Some(v) => v,
        None => {
            return Err(EnclaveError::FailedToDeserialize);
        },
    };
    let ghost pm = model(parsed);
    if !check_doc(&parsed) {
        return Err(EnclaveError::FailedToDeserialize);
    }
    let branch = classify_doc(&parsed);
    let transformed: Json = match parsed {
        Json::Obj(es) => {
            proof {
                lemma_model_entries(es@);
            }
            let nes = match branch {
                Branch::ErrObj => transform_err_entries(&es, &key),
                Branch::OkStr => transform_okstr_entries(&es, &key),
                Branch::OkObj => {
                    proof {
                        assert(pm == JsonVal::Obj(model_entries(es@)));
                        assert forall|i: int|
                            0 <= i < model_entries(es@).len() implies top_entry_ok(
                            #[trigger] model_entries(es@)[i],
                        ) by {
                            assert(top_entry_ok(pm->Obj_0[i]));
                        }
                    }
                    transform_okobj_entries(&es, &key, &nonce, &user_public_key)
                },
                Branch::Other => Ok(es),
            };
            match nes {
                Ok(v) => {
                    proof {
                        assert(pm == JsonVal::Obj(model_entries(es@)));
                        assert(enc_ok(pm));
                    }
                    Json::Obj(v)
                },
                Err(e) => {
                    proof {
                        assert(pm == JsonVal::Obj(model_entries(es@)));
                        assert(!enc_ok(pm));
                    }
                    return Err(e);
                },
            }
        },
        other => {
            proof {
                assert(enc_ok(pm));
            }
            other
        },
    };
    proof {
        assert(transform(pm, key@, nonce@, user_public_key@) matches Some(d2) && model(transformed)
            == d2);
        assert(enc_ok(pm));
    }
    match json_ser(&transformed) {
        Some(b) => Ok(b),
        None => Err(EnclaveError::FailedToSerialize),
    }
}

} // verus!
