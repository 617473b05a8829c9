//! Laws of the pipeline, proved over the same specification functions that
//! the public contracts use.

use vstd::prelude::*;

use crate::field::field_cipher;
use crate::json::{k_err, k_key, k_ok, k_value, k_wasm, lookup, JsonVal};
use crate::msg::tr_msgs;
use crate::output::{classify, doc_ok, enc_ok, tr_log, tr_ok_obj, transform, Branch};

verus! {

/// Determinism: the encrypted form of a field is a function of the key and
/// the value alone, so encrypting the same plaintext under the same key
/// twice yields byte-identical ciphertext.
pub proof fn lemma_field_encryption_deterministic(
    key: Seq<u8>,
    v: JsonVal,
    c1: Seq<u8>,
    c2: Seq<u8>,
)
    requires
        c1 == field_cipher(key, v),
        c2 == field_cipher(key, v),
    ensures
        c1 == c2,
{
}

/// Branch exclusivity: a document whose error and success members are both
/// populated, or neither, is treated as unrecognized and passes through the
/// transform unmodified; so does a document that is not an object. Such a
/// document fits the schema and has nothing to encrypt, so the pipeline owes
/// it success whenever it serializes again.
pub proof fn lemma_branch_exclusivity(doc: JsonVal, key: Seq<u8>, nonce: Seq<u8>, pk: Seq<u8>)
    requires
        doc matches JsonVal::Obj(es) ==> ((lookup(es, k_err()) is Some && lookup(es, k_ok())
            is Some) || (lookup(es, k_err()) is None && lookup(es, k_ok()) is None)),
    ensures
        transform(doc, key, nonce, pk) == Some(doc),
        doc_ok(doc),
        enc_ok(doc),
{
    match doc {
        JsonVal::Obj(es) => {
            assert(classify(doc) == Branch::Other);
            assert(doc_ok(doc));
            assert(transform(doc, key, nonce, pk) == Some(JsonVal::Obj(es)));
        },
        _ => {
            assert(classify(doc) == Branch::Other);
        },
    }
}

/// Shape preservation, top level: a transformed document is an object with
/// exactly the top-level keys of the original, in the original order.
pub proof fn lemma_transform_preserves_top_keys(
    doc: JsonVal,
    key: Seq<u8>,
    nonce: Seq<u8>,
    pk: Seq<u8>,
    doc2: JsonVal,
)
    requires
        transform(doc, key, nonce, pk) == Some(doc2),
        doc matches JsonVal::Obj(_),
    ensures
        doc2 is Obj,
        doc2->Obj_0.len() == doc->Obj_0.len(),
        forall|i: int| 0 <= i < doc->Obj_0.len() ==> (#[trigger] doc2->Obj_0[i]).0
            == doc->Obj_0[i].0,
{
}

/// Shape preservation, success object: the transformed success object has
/// exactly the keys of the original, in the original order.
pub proof fn lemma_ok_object_keys_preserved(
    oes: Seq<(Seq<u8>, JsonVal)>,
    key: Seq<u8>,
    nonce: Seq<u8>,
    pk: Seq<u8>,
)
    ensures
        tr_ok_obj(oes, key, nonce, pk).len() == oes.len(),
        forall|i: int| 0 <= i < oes.len() ==> (#[trigger] tr_ok_obj(oes, key, nonce, pk)[i]).0
            == oes[i].0,
{
}

/// Shape preservation, messages: the transformed message sequence has the
/// original length; an element that is not an object is unchanged; an object
/// element keeps all its entry keys in order, and its entries not tagged
/// wasm are unchanged.
pub proof fn lemma_messages_order_preserved(
    ms: Seq<JsonVal>,
    key: Seq<u8>,
    nonce: Seq<u8>,
    pk: Seq<u8>,
)
    ensures
        tr_msgs(ms, key, nonce, pk).len() == ms.len(),
        forall|i: int| 0 <= i < ms.len() && !(ms[i] is Obj) ==> tr_msgs(ms, key, nonce, pk)[i]
            == ms[i],
        forall|i: int| 0 <= i < ms.len() && ms[i] is Obj ==> (#[trigger] tr_msgs(
            ms,
            key,
            nonce,
            pk,
        )[i]) is Obj && tr_msgs(ms, key, nonce, pk)[i]->Obj_0.len() == ms[i]->Obj_0.len(),
        forall|i: int, j: int|
            0 <= i < ms.len() && ms[i] is Obj && 0 <= j < ms[i]->Obj_0.len() ==> (
            #[trigger] tr_msgs(ms, key, nonce, pk)[i]->Obj_0[j]).0 == ms[i]->Obj_0[j].0,
        forall|i: int, j: int|
            0 <= i < ms.len() && ms[i] is Obj && 0 <= j < ms[i]->Obj_0.len() && ms[i]->Obj_0[j].0
                != k_wasm() ==> (#[trigger] tr_msgs(ms, key, nonce, pk)[i]->Obj_0[j])
                == ms[i]->Obj_0[j],
{
}

/// Shape preservation, log: the transformed log has the original length; an
/// event that is not an object is unchanged; within an event, an entry whose
/// value is not a string, or whose name is neither key nor value, is
/// unchanged.
pub proof fn lemma_log_untouched(ls: Seq<JsonVal>, key: Seq<u8>)
    ensures
        tr_log(ls, key).len() == ls.len(),
        forall|i: int| 0 <= i < ls.len() && !(ls[i] is Obj) ==> tr_log(ls, key)[i] == ls[i],
        forall|i: int| 0 <= i < ls.len() && ls[i] is Obj ==> (#[trigger] tr_log(ls, key)[i]) is Obj
            && tr_log(ls, key)[i]->Obj_0.len() == ls[i]->Obj_0.len(),
        forall|i: int, j: int|
            0 <= i < ls.len() && ls[i] is Obj && 0 <= j < ls[i]->Obj_0.len() && (!(
            ls[i]->Obj_0[j].1 is Str) || (ls[i]->Obj_0[j].0 != k_key() && ls[i]->Obj_0[j].0
                != k_value())) ==> (#[trigger] tr_log(ls, key)[i]->Obj_0[j]) == ls[i]->Obj_0[j],
{
}

} // verus!
