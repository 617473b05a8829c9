//! The document model: a JSON tree with strings, numbers and object keys held
//! as UTF-8 bytes, and its mathematical shape `JsonVal` used by all contracts.

use vstd::prelude::*;

verus! {

/// A JSON document. Numbers keep their decimal text; strings keep their
/// UTF-8 bytes; objects keep their entries in document order.
pub enum Json {
    Null,
    Bool(bool),
    Num(Vec<u8>),
    Str(Vec<u8>),
    Arr(Vec<Json>),
    Obj(Vec<(Vec<u8>, Json)>),
}

/// The mathematical shape of a JSON document.
#[verifier::ext_equal]
pub enum JsonVal {
    Null,
    Bool(bool),
    Num(Seq<u8>),
    Str(Seq<u8>),
    Arr(Seq<JsonVal>),
    Obj(Seq<(Seq<u8>, JsonVal)>),
}

pub open spec fn model(j: Json) -> JsonVal
    decreases j,
{
    match j {
        Json::Null => JsonVal::Null,
        Json::Bool(b) => JsonVal::Bool(b),
        Json::Num(s) => JsonVal::Num(s@),
        Json::Str(s) => JsonVal::Str(s@),
        Json::Arr(a) => JsonVal::Arr(model_seq(a@)),
        Json::Obj(es) => JsonVal::Obj(model_entries(es@)),
    }
}

pub open spec fn model_seq(s: Seq<Json>) -> Seq<JsonVal>
    decreases s,
{
    if s.len() == 0 {
        Seq::empty()
    } else {
        model_seq(s.drop_last()).push(model(s.last()))
    }
}

pub open spec fn model_entries(s: Seq<(Vec<u8>, Json)>) -> Seq<(Seq<u8>, JsonVal)>
    decreases s,
{
    if s.len() == 0 {
        Seq::empty()
    } else {
        model_entries(s.drop_last()).push((s.last().0@, model(s.last().1)))
    }
}

pub broadcast proof fn lemma_model_seq(s: Seq<Json>)
    ensures
        (#[trigger] model_seq(s)).len() == s.len(),
        forall|i: int| 0 <= i < s.len() ==> model_seq(s)[i] == model(s[i]),
    decreases s,
{
    if s.len() > 0 {
        lemma_model_seq(s.drop_last());
    }
}

pub broadcast proof fn lemma_model_entries(s: Seq<(Vec<u8>, Json)>)
    ensures
        (#[trigger] model_entries(s)).len() == s.len(),
        forall|i: int| 0 <= i < s.len() ==> model_entries(s)[i] == (s[i].0@, model(s[i].1)),
    decreases s,
{
    if s.len() > 0 {
        lemma_model_entries(s.drop_last());
    }
}

/// First-match lookup of a key in an object's entries, from position `i` on.
pub open spec fn lookup_from(es: Seq<(Seq<u8>, JsonVal)>, k: Seq<u8>, i: int) -> Option<JsonVal>
    decreases es.len() - i,
{
    if 0 <= i < es.len() {
        if es[i].0 == k {
            Some(es[i].1)
        } else {
            lookup_from(es, k, i + 1)
        }
    } else {
        None
    }
}

/// First-match lookup of a key in an object's entries.
pub open spec fn lookup(es: Seq<(Seq<u8>, JsonVal)>, k: Seq<u8>) -> Option<JsonVal> {
    lookup_from(es, k, 0)
}

/// "Err"
pub open spec fn k_err() -> Seq<u8> {
    seq![69u8, 114u8, 114u8]
}

/// "Ok"
pub open spec fn k_ok() -> Seq<u8> {
    seq![79u8, 107u8]
}

/// "messages"
pub open spec fn k_messages() -> Seq<u8> {
    seq![109u8, 101u8, 115u8, 115u8, 97u8, 103u8, 101u8, 115u8]
}

/// "log"
pub open spec fn k_log() -> Seq<u8> {
    seq![108u8, 111u8, 103u8]
}

/// "data"
pub open spec fn k_data() -> Seq<u8> {
    seq![100u8, 97u8, 116u8, 97u8]
}

/// "wasm"
pub open spec fn k_wasm() -> Seq<u8> {
    seq![119u8, 97u8, 115u8, 109u8]
}

/// "execute"
pub open spec fn k_execute() -> Seq<u8> {
    seq![101u8, 120u8, 101u8, 99u8, 117u8, 116u8, 101u8]
}

/// "instantiate"
pub open spec fn k_instantiate() -> Seq<u8> {
    seq![105u8, 110u8, 115u8, 116u8, 97u8, 110u8, 116u8, 105u8, 97u8, 116u8, 101u8]
}

/// "contract_addr"
pub open spec fn k_contract_addr() -> Seq<u8> {
    seq![99u8, 111u8, 110u8, 116u8, 114u8, 97u8, 99u8, 116u8, 95u8, 97u8, 100u8, 100u8, 114u8]
}

/// "code_hash"
pub open spec fn k_code_hash() -> Seq<u8> {
    seq![99u8, 111u8, 100u8, 101u8, 95u8, 104u8, 97u8, 115u8, 104u8]
}

/// "msg"
pub open spec fn k_msg() -> Seq<u8> {
    seq![109u8, 115u8, 103u8]
}

/// "send"
pub open spec fn k_send() -> Seq<u8> {
    seq![115u8, 101u8, 110u8, 100u8]
}

/// "code_id"
pub open spec fn k_code_id() -> Seq<u8> {
    seq![99u8, 111u8, 100u8, 101u8, 95u8, 105u8, 100u8]
}

/// "label"
pub open spec fn k_label() -> Seq<u8> {
    seq![108u8, 97u8, 98u8, 101u8, 108u8]
}

/// "key"
pub open spec fn k_key() -> Seq<u8> {
    seq![107u8, 101u8, 121u8]
}

/// "value"
pub open spec fn k_value() -> Seq<u8> {
    seq![118u8, 97u8, 108u8, 117u8, 101u8]
}

/// "generic_err"
pub open spec fn k_generic_err() -> Seq<u8> {
    seq![103u8, 101u8, 110u8, 101u8, 114u8, 105u8, 99u8, 95u8, 101u8, 114u8, 114u8]
}

/// Builds one of the field-name constants above as bytes.
pub fn name_bytes(which: FieldName) -> (r: Vec<u8>)
    ensures
        r@ == name_spec(which),
{
    let mut v: Vec<u8> = Vec::new();
    match which {
        FieldName::ErrField => {
            v.push(69);
            v.push(114);
            v.push(114);
        },
        FieldName::OkField => {
            v.push(79);
            v.push(107);
        },
        FieldName::Messages => {
            v.push(109);
            v.push(101);
            v.push(115);
            v.push(115);
            v.push(97);
            v.push(103);
            v.push(101);
            v.push(115);
        },
        FieldName::Log => {
            v.push(108);
            v.push(111);
            v.push(103);
        },
        FieldName::Data => {
            v.push(100);
            v.push(97);
            v.push(116);
            v.push(97);
        },
        FieldName::Wasm => {
            v.push(119);
            v.push(97);
            v.push(115);
            v.push(109);
        },
        FieldName::Execute => {
            v.push(101);
            v.push(120);
            v.push(101);
            v.push(99);
            v.push(117);
            v.push(116);
            v.push(101);
        },
        FieldName::Instantiate => {
            v.push(105);
            v.push(110);
            v.push(115);
            v.push(116);
            v.push(97);
            v.push(110);
            v.push(116);
            v.push(105);
            v.push(97);
            v.push(116);
            v.push(101);
        },
        FieldName::ContractAddr => {
            v.push(99);
            v.push(111);
            v.push(110);
            v.push(116);
            v.push(114);
            v.push(97);
            v.push(99);
            v.push(116);
            v.push(95);
            v.push(97);
            v.push(100);
            v.push(100);
            v.push(114);
        },
        FieldName::CodeHash => {
            v.push(99);
            v.push(111);
            v.push(100);
            v.push(101);
            v.push(95);
            v.push(104);
            v.push(97);
            v.push(115);
            v.push(104);
        },
        FieldName::Msg => {
            v.push(109);
            v.push(115);
            v.push(103);
        },
        FieldName::Send => {
            v.push(115);
            v.push(101);
            v.push(110);
            v.push(100);
        },
        FieldName::CodeId => {
            v.push(99);
            v.push(111);
            v.push(100);
            v.push(101);
            v.push(95);
            v.push(105);
            v.push(100);
        },
        FieldName::Label => {
            v.push(108);
            v.push(97);
            v.push(98);
            v.push(101);
            v.push(108);
        },
        FieldName::Key => {
            v.push(107);
            v.push(101);
            v.push(121);
        },
        FieldName::Value => {
            v.push(118);
            v.push(97);
            v.push(108);
            v.push(117);
            v.push(101);
        },
        FieldName::GenericErr => {
            v.push(103);
            v.push(101);
            v.push(110);
            v.push(101);
            v.push(114);
            v.push(105);
            v.push(99);
            v.push(95);
            v.push(101);
            v.push(114);
            v.push(114);
        },
    }
    proof {
        assert(v@ =~= name_spec(which));
    }
    v
}

/// The field names that the transformation reads or rewrites.
#[derive(Clone, Copy, PartialEq, Eq, Structural)]
pub enum FieldName {
    ErrField,
    OkField,
    Messages,
    Log,
    Data,
    Wasm,
    Execute,
    Instantiate,
    ContractAddr,
    CodeHash,
    Msg,
    Send,
    CodeId,
    Label,
    Key,
    Value,
    GenericErr,
}

pub open spec fn name_spec(which: FieldName) -> Seq<u8> {
    match which {
        FieldName::ErrField => k_err(),
        FieldName::OkField => k_ok(),
        FieldName::Messages => k_messages(),
        FieldName::Log => k_log(),
        FieldName::Data => k_data(),
        FieldName::Wasm => k_wasm(),
        FieldName::Execute => k_execute(),
        FieldName::Instantiate => k_instantiate(),
        FieldName::ContractAddr => k_contract_addr(),
        FieldName::CodeHash => k_code_hash(),
        FieldName::Msg => k_msg(),
        FieldName::Send => k_send(),
        FieldName::CodeId => k_code_id(),
        FieldName::Label => k_label(),
        FieldName::Key => k_key(),
        FieldName::Value => k_value(),
        FieldName::GenericErr => k_generic_err(),
    }
}

/// Byte-wise equality of two byte slices.
pub fn bytes_eq(a: &[u8], b: &[u8]) -> (r: bool)
    ensures
        r == (a@ == b@),
{
    if a.len() != b.len() {
        assert(a@ != b@) by {
            assert(a@.len() != b@.len());
        }
        return false;
    }
    let n = a.len();
    for i in 0..n
        invariant
            n == a@.len() == b@.len(),
            forall|j: int| 0 <= j < i ==> a@[j] == b@[j],
    {
        if a[i] != b[i] {
            return false;
        }
    }
    proof {
        assert(a@ =~= b@);
    }
    true
}

/// Finds the value of the first entry whose key equals `k`.
pub fn find<'a>(es: &'a Vec<(Vec<u8>, Json)>, k: &[u8]) -> (r: Option<&'a Json>)
    ensures
        match r {
            Some(v) => lookup(model_entries(es@), k@) == Some(model(*v)),
            None => lookup(model_entries(es@), k@) is None,
        },
{
    proof {
        lemma_model_entries(es@);
    }
    let ghost me = model_entries(es@);
    let n = es.len();
    for i in 0..n
        invariant
            me == model_entries(es@),
            n == es@.len(),
            me.len() == n,
            forall|j: int| 0 <= j < n ==> me[j] == (es@[j].0@, model(es@[j].1)),
            lookup(me, k@) == lookup_from(me, k@, i as int),
    {
        if bytes_eq(es[i].0.as_slice(), k) {
            return Some(&es[i].1);
        }
    }
    None
}

/// A structural copy of a document, with the same shape.
pub fn clone_json(j: &Json) -> (r: Json)
    ensures
        model(r) == model(*j),
    decreases *j,
{
    match j {
        Json::Null => Json::Null,
        Json::Bool(b) => Json::Bool(*b),
        Json::Num(s) => Json::Num(vstd::slice::slice_to_vec(s.as_slice())),
        Json::Str(s) => Json::Str(vstd::slice::slice_to_vec(s.as_slice())),
        Json::Arr(a) => {
            let mut out: Vec<Json> = Vec::new();
            let n = a.len();
            for i in 0..n
                invariant
                    *j == Json::Arr(*a),
                    n == a@.len(),
                    out@.len() == i,
                    forall|k: int| 0 <= k < i ==> model(out@[k]) == model(a@[k]),
                decreases n - i,
            {
                proof {
                    assert(decreases_to!(*j => j->Arr_0));
                    assert(j->Arr_0 == *a);
                    assert(decreases_to!(*a => a@[i as int]));
                    assert(decreases_to!(*j => a@[i as int]));
                }
                out.push(clone_json(&a[i]));
            }
            proof {
                lemma_model_seq(out@);
                lemma_model_seq(a@);
                assert(model_seq(out@) =~= model_seq(a@));
            }
            Json::Arr(out)
        },
        Json::Obj(es) => Json::Obj(clone_entries(es)),
    }
}

/// A structural copy of an object's entries, with the same shape.
pub fn clone_entries(es: &Vec<(Vec<u8>, Json)>) -> (r: Vec<(Vec<u8>, Json)>)
    ensures
        model_entries(r@) == model_entries(es@),
    decreases es@,
{
    let mut out: Vec<(Vec<u8>, Json)> = Vec::new();
    let n = es.len();
    for i in 0..n
        invariant
            n == es@.len(),
            out@.len() == i,
            forall|k: int| 0 <= k < i
                ==> (#[trigger] out@[k]).0@ == es@[k].0@ && model(out@[k].1) == model(es@[k].1),
        decreases n - i,
    {
        let key = vstd::slice::slice_to_vec(es[i].0.as_slice());
        let val = clone_json(&es[i].1);
        out.push((key, val));
    }
    proof {
        lemma_model_entries(out@);
        lemma_model_entries(es@);
        assert(model_entries(out@) =~= model_entries(es@));
    }
    out
}

} // verus!
