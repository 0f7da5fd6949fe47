//! The document tree and the walker: visits every node of a JSON document,
//! applies the field-inclusion rule and classifier to each object field, and
//! rewrites matched scalar fields in place with tokens minted by the
//! registry, appending one audit record per visited scalar field.

use vstd::prelude::*;
use crate::audit::{AuditLog, log_sorted, sorted_insert};
use crate::classify::{GuestimatedType, classify_normalize, classify_normalize_vec, in_scope, key_in_scope};
use crate::registry::{Registry, reg_insert_spec, reg_ordinal};
use crate::text::{chars_eq_str, from_char_vec, lower_of, lowercase_str, to_char_vec};
use crate::tokens::{
    changed_record,
    changed_record_str,
    json_quote,
    json_quote_str,
    make_token,
    prefix_of,
    token_spec,
    unchanged_record,
    unchanged_record_str,
};

verus! {

broadcast use vstd::std_specs::vec::axiom_vec_index_decreases;

/// A JSON document node. A number is carried as its textual representation,
/// which is all the redactor ever reads of it; object fields keep their
/// stored order.
#[derive(Debug, PartialEq)]
pub enum Json {
    Null,
    Bool(bool),
    Number(String),
    String(String),
    Array(Vec<Json>),
    Object(Vec<(String, Json)>),
}

/// The mathematical shape of a document node.
#[verifier::ext_equal]
pub enum JsonV {
    Null,
    Bool(bool),
    Number(Seq<char>),
    String(Seq<char>),
    Array(Seq<JsonV>),
    Object(Seq<(Seq<char>, JsonV)>),
}

/// The mathematical value of a document node.
pub open spec fn jview(n: Json) -> JsonV
    decreases n, 0int,
{
    match n {
        Json::Null => JsonV::Null,
        Json::Bool(b) => JsonV::Bool(b),
        Json::Number(s) => JsonV::Number(s@),
        Json::String(s) => JsonV::String(s@),
        Json::Array(elems) => JsonV::Array(jview_arr(elems, 0)),
        Json::Object(fields) => JsonV::Object(jview_obj(fields, 0)),
    }
}

/// The mathematical values of the array elements from position `i` on.
pub open spec fn jview_arr(elems: Vec<Json>, i: int) -> Seq<JsonV>
    decreases elems, elems@.len() - i, 1int,
{
    if i < 0 || i >= elems@.len() {
        Seq::<JsonV>::empty()
    } else {
        seq![jview(elems@[i])] + jview_arr(elems, i + 1)
    }
}

/// The mathematical values of the object fields from position `i` on.
pub open spec fn jview_obj(fields: Vec<(String, Json)>, i: int) -> Seq<(Seq<char>, JsonV)>
    decreases fields, fields@.len() - i, 1int,
{
    if i < 0 || i >= fields@.len() {
        Seq::<(Seq<char>, JsonV)>::empty()
    } else {
        seq![(fields@[i].0@, jview(fields@[i].1))] + jview_obj(fields, i + 1)
    }
}

/// `jview_arr` views the elements pointwise.
pub proof fn lemma_jview_arr(elems: Vec<Json>, i: int)
    requires
        0 <= i <= elems@.len(),
    ensures
        jview_arr(elems, i).len() == elems@.len() - i,
        forall|j: int|
            0 <= j < elems@.len() - i ==> jview_arr(elems, i)[j] == jview(elems@[i + j]),
    decreases elems@.len() - i,
{
    if i < elems@.len() {
        lemma_jview_arr(elems, i + 1);
    }
}

/// `jview_obj` views the fields pointwise.
pub proof fn lemma_jview_obj(fields: Vec<(String, Json)>, i: int)
    requires
        0 <= i <= fields@.len(),
    ensures
        jview_obj(fields, i).len() == fields@.len() - i,
        forall|j: int|
            0 <= j < fields@.len() - i ==> jview_obj(fields, i)[j] == (
            fields@[i + j].0@,
            jview(fields@[i + j].1),
            ),
    decreases fields@.len() - i,
{
    if i < fields@.len() {
        lemma_jview_obj(fields, i + 1);
    }
}

/// What one visited object field does to the value, the registry contents,
/// and the log contents.
pub open spec fn mutate_field(
    key: Seq<char>,
    v: JsonV,
    reg: Seq<Seq<char>>,
    log: Seq<Seq<char>>,
) -> (JsonV, Seq<Seq<char>>, Seq<Seq<char>>) {
    if in_scope(key) {
        match v {
            JsonV::String(s) => {
                let lower = lower_of(s);
                if lower == "true"@ || lower == "false"@ {
                    (JsonV::String(lower), reg, log)
                } else {
                    let (t, norm) = classify_normalize(lower);
                    let token = token_spec(prefix_of(t), reg_ordinal(reg, norm) as nat);
                    (
                        JsonV::String(token),
                        reg_insert_spec(reg, norm),
                        sorted_insert(log, changed_record(key, s, token)),
                    )
                }
            },
            JsonV::Number(ntext) => {
                let token = token_spec("number"@, reg_ordinal(reg, ntext) as nat);
                (
                    JsonV::String(token),
                    reg_insert_spec(reg, ntext),
                    sorted_insert(log, changed_record(key, ntext, token)),
                )
            },
            _ => (v, reg, log),
        }
    } else {
        match v {
            JsonV::String(s) => (v, reg, sorted_insert(log, unchanged_record(key, json_quote(s)))),
            JsonV::Number(ntext) => (v, reg, sorted_insert(log, unchanged_record(key, ntext))),
            _ => (v, reg, log),
        }
    }
}

/// What the walker does to one whole node.
pub open spec fn walk_node(n: JsonV, reg: Seq<Seq<char>>, log: Seq<Seq<char>>) -> (
    JsonV,
    Seq<Seq<char>>,
    Seq<Seq<char>>,
)
    decreases n, 0int,
{
    match n {
        JsonV::Array(elems) => {
            let r = walk_elems(elems, 0, reg, log);
            (JsonV::Array(r.0), r.1, r.2)
        },
        JsonV::Object(fields) => {
            let r = walk_fields(fields, 0, reg, log);
            (JsonV::Object(r.0), r.1, r.2)
        },
        _ => (n, reg, log),
    }
}

/// What the walker does to the array elements from position `i` on.
pub open spec fn walk_elems(
    elems: Seq<JsonV>,
    i: int,
    reg: Seq<Seq<char>>,
    log: Seq<Seq<char>>,
) -> (Seq<JsonV>, Seq<Seq<char>>, Seq<Seq<char>>)
    decreases elems, elems.len() - i, 1int,
{
    if i < 0 || i >= elems.len() {
        (Seq::<JsonV>::empty(), reg, log)
    } else {
        let h = walk_node(elems[i], reg, log);
        let t = walk_elems(elems, i + 1, h.1, h.2);
        (seq![h.0] + t.0, t.1, t.2)
    }
}

/// What the walker does to one object field: a nested array or object is
/// recursed into (the field rule leaves it untouched); a scalar is handed to
/// the field rule, and rewriting it leaves nothing to recurse into.
pub open spec fn walk_field(key: Seq<char>, v: JsonV, reg: Seq<Seq<char>>, log: Seq<Seq<char>>) -> (
    JsonV,
    Seq<Seq<char>>,
    Seq<Seq<char>>,
)
    decreases v, 1int,
{
    match v {
        JsonV::Array(_) => walk_node(v, reg, log),
        JsonV::Object(_) => walk_node(v, reg, log),
        _ => mutate_field(key, v, reg, log),
    }
}

/// What the walker does to the object fields from position `i` on.
pub open spec fn walk_fields(
    fields: Seq<(Seq<char>, JsonV)>,
    i: int,
    reg: Seq<Seq<char>>,
    log: Seq<Seq<char>>,
) -> (Seq<(Seq<char>, JsonV)>, Seq<Seq<char>>, Seq<Seq<char>>)
    decreases fields, fields.len() - i, 1int,
{
    if i < 0 || i >= fields.len() {
        (Seq::<(Seq<char>, JsonV)>::empty(), reg, log)
    } else {
        let key = fields[i].0;
        let m = walk_field(key, fields[i].1, reg, log);
        let t = walk_fields(fields, i + 1, m.1, m.2);
        (seq![(key, m.0)] + t.0, t.1, t.2)
    }
}

fn make_token_for(t: GuestimatedType, ordinal: usize) -> (r: String)
    ensures
        r@ == token_spec(prefix_of(t), ordinal as nat),
{
    match t {
        GuestimatedType::Phone => make_token("phone", ordinal),
        GuestimatedType::Email => make_token("email", ordinal),
        GuestimatedType::Name => make_token("name_", ordinal),
        GuestimatedType::Dunno => make_token("dunno", ordinal),
    }
}

/// Applies the field-inclusion rule and classifier to one (key, value) pair,
/// replacing an in-scope scalar by its token and logging its disposition.
pub fn mutate_value(key: &String, value: Json, reg: &mut Registry, log: &mut AuditLog) -> (r: Json)
    requires
        old(reg).inv(),
        log_sorted(old(log).view()),
    ensures
        final(reg).inv(),
        log_sorted(final(log).view()),
        jview(r) == mutate_field(key@, jview(value), old(reg).view(), old(log).view()).0,
        final(reg).view() == mutate_field(key@, jview(value), old(reg).view(), old(log).view()).1,
        final(log).view() == mutate_field(key@, jview(value), old(reg).view(), old(log).view()).2,
{
    let scoped = key_in_scope(key.as_str());
    if scoped {
        match value {
            Json::String(s) => {
                let lower = lowercase_str(s.as_str());
                let lchars = to_char_vec(lower.as_str());
                if chars_eq_str(&lchars, "true") || chars_eq_str(&lchars, "false") {
                    return Json::String(lower);
                }
                let (t, normv) = classify_normalize_vec(lchars);
                let norm = from_char_vec(&normv);
                let ordinal = reg.insert_if_absent(&norm);
                let token = make_token_for(t, ordinal);
                let rec = changed_record_str(key, &s, &token);
                log.add(rec);
                Json::String(token)
            },
            Json::Number(ntext) => {
                let ordinal = reg.insert_if_absent(&ntext);
                let token = make_token("number", ordinal);
                let rec = changed_record_str(key, &ntext, &token);
                log.add(rec);
                Json::String(token)
            },
            other => other,
        }
    } else {
        match value {
            Json::String(s) => {
                let shown = json_quote_str(s.as_str());
                let rec = unchanged_record_str(key, &shown);
                log.add(rec);
                Json::String(s)
            },
            Json::Number(ntext) => {
                let rec = unchanged_record_str(key, &ntext);
                log.add(rec);
                Json::Number(ntext)
            },
            other => other,
        }
    }
}

/// Walks one node recursively, rewriting in-scope scalar fields of every
/// object beneath it and logging every visited scalar field.
#[verifier::loop_isolation(false)]
pub fn process_node(node: Json, reg: &mut Registry, log: &mut AuditLog) -> (r: Json)
    requires
        old(reg).inv(),
        log_sorted(old(log).view()),
    ensures
        final(reg).inv(),
        log_sorted(final(log).view()),
        jview(r) == walk_node(jview(node), old(reg).view(), old(log).view()).0,
        final(reg).view() == walk_node(jview(node), old(reg).view(), old(log).view()).1,
        final(log).view() == walk_node(jview(node), old(reg).view(), old(log).view()).2,
    decreases node,
{
    let ghost g = node;
    match node {
        Json::Null => Json::Null,
        Json::Bool(b) => Json::Bool(b),
        Json::Number(s) => Json::Number(s),
        Json::String(s) => Json::String(s),
        Json::Array(mut elems) => {
            let ghost ev0 = elems;
            let ghost vs = jview_arr(ev0, 0);
            let ghost reg0 = reg.view();
            let ghost log0 = log.view();
            proof {
                lemma_jview_arr(ev0, 0);
                assert(jview(g) == JsonV::Array(vs));
                assert(elems@ =~= ev0@.skip(0));
            }
            let mut out: Vec<Json> = Vec::new();
            let ghost mut outv: Seq<JsonV> = Seq::<JsonV>::empty();
            let mut k: usize = 0;
            proof {
                assert(outv + walk_elems(vs, 0, reg0, log0).0 =~= walk_elems(vs, 0, reg0, log0).0);
                assert(decreases_to!(g => ev0));
            }
            while elems.len() > 0
                invariant
                    decreases_to!(g => ev0),
                    reg.inv(),
                    log_sorted(log.view()),
                    vs == jview_arr(ev0, 0),
                    vs.len() == ev0@.len(),
                    forall|j: int| 0 <= j < vs.len() ==> vs[j] == jview(ev0@[j]),
                    k + elems@.len() == ev0@.len(),
                    elems@ == ev0@.skip(k as int),
                    out@.len() == k,
                    outv.len() == k,
                    forall|j: int| 0 <= j < k ==> jview(out@[j]) == outv[j],
                    walk_elems(vs, 0, reg0, log0).0 == outv + walk_elems(
                        vs,
                        k as int,
                        reg.view(),
                        log.view(),
                    ).0,
                    walk_elems(vs, 0, reg0, log0).1 == walk_elems(
                        vs,
                        k as int,
                        reg.view(),
                        log.view(),
                    ).1,
                    walk_elems(vs, 0, reg0, log0).2 == walk_elems(
                        vs,
                        k as int,
                        reg.view(),
                        log.view(),
                    ).2,
                decreases elems@.len(),
            {
                let ghost reg_mid = reg.view();
                let ghost log_mid = log.view();
                let ghost outv_old = outv;
                let e = elems.remove(0);
                proof {
                    assert(e == ev0@[k as int]);
                    assert(ev0@.skip(k as int).remove(0) =~= ev0@.skip(k + 1));
                    assert(decreases_to!(ev0 => ev0@[k as int]));
                    assert(decreases_to!(g => e));
                }
                let e2 = process_node(e, reg, log);
                proof {
                    assert(jview(e) == vs[k as int]);
                    let h = walk_node(vs[k as int], reg_mid, log_mid);
                    let t = walk_elems(vs, k + 1, h.1, h.2);
                    assert(walk_elems(vs, k as int, reg_mid, log_mid) == (
                        seq![h.0] + t.0,
                        t.1,
                        t.2,
                    ));
                    assert(jview(e2) == h.0);
                    assert(reg.view() == h.1);
                    assert(log.view() == h.2);
                    outv = outv_old.push(h.0);
                    assert(outv_old + (seq![h.0] + t.0) =~= outv + t.0);
                }
                out.push(e2);
                k = out.len();
            }
            proof {
                assert(k == ev0@.len());
                assert(walk_elems(vs, k as int, reg.view(), log.view()).0
                    =~= Seq::<JsonV>::empty());
                assert(walk_elems(vs, 0, reg0, log0).0 =~= outv);
                lemma_jview_arr(out, 0);
                assert(jview_arr(out, 0) =~= outv);
            }
            Json::Array(out)
        },
        Json::Object(mut fields) => {
            let ghost fv0 = fields;
            let ghost fs = jview_obj(fv0, 0);
            let ghost reg0 = reg.view();
            let ghost log0 = log.view();
            proof {
                lemma_jview_obj(fv0, 0);
                assert(jview(g) == JsonV::Object(fs));
                assert(fields@ =~= fv0@.skip(0));
            }
            let mut out: Vec<(String, Json)> = Vec::new();
            let ghost mut outv: Seq<(Seq<char>, JsonV)> = Seq::<(Seq<char>, JsonV)>::empty();
            let mut k: usize = 0;
            proof {
                assert(outv + walk_fields(fs, 0, reg0, log0).0 =~= walk_fields(
                    fs,
                    0,
                    reg0,
                    log0,
                ).0);
                assert(decreases_to!(g => fv0));
            }
            while fields.len() > 0
                invariant
                    decreases_to!(g => fv0),
                    reg.inv(),
                    log_sorted(log.view()),
                    fs == jview_obj(fv0, 0),
                    fs.len() == fv0@.len(),
                    forall|j: int|
                        0 <= j < fs.len() ==> fs[j] == (fv0@[j].0@, jview(fv0@[j].1)),
                    k + fields@.len() == fv0@.len(),
                    fields@ == fv0@.skip(k as int),
                    out@.len() == k,
                    outv.len() == k,
                    forall|j: int|
                        0 <= j < k ==> (out@[j].0@, jview(out@[j].1)) == outv[j],
                    walk_fields(fs, 0, reg0, log0).0 == outv + walk_fields(
                        fs,
                        k as int,
                        reg.view(),
                        log.view(),
                    ).0,
                    walk_fields(fs, 0, reg0, log0).1 == walk_fields(
                        fs,
                        k as int,
                        reg.view(),
                        log.view(),
                    ).1,
                    walk_fields(fs, 0, reg0, log0).2 == walk_fields(
                        fs,
                        k as int,
                        reg.view(),
                        log.view(),
                    ).2,
                decreases fields@.len(),
            {
                let ghost reg_mid = reg.view();
                let ghost log_mid = log.view();
                let ghost outv_old = outv;
                let pair = fields.remove(0);
                let (key, val) = pair;
                proof {
                    assert(pair == fv0@[k as int]);
                    assert(fv0@.skip(k as int).remove(0) =~= fv0@.skip(k + 1));
                    assert(decreases_to!(fv0 => fv0@[k as int]));
                    assert(decreases_to!(fv0@[k as int] => fv0@[k as int].1));
                    assert(decreases_to!(g => val));
                }
                let composite = match &val {
                    Json::Array(_) => true,
                    Json::Object(_) => true,
                    _ => false,
                };
                let val2 = if composite {
                    process_node(val, reg, log)
                } else {
                    mutate_value(&key, val, reg, log)
                };
                proof {
                    let keyv = fs[k as int].0;
                    let vv = fs[k as int].1;
                    assert(keyv == key@);
                    assert(vv == jview(val));
                    let m = walk_field(keyv, vv, reg_mid, log_mid);
                    assert(jview(val2) == m.0);
                    assert(reg.view() == m.1);
                    assert(log.view() == m.2);
                    let t = walk_fields(fs, k + 1, m.1, m.2);
                    assert(walk_fields(fs, k as int, reg_mid, log_mid) == (
                        seq![(keyv, m.0)] + t.0,
                        t.1,
                        t.2,
                    ));
                    outv = outv_old.push((keyv, m.0));
                    assert(outv_old + (seq![(keyv, m.0)] + t.0) =~= outv + t.0);
                }
                out.push((key, val2));
                k = out.len();
            }
            proof {
                assert(k == fv0@.len());
                assert(walk_fields(fs, k as int, reg.view(), log.view()).0 =~= Seq::<
                    (Seq<char>, JsonV),
                >::empty());
                assert(walk_fields(fs, 0, reg0, log0).0 =~= outv);
                lemma_jview_obj(out, 0);
                assert(jview_obj(out, 0) =~= outv);
            }
            Json::Object(out)
        },
    }
}

/// Redacts a whole document: walks it with a fresh registry and log, and
/// returns the rewritten document together with the sorted, deduplicated
/// audit-record lines.
pub fn redact_document(doc: Json) -> (r: (Json, Vec<String>))
    ensures
        jview(r.0) == walk_node(
            jview(doc),
            Seq::<Seq<char>>::empty(),
            Seq::<Seq<char>>::empty(),
        ).0,
        r.1@.len() == walk_node(
            jview(doc),
            Seq::<Seq<char>>::empty(),
            Seq::<Seq<char>>::empty(),
        ).2.len(),
        forall|i: int|
            0 <= i < r.1@.len() ==> r.1@[i]@ == walk_node(
                jview(doc),
                Seq::<Seq<char>>::empty(),
                Seq::<Seq<char>>::empty(),
            ).2[i],
        log_sorted(
            walk_node(jview(doc), Seq::<Seq<char>>::empty(), Seq::<Seq<char>>::empty()).2,
        ),
{
    let mut reg = Registry::new();
    let mut log = AuditLog::new();
    let out = process_node(doc, &mut reg, &mut log);
    let lines = log.into_lines();
    (out, lines)
}

} // verus!
