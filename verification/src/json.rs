use vstd::prelude::*;

use crate::error::ConfigError;
use crate::value::{
    KindModel, Table, ConfigValue, ValueKind, ValueModel, array_model, entries_model, keys_unique,
    opt_text, table_wf, value_model, value_wf,
};

verus! {

/// Mathematical model of a raw JSON document node, as the underlying JSON
/// parser reports it: a number carries both the parser's whole-number reading
/// (when it has one) and its floating-point bit pattern.
pub enum JsonModel {
    Null,
    Bool(bool),
    Num { whole: Option<i64>, bits: u64 },
    Text(Seq<char>),
    Arr(Seq<JsonModel>),
    Obj(Seq<(Seq<char>, JsonModel)>),
}

/// A raw JSON document node handed over by the underlying JSON parser,
/// before conversion into the configuration value tree.
#[derive(Debug, PartialEq)]
pub enum Json {
    Null,
    Bool(bool),
    /// `whole` is the parser's exact whole-number reading when the literal has
    /// one; `bits` is the IEEE-754 bit pattern of its floating-point reading.
    Num { whole: Option<i64>, bits: u64 },
    Text(String),
    Arr(Vec<Json>),
    Obj(Vec<(String, Json)>),
}

pub open spec fn json_model(j: Json) -> JsonModel
    decreases j,
{
    match j {
        Json::Null => JsonModel::Null,
        Json::Bool(b) => JsonModel::Bool(b),
        Json::Num { whole, bits } => JsonModel::Num { whole, bits },
        Json::Text(s) => JsonModel::Text(s@),
        Json::Arr(vs) => JsonModel::Arr(json_seq_model(vs@)),
        Json::Obj(ps) => JsonModel::Obj(json_entries_model(ps@)),
    }
}

pub open spec fn json_seq_model(s: Seq<Json>) -> Seq<JsonModel>
    decreases s,
{
    Seq::new(
        s.len(),
        |i: int|
            if 0 <= i < s.len() {
                json_model(s[i])
            } else {
                JsonModel::Null
            },
    )
}

pub open spec fn json_entries_model(s: Seq<(String, Json)>) -> Seq<(Seq<char>, JsonModel)>
    decreases s,
{
    Seq::new(
        s.len(),
        |i: int|
            if 0 <= i < s.len() {
                (s[i].0@, json_model(s[i].1))
            } else {
                (Seq::empty(), JsonModel::Null)
            },
    )
}

impl View for Json {
    type V = JsonModel;

    open spec fn view(&self) -> JsonModel {
        json_model(*self)
    }
}

/// Every object in the document, at any depth, has pairwise distinct keys,
/// as the underlying parser's map representation guarantees.
pub open spec fn json_keys_unique(j: JsonModel) -> bool
    decreases j,
{
    match j {
        JsonModel::Arr(s) => forall|i: int| 0 <= i < s.len() ==> json_keys_unique(#[trigger] s[i]),
        JsonModel::Obj(ps) => (forall|i: int, k: int|
            0 <= i < k < ps.len() ==> (#[trigger] ps[i]).0 != (#[trigger] ps[k]).0) && forall|
            i: int,
        | 0 <= i < ps.len() ==> json_keys_unique((#[trigger] ps[i]).1),
        _ => true,
    }
}

/// The JSON document denoted by a text, if the text is well-formed JSON.
/// This names the outcome of the underlying JSON parser, which depends on
/// the text alone.
pub uninterp spec fn json_document(text: Seq<char>) -> Option<JsonModel>;

/// The diagnostic the underlying JSON parser renders for a text it cannot
/// parse; like the parse outcome itself, it depends on the text alone.
pub uninterp spec fn json_error_text(text: Seq<char>) -> Seq<char>;

/// Conversion of one raw JSON node into a value node: every node is tagged
/// with `o`; a number with a whole-number reading becomes an `Integer`, any
/// other number a `Float`; arrays and objects convert element by element.
pub open spec fn convert(o: Option<Seq<char>>, j: JsonModel) -> ValueModel
    decreases j,
{
    match j {
        JsonModel::Null => ValueModel { origin: o, kind: KindModel::Nil },
        JsonModel::Bool(b) => ValueModel { origin: o, kind: KindModel::Boolean(b) },
        JsonModel::Num { whole: Option::Some(i), bits } => ValueModel {
            origin: o,
            kind: KindModel::Integer(i),
        },
        JsonModel::Num { whole: Option::None, bits } => ValueModel {
            origin: o,
            kind: KindModel::Float(bits),
        },
        JsonModel::Text(s) => ValueModel { origin: o, kind: KindModel::Text(s) },
        JsonModel::Arr(s) => ValueModel { origin: o, kind: KindModel::Array(convert_seq(o, s)) },
        JsonModel::Obj(ps) => ValueModel {
            origin: o,
            kind: KindModel::Table(convert_entries(o, ps)),
        },
    }
}

pub open spec fn convert_seq(o: Option<Seq<char>>, s: Seq<JsonModel>) -> Seq<ValueModel>
    decreases s,
{
    Seq::new(
        s.len(),
        |i: int|
            if 0 <= i < s.len() {
                convert(o, s[i])
            } else {
                ValueModel { origin: o, kind: KindModel::Nil }
            },
    )
}

pub open spec fn convert_entries(o: Option<Seq<char>>, ps: Seq<(Seq<char>, JsonModel)>) -> Seq<
    (Seq<char>, ValueModel),
>
    decreases ps,
{
    Seq::new(
        ps.len(),
        |i: int|
            if 0 <= i < ps.len() {
                (ps[i].0, convert(o, ps[i].1))
            } else {
                (Seq::empty(), ValueModel { origin: o, kind: KindModel::Nil })
            },
    )
}

/// The root table a document denotes: the converted entries when the root is
/// an object, and the empty table otherwise.
pub open spec fn root_entries(o: Option<Seq<char>>, j: JsonModel) -> Seq<(Seq<char>, ValueModel)> {
    match j {
        JsonModel::Obj(ps) => convert_entries(o, ps),
        _ => Seq::empty(),
    }
}

pub open spec fn opt_text_ref(o: Option<&String>) -> Option<Seq<char>> {
    match o {
        Option::Some(s) => Option::Some(s@),
        Option::None => Option::None,
    }
}

#[verifier::external_type_specification]
#[verifier::external_body]
pub struct ExJsonValue(serde_json::Value);

/// Relies on `serde_json::Value`'s variants, `serde_json::Number::as_i64`
/// and `serde_json::Number::as_f64`: each node is carried over one-to-one,
/// a number as the pair of its whole-number reading, if it has one, and the
/// bit pattern of its floating-point reading.
#[verifier::external_body]
fn raw_json(v: &serde_json::Value) -> Json {
    match v {
        serde_json::Value::Null => Json::Null,
        serde_json::Value::Bool(b) => Json::Bool(*b),
        serde_json::Value::Number(n) => Json::Num {
            whole: n.as_i64(),
            bits: n.as_f64().map(|x| x.to_bits()).unwrap_or(0),
        },
        serde_json::Value::String(s) => Json::Text(s.clone()),
        serde_json::Value::Array(a) => Json::Arr(a.iter().map(raw_json).collect()),
        serde_json::Value::Object(o) => Json::Obj(
            o.iter().map(|(k, x)| (k.clone(), raw_json(x))).collect(),
        ),
    }
}

/// Relies on `serde_json::from_str`, and on `serde_json::Error`'s `Display`
/// for the diagnostic: whether the text parses, what document it denotes,
/// and the rendered diagnostic when it does not, are all functions of the
/// text alone, and a parsed object never holds two members with the same
/// key, since `serde_json` stores members in a map.
#[verifier::external_body]
fn parse_json_text(text: &str) -> (r: Result<Json, String>)
    ensures
        r matches Ok(j) ==> json_document(text@) == Option::Some(j@) && json_keys_unique(j@),
        r is Ok <==> json_document(text@) is Some,
        r matches Err(m) ==> m@ == json_error_text(text@),
{
    match serde_json::from_str::<serde_json::Value>(text) {
        Ok(v) => Ok(raw_json(&v)),
        Err(e) => Err(e.to_string()),
    }
}

fn clone_origin(uri: &Option<String>) -> (r: Option<String>)
    ensures
        opt_text(r) == opt_text(*uri),
{
    match uri {
        Option::Some(s) => Option::Some(s.clone()),
        Option::None => Option::None,
    }
}

/// Recursive structural conversion of a raw JSON node into a value node,
/// tagging every produced node with `uri`.
#[verifier::loop_isolation(false)]
pub fn from_json_value(uri: &Option<String>, j: &Json) -> (r: ConfigValue)
    ensures
        r@ == convert(opt_text(*uri), j@),
    decreases *j,
{
    let origin = clone_origin(uri);
    match j {
        Json::Null => ConfigValue { origin, kind: ValueKind::Nil },
        Json::Bool(b) => ConfigValue { origin, kind: ValueKind::Boolean(*b) },
        Json::Num { whole, bits } => match whole {
            Option::Some(i) => ConfigValue { origin, kind: ValueKind::Integer(*i) },
            Option::None => ConfigValue { origin, kind: ValueKind::Float(*bits) },
        },
        Json::Text(s) => ConfigValue { origin, kind: ValueKind::Text(s.clone()) },
        Json::Arr(vs) => {
            let mut out: Vec<ConfigValue> = Vec::new();
            let mut i: usize = 0;
            while i < vs.len()
                invariant
                    i <= vs.len(),
                    out@.len() == i,
                    forall|k: int|
                        0 <= k < i ==> value_model(#[trigger] out@[k]) == convert(
                            opt_text(*uri),
                            json_model(vs@[k]),
                        ),
                decreases vs@.len() - i,
            {
                proof {
                    assert(*j == Json::Arr(*vs));
                    assert(decreases_to!(Json::Arr(*vs) => *vs));
                    assert(decreases_to!(*vs => vs@[i as int]));
                    assert(decreases_to!(*j => vs@[i as int]));
                }
                let node = from_json_value(uri, &vs[i]);
                out.push(node);
                i = i + 1;
            }
            proof {
                assert(array_model(out@) =~= convert_seq(opt_text(*uri), json_seq_model(vs@)));
            }
            ConfigValue { origin, kind: ValueKind::Array(out) }
        },
        Json::Obj(ps) => {
            let mut out: Vec<(String, ConfigValue)> = Vec::new();
            let mut i: usize = 0;
            while i < ps.len()
                invariant
                    i <= ps.len(),
                    out@.len() == i,
                    forall|k: int|
                        0 <= k < i ==> (#[trigger] out@[k]).0@ == ps@[k].0@ && value_model(
                            out@[k].1,
                        ) == convert(opt_text(*uri), json_model(ps@[k].1)),
                decreases ps@.len() - i,
            {
                proof {
                    assert(*j == Json::Obj(*ps));
                    assert(decreases_to!(Json::Obj(*ps) => *ps));
                    assert(decreases_to!(*ps => ps@[i as int]));
                    assert(decreases_to!(ps@[i as int] => ps@[i as int].1));
                    assert(decreases_to!(*j => ps@[i as int].1));
                }
                let key = ps[i].0.clone();
                let node = from_json_value(uri, &ps[i].1);
                out.push((key, node));
                i = i + 1;
            }
            proof {
                assert(entries_model(out@) =~= convert_entries(
                    opt_text(*uri),
                    json_entries_model(ps@),
                ));
            }
            ConfigValue { origin, kind: ValueKind::Table(Table::from_entries(out)) }
        },
    }
}

/// A converted document is well-formed wherever the source document's
/// objects have pairwise distinct keys: conversion keeps every key.
pub proof fn lemma_convert_wf(o: Option<Seq<char>>, j: JsonModel)
    requires
        json_keys_unique(j),
    ensures
        value_wf(convert(o, j)),
    decreases j,
{
    match j {
        JsonModel::Arr(s) => {
            let c = convert(o, j);
            assert(c.kind == KindModel::Array(convert_seq(o, s)));
            assert forall|i: int| 0 <= i < convert_seq(o, s).len() implies value_wf(
                #[trigger] convert_seq(o, s)[i],
            ) by {
                lemma_convert_wf(o, s[i]);
            }
            assert(value_wf(c));
        },
        JsonModel::Obj(ps) => {
            assert forall|i: int| 0 <= i < convert_entries(o, ps).len() implies value_wf(
                (#[trigger] convert_entries(o, ps)[i]).1,
            ) by {
                lemma_convert_wf(o, ps[i].1);
            }
            assert(keys_unique(convert_entries(o, ps)));
            assert(value_wf(convert(o, j)));
        },
        _ => {},
    }
}

/// Every node of a converted document carries the origin of the parse
/// call, so the round-trip law applies to every tree that conversion
/// produces.
pub proof fn lemma_convert_uniform_origin(o: Option<Seq<char>>, j: JsonModel)
    ensures
        uniform_origin(convert(o, j), o),
    decreases j,
{
    match j {
        JsonModel::Arr(s) => {
            let c = convert(o, j);
            assert(c.kind == KindModel::Array(convert_seq(o, s)));
            assert forall|i: int| 0 <= i < convert_seq(o, s).len() implies uniform_origin(
                #[trigger] convert_seq(o, s)[i],
                o,
            ) by {
                lemma_convert_uniform_origin(o, s[i]);
            }
            assert(uniform_origin(c, o));
        },
        JsonModel::Obj(ps) => {
            let c = convert(o, j);
            assert(c.kind == KindModel::Table(convert_entries(o, ps)));
            assert forall|i: int| 0 <= i < convert_entries(o, ps).len() implies uniform_origin(
                (#[trigger] convert_entries(o, ps)[i]).1,
                o,
            ) by {
                lemma_convert_uniform_origin(o, ps[i].1);
            }
            assert(uniform_origin(c, o));
        },
        _ => {},
    }
}

/// The hypothetical serializer of the round-trip law: the raw document a
/// value tree denotes, dropping origins. An `Integer` serializes as the
/// whole-number literal, a `Float` as the literal with the same bit pattern.
pub open spec fn to_json(v: ValueModel) -> JsonModel
    decreases v,
{
    match v.kind {
        KindModel::Nil => JsonModel::Null,
        KindModel::Boolean(b) => JsonModel::Bool(b),
        KindModel::Integer(i) => JsonModel::Num { whole: Option::Some(i), bits: 0 },
        KindModel::Float(bits) => JsonModel::Num { whole: Option::None, bits },
        KindModel::Text(s) => JsonModel::Text(s),
        KindModel::Array(s) => JsonModel::Arr(
            Seq::new(
                s.len(),
                |i: int|
                    if 0 <= i < s.len() {
                        to_json(s[i])
                    } else {
                        JsonModel::Null
                    },
            ),
        ),
        KindModel::Table(es) => JsonModel::Obj(
            Seq::new(
                es.len(),
                |i: int|
                    if 0 <= i < es.len() {
                        (es[i].0, to_json(es[i].1))
                    } else {
                        (Seq::empty(), JsonModel::Null)
                    },
            ),
        ),
    }
}

/// Every node of the tree carries origin `o`, as every tree produced by one
/// parse call does.
pub open spec fn uniform_origin(v: ValueModel, o: Option<Seq<char>>) -> bool
    decreases v,
{
    v.origin == o && match v.kind {
        KindModel::Array(s) => forall|i: int|
            0 <= i < s.len() ==> uniform_origin(#[trigger] s[i], o),
        KindModel::Table(es) => forall|i: int|
            0 <= i < es.len() ==> uniform_origin((#[trigger] es[i]).1, o),
        _ => true,
    }
}

/// The round-trip law: converting the serialization of a value tree back
/// yields a structurally equal tree, key set and nesting mirrored exactly,
/// provided every node carries the origin the parse call would tag it with.
pub proof fn lemma_round_trip(o: Option<Seq<char>>, v: ValueModel)
    requires
        uniform_origin(v, o),
    ensures
        convert(o, to_json(v)) == v,
    decreases v,
{
    match v.kind {
        KindModel::Array(s) => {
            assert forall|i: int| 0 <= i < s.len() implies convert(
                o,
                to_json(#[trigger] s[i]),
            ) == s[i] by {
                lemma_round_trip(o, s[i]);
            }
            let c = convert(o, to_json(v));
            assert(c.kind matches KindModel::Array(cs) && cs =~= s);
            assert(c == v);
        },
        KindModel::Table(es) => {
            assert forall|i: int| 0 <= i < es.len() implies convert(
                o,
                to_json((#[trigger] es[i]).1),
            ) == es[i].1 by {
                lemma_round_trip(o, es[i].1);
            }
            let c = convert(o, to_json(v));
            assert(c.kind matches KindModel::Table(ces) && ces =~= es);
            assert(c == v);
        },
        _ => {},
    }
}

/// The round-trip law for parsed documents: serializing the tree a
/// document converted to, and converting the result again, reproduces the
/// tree exactly.
pub proof fn lemma_parse_round_trip(o: Option<Seq<char>>, j: JsonModel)
    ensures
        convert(o, to_json(convert(o, j))) == convert(o, j),
{
    lemma_convert_uniform_origin(o, j);
    lemma_round_trip(o, convert(o, j));
}

/// Ingestion of one JSON text: parse it, convert the document into the
/// value tree, and hand back the root. If the document's root is not an
/// object, the result is the empty table, never an error; if the text is not
/// well-formed JSON, the result is a `Parse` error.
pub fn parse(uri: Option<&String>, text: &str) -> (r: Result<Table, ConfigError>)
    ensures
        r is Ok <==> json_document(text@) is Some,
        r matches Err(e) ==> e matches ConfigError::Parse(m) && m@ == json_error_text(text@),
        json_document(text@) matches Some(j) ==> r matches Ok(t) && t@ == root_entries(
            opt_text_ref(uri),
            j,
        ) && table_wf(t@),
{
    let owned: Option<String> = match uri {
        Option::Some(s) => Option::Some(s.clone()),
        Option::None => Option::None,
    };
    match parse_json_text(text) {
        Err(m) => Err(ConfigError::Parse(m)),
        Ok(j) => {
            proof {
                lemma_convert_wf(opt_text(owned), j@);
            }
            let v = from_json_value(&owned, &j);
            match v.kind {
                ValueKind::Table(t) => Ok(t),
                _ => Ok(Table::new()),
            }
        },
    }
}

} // verus!

