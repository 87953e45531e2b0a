use vstd::prelude::*;

use crate::text::str_eq;

verus! {

/// Mathematical model of a value node: the provenance tag and the payload,
/// with text as character sequences.
pub struct ValueModel {
    pub origin: Option<Seq<char>>,
    pub kind: KindModel,
}

/// Mathematical model of the payload of a value node.
pub enum KindModel {
    Nil,
    Boolean(bool),
    Integer(i64),
    /// IEEE-754 double, by its bit pattern.
    Float(u64),
    Text(Seq<char>),
    Array(Seq<ValueModel>),
    Table(Seq<(Seq<char>, ValueModel)>),
}

/// A provenance-tagged node of the configuration value tree. Immutable once
/// constructed.
#[derive(Debug, PartialEq)]
pub struct ConfigValue {
    /// Advisory identifier (typically a display path) naming the source of
    /// this node; inherited from the parse call.
    pub origin: Option<String>,
    pub kind: ValueKind,
}

/// The discriminated payload of a value node.
#[derive(Debug, PartialEq)]
pub enum ValueKind {
    /// Absence of data.
    Nil,
    Boolean(bool),
    /// 64-bit signed whole number.
    Integer(i64),
    /// 64-bit IEEE-754 floating point, carried by its bit pattern so the tree
    /// itself stays free of floating-point arithmetic.
    Float(u64),
    /// UTF-8 text.
    Text(String),
    /// Ordered sequence; order is significant, duplicates allowed.
    Array(Vec<ConfigValue>),
    /// Mapping from string key to value; keys unique.
    Table(Table),
}

/// A mapping from string keys to values. Well-formed tables never hold two
/// entries with the same key; later insertion overwrites earlier.
#[derive(Debug, PartialEq)]
pub struct Table {
    pub entries: Vec<(String, ConfigValue)>,
}

pub open spec fn opt_text(o: Option<String>) -> Option<Seq<char>> {
    match o {
        Option::Some(s) => Option::Some(s@),
        Option::None => Option::None,
    }
}

pub open spec fn value_model(v: ConfigValue) -> ValueModel
    decreases v,
{
    ValueModel { origin: opt_text(v.origin), kind: kind_model(v.kind) }
}

pub open spec fn kind_model(k: ValueKind) -> KindModel
    decreases k,
{
    match k {
        ValueKind::Nil => KindModel::Nil,
        ValueKind::Boolean(b) => KindModel::Boolean(b),
        ValueKind::Integer(i) => KindModel::Integer(i),
        ValueKind::Float(bits) => KindModel::Float(bits),
        ValueKind::Text(s) => KindModel::Text(s@),
        ValueKind::Array(vs) => KindModel::Array(array_model(vs@)),
        ValueKind::Table(t) => KindModel::Table(entries_model(t.entries@)),
    }
}

pub open spec fn array_model(s: Seq<ConfigValue>) -> Seq<ValueModel>
    decreases s,
{
    Seq::new(
        s.len(),
        |i: int|
            if 0 <= i < s.len() {
                value_model(s[i])
            } else {
                ValueModel { origin: Option::None, kind: KindModel::Nil }
            },
    )
}

pub open spec fn entries_model(s: Seq<(String, ConfigValue)>) -> Seq<(Seq<char>, ValueModel)>
    decreases s,
{
    Seq::new(
        s.len(),
        |i: int|
            if 0 <= i < s.len() {
                (s[i].0@, value_model(s[i].1))
            } else {
                (Seq::empty(), ValueModel { origin: Option::None, kind: KindModel::Nil })
            },
    )
}

impl View for ConfigValue {
    type V = ValueModel;

    open spec fn view(&self) -> ValueModel {
        value_model(*self)
    }
}

impl View for Table {
    type V = Seq<(Seq<char>, ValueModel)>;

    open spec fn view(&self) -> Seq<(Seq<char>, ValueModel)> {
        entries_model(self.entries@)
    }
}

/// No two entries share a key.
pub open spec fn keys_unique(es: Seq<(Seq<char>, ValueModel)>) -> bool {
    forall|i: int, j: int| 0 <= i < j < es.len() ==> (#[trigger] es[i]).0 != (#[trigger] es[j]).0
}

/// Every table in the tree, at any depth, has pairwise distinct keys.
pub open spec fn value_wf(v: ValueModel) -> bool
    decreases v,
{
    match v.kind {
        KindModel::Array(s) => forall|i: int| 0 <= i < s.len() ==> value_wf(#[trigger] s[i]),
        KindModel::Table(es) => keys_unique(es) && forall|i: int|
            0 <= i < es.len() ==> value_wf((#[trigger] es[i]).1),
        _ => true,
    }
}

/// Well-formedness of a table seen on its own: its entries form the table
/// payload of a well-formed value.
pub open spec fn table_wf(es: Seq<(Seq<char>, ValueModel)>) -> bool {
    value_wf(ValueModel { origin: Option::None, kind: KindModel::Table(es) })
}

/// The first value stored under `key`, if any.
pub open spec fn spec_lookup(es: Seq<(Seq<char>, ValueModel)>, key: Seq<char>) -> Option<
    ValueModel,
>
    decreases es,
{
    if es.len() == 0 {
        Option::None
    } else if es[0].0 == key {
        Option::Some(es[0].1)
    } else {
        spec_lookup(es.subrange(1, es.len() as int), key)
    }
}

impl ConfigValue {
    /// Construction takes an optional origin and a payload and yields an
    /// immutable node; it cannot fail.
    pub fn new(origin: Option<String>, kind: ValueKind) -> (r: ConfigValue)
        ensures
            r.origin == origin,
            r.kind == kind,
    {
        ConfigValue { origin, kind }
    }
}

impl Table {
    /// The empty table.
    pub fn new() -> (r: Table)
        ensures
            r@ == Seq::<(Seq<char>, ValueModel)>::empty(),
    {
        Table { entries: Vec::new() }
    }

    /// A table holding exactly the given entries, in order.
    pub fn from_entries(entries: Vec<(String, ConfigValue)>) -> (r: Table)
        ensures
            r@ == entries_model(entries@),
    {
        Table { entries }
    }

    pub fn len(&self) -> (r: usize)
        ensures
            r == self@.len(),
    {
        self.entries.len()
    }

    /// The entry at one position, for structural traversal.
    pub fn entry_at(&self, i: usize) -> (r: &(String, ConfigValue))
        requires
            i < self@.len(),
        ensures
            r.0@ == self@[i as int].0,
            r.1@ == self@[i as int].1,
    {
        &self.entries[i]
    }

    /// The first value stored under `key`, if any - the only value, in a
    /// well-formed table.
    #[verifier::loop_isolation(false)]
    pub fn get(&self, key: &str) -> (r: Option<&ConfigValue>)
        ensures
            r matches Some(v) ==> spec_lookup(self@, key@) == Option::Some(v@),
            r is None ==> spec_lookup(self@, key@) is None,
    {
        proof {
            assert(self@.subrange(0, self@.len() as int) =~~= self@);
        }
        let mut i: usize = 0;
        while i < self.entries.len()
            invariant
                0 <= i <= self.entries@.len(),
                spec_lookup(self@, key@) == spec_lookup(
                    self@.subrange(i as int, self@.len() as int),
                    key@,
                ),
            decreases self.entries@.len() - i,
        {
            proof {
                let suf = self@.subrange(i as int, self@.len() as int);
                assert(suf[0] == self@[i as int]);
                assert(suf.subrange(1, suf.len() as int) =~~= self@.subrange(
                    i + 1,
                    self@.len() as int,
                ));
            }
            if str_eq(self.entries[i].0.as_str(), key) {
                return Some(&self.entries[i].1);
            }
            i = i + 1;
        }
        proof {
            assert(self@.subrange(self@.len() as int, self@.len() as int) =~~= Seq::<
                (Seq<char>, ValueModel),
            >::empty());
        }
        None
    }
}

} // verus!
