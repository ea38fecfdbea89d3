//! The shared tree model: a recursive tagged union of decoded document
//! values, its mathematical view, and verified lookup and copy operations
//! on insertion-ordered mappings.

use vstd::prelude::*;
use crate::text::str_eq;

verus! {

/// A decoded document value. Mappings keep their entries in insertion order;
/// well-formed trees have unique keys at every mapping (see [`wf`]).
///
/// A floating-point number is carried as its canonical decimal rendering,
/// produced by the upstream decoder; the converters only ever read that
/// rendering, never the number itself.
#[derive(Debug, PartialEq)]
pub enum Value {
    Null,
    Bool(bool),
    Int64(i64),
    UInt64(u64),
    Float64(String),
    Text(String),
    Char(char),
    Sequence(Vec<Value>),
    Mapping(Vec<(String, Value)>),
}

/// The mathematical view of a [`Value`]: integers are unbounded, strings are
/// character sequences, and the containers are `Seq`s.
pub enum ValueModel {
    Null,
    Bool(bool),
    Int64(int),
    UInt64(int),
    Float64(Seq<char>),
    Text(Seq<char>),
    Char(char),
    Sequence(Seq<ValueModel>),
    Mapping(Seq<(Seq<char>, ValueModel)>),
}

/// The view of a value tree.
pub open spec fn vm(v: Value) -> ValueModel
    decreases v,
{
    match v {
        Value::Null => ValueModel::Null,
        Value::Bool(b) => ValueModel::Bool(b),
        Value::Int64(i) => ValueModel::Int64(i as int),
        Value::UInt64(n) => ValueModel::UInt64(n as int),
        Value::Float64(s) => ValueModel::Float64(s@),
        Value::Text(s) => ValueModel::Text(s@),
        Value::Char(c) => ValueModel::Char(c),
        Value::Sequence(items) => ValueModel::Sequence(vm_seq(items@)),
        Value::Mapping(entries) => ValueModel::Mapping(vm_entries(entries@)),
    }
}

/// The views of a sequence of values, element by element.
pub open spec fn vm_seq(items: Seq<Value>) -> Seq<ValueModel>
    decreases items,
{
    if items.len() == 0 {
        Seq::empty()
    } else {
        seq![vm(items[0])] + vm_seq(items.drop_first())
    }
}

/// The views of a mapping's entries, in order.
pub open spec fn vm_entries(entries: Seq<(String, Value)>) -> Seq<(Seq<char>, ValueModel)>
    decreases entries,
{
    if entries.len() == 0 {
        Seq::empty()
    } else {
        seq![(entries[0].0@, vm(entries[0].1))] + vm_entries(entries.drop_first())
    }
}

impl View for Value {
    type V = ValueModel;

    open spec fn view(&self) -> ValueModel {
        vm(*self)
    }
}

pub broadcast proof fn lemma_vm_seq_len(items: Seq<Value>)
    ensures
        #[trigger] vm_seq(items).len() == items.len(),
    decreases items.len(),
{
    if items.len() > 0 {
        lemma_vm_seq_len(items.drop_first());
    }
}

pub broadcast proof fn lemma_vm_seq_index(items: Seq<Value>, i: int)
    requires
        0 <= i < items.len(),
    ensures
        #[trigger] vm_seq(items)[i] == vm(items[i]),
    decreases items.len(),
{
    broadcast use lemma_vm_seq_len;

    if i > 0 {
        lemma_vm_seq_index(items.drop_first(), i - 1);
    }
}

pub broadcast proof fn lemma_vm_entries_len(entries: Seq<(String, Value)>)
    ensures
        #[trigger] vm_entries(entries).len() == entries.len(),
    decreases entries.len(),
{
    if entries.len() > 0 {
        lemma_vm_entries_len(entries.drop_first());
    }
}

pub broadcast proof fn lemma_vm_entries_index(entries: Seq<(String, Value)>, i: int)
    requires
        0 <= i < entries.len(),
    ensures
        #[trigger] vm_entries(entries)[i] == (entries[i].0@, vm(entries[i].1)),
    decreases entries.len(),
{
    broadcast use lemma_vm_entries_len;

    if i > 0 {
        lemma_vm_entries_index(entries.drop_first(), i - 1);
    }
}

pub broadcast group group_value_model {
    lemma_vm_seq_len,
    lemma_vm_seq_index,
    lemma_vm_entries_len,
    lemma_vm_entries_index,
}

/// Whether some entry of a mapping carries the given key.
pub open spec fn m_has_key(es: Seq<(Seq<char>, ValueModel)>, key: Seq<char>) -> bool {
    exists|i: int| 0 <= i < es.len() && (#[trigger] es[i]).0 == key
}

/// The value of the first entry carrying the given key (the only one, in a
/// well-formed mapping).
pub open spec fn m_get_first(es: Seq<(Seq<char>, ValueModel)>, key: Seq<char>) -> ValueModel
    decreases es.len(),
{
    if es.len() == 0 {
        ValueModel::Null
    } else if es[0].0 == key {
        es[0].1
    } else {
        m_get_first(es.drop_first(), key)
    }
}

/// A mapping's entries as a mathematical map; a later entry with the same key
/// overrides an earlier one.
pub open spec fn entry_map(es: Seq<(Seq<char>, ValueModel)>) -> Map<Seq<char>, ValueModel>
    decreases es.len(),
{
    if es.len() == 0 {
        Map::empty()
    } else {
        entry_map(es.drop_last()).insert(es.last().0, es.last().1)
    }
}

/// The keys of a mapping's entries, in order.
pub open spec fn keys_of(es: Seq<(Seq<char>, ValueModel)>) -> Seq<Seq<char>> {
    Seq::new(es.len(), |i: int| es[i].0)
}

/// No two entries carry the same key.
pub open spec fn keys_unique(es: Seq<(Seq<char>, ValueModel)>) -> bool {
    forall|i: int, j: int| 0 <= i < j < es.len() ==> (#[trigger] es[i]).0 != (#[trigger] es[j]).0
}

/// Every mapping in the tree has unique keys. Decoders of well-formed
/// documents only ever produce such trees; the converters do not depend on it.
pub open spec fn wf(m: ValueModel) -> bool
    decreases m,
{
    match m {
        ValueModel::Sequence(ms) => forall|i: int| 0 <= i < ms.len() ==> wf(#[trigger] ms[i]),
        ValueModel::Mapping(es) => keys_unique(es) && (forall|i: int|
            0 <= i < es.len() ==> wf((#[trigger] es[i]).1)),
        _ => true,
    }
}

pub proof fn lemma_get_first(es: Seq<(Seq<char>, ValueModel)>, key: Seq<char>, i: int)
    requires
        0 <= i < es.len(),
        es[i].0 == key,
        forall|j: int| 0 <= j < i ==> (#[trigger] es[j]).0 != key,
    ensures
        m_has_key(es, key),
        m_get_first(es, key) == es[i].1,
    decreases i,
{
    if i > 0 {
        lemma_get_first(es.drop_first(), key, i - 1);
    }
}

/// The position of the first entry carrying the given key, if any.
pub fn mapping_find(entries: &Vec<(String, Value)>, key: &str) -> (r: Option<usize>)
    ensures
        (match r {
            Some(i) => i < entries@.len() && vm_entries(entries@)[i as int].0 == key@ && (forall|
                j: int,
            | 0 <= j < i ==> (#[trigger] vm_entries(entries@)[j]).0 != key@),
            None => !m_has_key(vm_entries(entries@), key@),
        }),
{
    broadcast use group_value_model;

    let mut i: usize = 0;
    while i < entries.len()
        invariant
            i <= entries.len(),
            forall|j: int| 0 <= j < i ==> (#[trigger] vm_entries(entries@)[j]).0 != key@,
        decreases entries.len() - i,
    {
        proof {
            lemma_vm_entries_len(entries@);
            lemma_vm_entries_index(entries@, i as int);
        }
        if str_eq(entries[i].0.as_str(), key) {
            return Some(i);
        }
        i += 1;
    }
    proof {
        lemma_vm_entries_len(entries@);
    }
    None
}

/// The value at the given key of an insertion-ordered mapping, if present.
pub fn mapping_get<'a>(entries: &'a Vec<(String, Value)>, key: &str) -> (r: Option<&'a Value>)
    ensures
        (match r {
            Some(found) => m_has_key(vm_entries(entries@), key@) && vm(*found) == m_get_first(
                vm_entries(entries@),
                key@,
            ),
            None => !m_has_key(vm_entries(entries@), key@),
        }),
{
    broadcast use group_value_model;

    match mapping_find(entries, key) {
        Some(i) => {
            proof {
                lemma_get_first(vm_entries(entries@), key@, i as int);
            }
            Some(&entries[i].1)
        },
        None => None,
    }
}

/// A deep copy whose view equals the original's.
#[verifier::loop_isolation(false)]
pub fn dup(v: &Value) -> (r: Value)
    ensures
        vm(r) == vm(*v),
    decreases v,
{
    broadcast use group_value_model;

    match v {
        Value::Null => Value::Null,
        Value::Bool(b) => Value::Bool(*b),
        Value::Int64(i) => Value::Int64(*i),
        Value::UInt64(n) => Value::UInt64(*n),
        Value::Float64(s) => Value::Float64(s.clone()),
        Value::Text(s) => Value::Text(s.clone()),
        Value::Char(c) => Value::Char(*c),
        Value::Sequence(items) => {
            let mut out: Vec<Value> = Vec::new();
            let mut i: usize = 0;
            while i < items.len()
                invariant
                    i <= items.len(),
                    out@.len() == i,
                    forall|j: int| 0 <= j < i ==> vm(#[trigger] out@[j]) == vm(items@[j]),
                decreases items.len() - i,
            {
                proof {
                    assert(*v == Value::Sequence(*items));
                    assert(decreases_to!(*items => items@));
                    assert(decreases_to!(items@ => items@[i as int]));
                }
                let item = dup(&items[i]);
                out.push(item);
                i += 1;
            }
            proof {
                assert(vm_seq(out@) =~= vm_seq(items@));
            }
            Value::Sequence(out)
        },
        Value::Mapping(entries) => {
            let mut out: Vec<(String, Value)> = Vec::new();
            let mut i: usize = 0;
            while i < entries.len()
                invariant
                    i <= entries.len(),
                    out@.len() == i,
                    forall|j: int|
                        0 <= j < i ==> (#[trigger] out@[j]).0@ == entries@[j].0@ && vm(
                            out@[j].1,
                        ) == vm(entries@[j].1),
                decreases entries.len() - i,
            {
                proof {
                    assert(*v == Value::Mapping(*entries));
                    assert(decreases_to!(*entries => entries@));
                    assert(decreases_to!(entries@ => entries@[i as int]));
                    assert(decreases_to!(entries@[i as int] => entries@[i as int].1));
                }
                let item = dup(&entries[i].1);
                let name = entries[i].0.clone();
                out.push((name, item));
                i += 1;
            }
            proof {
                assert(vm_entries(out@) =~= vm_entries(entries@));
            }
            Value::Mapping(out)
        },
    }
}

} // verus!
