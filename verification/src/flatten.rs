//! Attribute flattening: collapses a one-level catch-all mapping whose
//! entries may nest the interesting value at unpredictable depth into a flat
//! mapping, by searching each branch depth-first for a marker key.
//!
//! For each top-level entry `(key, value)`: a mapping that directly carries
//! the marker key writes `(key, value[marker])`; a mapping without it
//! recurses into each of its own entries' values under the *same* outer
//! `key`, so a branch explored one level at a time may write `key` several
//! times and the last write wins; a non-mapping leaf writes `(key, value)`.
//! The traversal never fails: a non-mapping input yields an empty flat map.
//!
//! The model is the sequence of writes the traversal performs, in order
//! ([`flat_writes`]), folded into a map with later writes overriding earlier
//! ones ([`apply_writes`]).

use vstd::prelude::*;
use crate::value::{
    dup, entry_map, group_value_model, keys_of, keys_unique, m_get_first, m_has_key, mapping_find,
    mapping_get, vm, vm_entries, Value, ValueModel,
};

verus! {

broadcast use group_value_model;

/// The writes that resolving one entry `(key, value)` performs, in order.
pub open spec fn flat_writes(key: Seq<char>, m: ValueModel, marker: Seq<char>) -> Seq<
    (Seq<char>, ValueModel),
>
    decreases m,
{
    match m {
        ValueModel::Mapping(es) => (if m_has_key(es, marker) {
            seq![(key, m_get_first(es, marker))]
        } else {
            flat_writes_under(key, es, marker)
        }),
        _ => seq![(key, m)],
    }
}

/// The writes of resolving every entry value of a marker-less mapping under
/// one outer key, in entry order.
pub open spec fn flat_writes_under(
    key: Seq<char>,
    es: Seq<(Seq<char>, ValueModel)>,
    marker: Seq<char>,
) -> Seq<(Seq<char>, ValueModel)>
    decreases es,
{
    if es.len() == 0 {
        Seq::empty()
    } else {
        flat_writes_under(key, es.drop_last(), marker) + flat_writes(key, es.last().1, marker)
    }
}

/// The writes of resolving every top-level entry under its own key, in order.
pub open spec fn top_writes(es: Seq<(Seq<char>, ValueModel)>, marker: Seq<char>) -> Seq<
    (Seq<char>, ValueModel),
>
    decreases es,
{
    if es.len() == 0 {
        Seq::empty()
    } else {
        top_writes(es.drop_last(), marker) + flat_writes(es.last().0, es.last().1, marker)
    }
}

/// Writes applied left to right; a later write to a key overrides an earlier
/// one.
pub open spec fn apply_writes(
    m: Map<Seq<char>, ValueModel>,
    ws: Seq<(Seq<char>, ValueModel)>,
) -> Map<Seq<char>, ValueModel>
    decreases ws.len(),
{
    if ws.len() == 0 {
        m
    } else {
        apply_writes(m, ws.drop_last()).insert(ws.last().0, ws.last().1)
    }
}

/// The flat map that flattening a value produces: for a mapping, all its
/// writes folded into an empty map; for anything else, the empty map.
pub open spec fn flat_model(m: ValueModel, marker: Seq<char>) -> Map<Seq<char>, ValueModel> {
    match m {
        ValueModel::Mapping(es) => apply_writes(Map::empty(), top_writes(es, marker)),
        _ => Map::empty(),
    }
}

/// The key order the writes produce: a key takes its place when first
/// written; later writes to it change only its value.
pub open spec fn apply_keys(ks: Seq<Seq<char>>, ws: Seq<(Seq<char>, ValueModel)>) -> Seq<
    Seq<char>,
>
    decreases ws.len(),
{
    if ws.len() == 0 {
        ks
    } else {
        let prev = apply_keys(ks, ws.drop_last());
        if prev.contains(ws.last().0) {
            prev
        } else {
            prev.push(ws.last().0)
        }
    }
}

/// The order of the flat map's keys: each top-level key in the order of its
/// first write.
pub open spec fn flat_key_order(m: ValueModel, marker: Seq<char>) -> Seq<Seq<char>> {
    match m {
        ValueModel::Mapping(es) => apply_keys(Seq::empty(), top_writes(es, marker)),
        _ => Seq::empty(),
    }
}

pub proof fn lemma_apply_writes_concat(
    m: Map<Seq<char>, ValueModel>,
    a: Seq<(Seq<char>, ValueModel)>,
    b: Seq<(Seq<char>, ValueModel)>,
)
    ensures
        apply_writes(m, a + b) == apply_writes(apply_writes(m, a), b),
    decreases b.len(),
{
    if b.len() == 0 {
        assert(a + b =~= a);
    } else {
        lemma_apply_writes_concat(m, a, b.drop_last());
        assert((a + b).drop_last() =~= a + b.drop_last());
        assert((a + b).last() == b.last());
    }
}

proof fn lemma_apply_writes_single(m: Map<Seq<char>, ValueModel>, w: (Seq<char>, ValueModel))
    ensures
        apply_writes(m, seq![w]) == m.insert(w.0, w.1),
{
    assert(seq![w].drop_last() =~= Seq::<(Seq<char>, ValueModel)>::empty());
    assert(apply_writes(m, Seq::<(Seq<char>, ValueModel)>::empty()) == m);
    assert(seq![w].last() == w);
}

pub proof fn lemma_apply_keys_concat(
    ks: Seq<Seq<char>>,
    a: Seq<(Seq<char>, ValueModel)>,
    b: Seq<(Seq<char>, ValueModel)>,
)
    ensures
        apply_keys(ks, a + b) == apply_keys(apply_keys(ks, a), b),
    decreases b.len(),
{
    if b.len() == 0 {
        assert(a + b =~= a);
    } else {
        lemma_apply_keys_concat(ks, a, b.drop_last());
        assert((a + b).drop_last() =~= a + b.drop_last());
        assert((a + b).last() == b.last());
    }
}

proof fn lemma_apply_keys_single(ks: Seq<Seq<char>>, w: (Seq<char>, ValueModel))
    ensures
        apply_keys(ks, seq![w]) == (if ks.contains(w.0) {
            ks
        } else {
            ks.push(w.0)
        }),
{
    assert(seq![w].drop_last() =~= Seq::<(Seq<char>, ValueModel)>::empty());
    assert(apply_keys(ks, Seq::<(Seq<char>, ValueModel)>::empty()) == ks);
    assert(seq![w].last() == w);
}

proof fn lemma_keys_of_contains(es: Seq<(Seq<char>, ValueModel)>, k: Seq<char>)
    ensures
        keys_of(es).contains(k) <==> m_has_key(es, k),
{
    if m_has_key(es, k) {
        let i = choose|i: int| 0 <= i < es.len() && (#[trigger] es[i]).0 == k;
        assert(keys_of(es)[i] == k);
    }
    if keys_of(es).contains(k) {
        let i = choose|i: int| 0 <= i < keys_of(es).len() && keys_of(es)[i] == k;
        assert(es[i].0 == k);
    }
}

pub proof fn lemma_apply_writes_entry_map(es: Seq<(Seq<char>, ValueModel)>)
    ensures
        apply_writes(Map::empty(), es) == entry_map(es),
    decreases es.len(),
{
    if es.len() > 0 {
        lemma_apply_writes_entry_map(es.drop_last());
    }
}

proof fn lemma_entry_map_update(es: Seq<(Seq<char>, ValueModel)>, i: int, x: ValueModel)
    requires
        keys_unique(es),
        0 <= i < es.len(),
    ensures
        entry_map(es.update(i, (es[i].0, x))) == entry_map(es).insert(es[i].0, x),
    decreases es.len(),
{
    let es2 = es.update(i, (es[i].0, x));
    if i == es.len() - 1 {
        assert(es2.drop_last() =~= es.drop_last());
        assert(entry_map(es.drop_last()).insert(es[i].0, es[i].1).insert(es[i].0, x)
            =~= entry_map(es.drop_last()).insert(es[i].0, x));
    } else {
        assert(keys_unique(es.drop_last()));
        lemma_entry_map_update(es.drop_last(), i, x);
        assert(es2.drop_last() =~= es.drop_last().update(i, (es[i].0, x)));
        assert(es2.last() == es.last());
        assert(es[i].0 != es.last().0);
        assert(entry_map(es.drop_last()).insert(es[i].0, x).insert(es.last().0, es.last().1)
            =~= entry_map(es.drop_last()).insert(es.last().0, es.last().1).insert(es[i].0, x));
    }
}

/// Writes one entry into the flat map under construction: an existing key is
/// overwritten in place, a new key is appended.
fn upsert(out: &mut Vec<(String, Value)>, key: String, val: Value)
    requires
        keys_unique(vm_entries(old(out)@)),
    ensures
        keys_unique(vm_entries(final(out)@)),
        entry_map(vm_entries(final(out)@)) == entry_map(vm_entries(old(out)@)).insert(
            key@,
            vm(val),
        ),
        keys_of(vm_entries(final(out)@)) == (if m_has_key(vm_entries(old(out)@), key@) {
            keys_of(vm_entries(old(out)@))
        } else {
            keys_of(vm_entries(old(out)@)).push(key@)
        }),
{
    let ghost es0 = vm_entries(old(out)@);
    let ghost gv = vm(val);
    match mapping_find(out, key.as_str()) {
        Some(i) => {
            let _dropped = out.remove(i);
            out.insert(i, (key, val));
            proof {
                assert(out@ =~= old(out)@.update(i as int, (key, val)));
                assert(vm_entries(out@) =~= es0.update(i as int, (key@, gv)));
                assert((key@, gv) == (es0[i as int].0, gv));
                lemma_entry_map_update(es0, i as int, gv);
                assert(m_has_key(es0, key@));
                assert(keys_of(vm_entries(out@)) =~= keys_of(es0));
                assert forall|a: int, b: int|
                    0 <= a < b < vm_entries(out@).len() implies (#[trigger] vm_entries(
                    out@,
                )[a]).0 != (#[trigger] vm_entries(out@)[b]).0 by {
                    assert(vm_entries(out@)[a].0 == es0[a].0);
                    assert(vm_entries(out@)[b].0 == es0[b].0);
                }
            }
        },
        None => {
            out.push((key, val));
            proof {
                assert(vm_entries(out@) =~= es0.push((key@, gv)));
                assert(vm_entries(out@).drop_last() =~= es0);
                assert(keys_of(vm_entries(out@)) =~= keys_of(es0).push(key@));
                assert forall|a: int, b: int|
                    0 <= a < b < vm_entries(out@).len() implies (#[trigger] vm_entries(
                    out@,
                )[a]).0 != (#[trigger] vm_entries(out@)[b]).0 by {
                    if b < es0.len() {
                        assert(vm_entries(out@)[a].0 == es0[a].0);
                        assert(vm_entries(out@)[b].0 == es0[b].0);
                    } else {
                        assert(vm_entries(out@)[b].0 == key@);
                        assert(vm_entries(out@)[a].0 == es0[a].0);
                    }
                }
            }
        },
    }
}

/// Resolves one `(key, value)` entry into the flat map, performing exactly
/// the writes of [`flat_writes`].
#[verifier::loop_isolation(false)]
fn deflate_in(key: &String, value: &Value, marker: &str, out: &mut Vec<(String, Value)>)
    requires
        keys_unique(vm_entries(old(out)@)),
    ensures
        keys_unique(vm_entries(final(out)@)),
        entry_map(vm_entries(final(out)@)) == apply_writes(
            entry_map(vm_entries(old(out)@)),
            flat_writes(key@, vm(*value), marker@),
        ),
        keys_of(vm_entries(final(out)@)) == apply_keys(
            keys_of(vm_entries(old(out)@)),
            flat_writes(key@, vm(*value), marker@),
        ),
    decreases value,
{
    match value {
        Value::Mapping(m) => {
            let ghost es = vm_entries(m@);
            match mapping_get(m, marker) {
                Some(found) => {
                    let item = dup(found);
                    let name = key.clone();
                    upsert(out, name, item);
                    proof {
                        lemma_apply_writes_single(
                            entry_map(vm_entries(old(out)@)),
                            (key@, m_get_first(es, marker@)),
                        );
                        lemma_apply_keys_single(
                            keys_of(vm_entries(old(out)@)),
                            (key@, m_get_first(es, marker@)),
                        );
                        lemma_keys_of_contains(vm_entries(old(out)@), key@);
                    }
                },
                None => {
                    let mut i: usize = 0;
                    while i < m.len()
                        invariant
                            i <= m.len(),
                            keys_unique(vm_entries(out@)),
                            entry_map(vm_entries(out@)) == apply_writes(
                                entry_map(vm_entries(old(out)@)),
                                flat_writes_under(key@, es.subrange(0, i as int), marker@),
                            ),
                            keys_of(vm_entries(out@)) == apply_keys(
                                keys_of(vm_entries(old(out)@)),
                                flat_writes_under(key@, es.subrange(0, i as int), marker@),
                            ),
                        decreases m.len() - i,
                    {
                        proof {
                            assert(*value == Value::Mapping(*m));
                            assert(decreases_to!(*m => m@));
                            assert(decreases_to!(m@ => m@[i as int]));
                            assert(decreases_to!(m@[i as int] => m@[i as int].1));
                        }
                        deflate_in(key, &m[i].1, marker, out);
                        proof {
                            let prefix = es.subrange(0, i as int);
                            let step = es.subrange(0, i + 1);
                            assert(step.drop_last() =~= prefix);
                            assert(step.last() == es[i as int]);
                            assert(es[i as int].1 == vm(m@[i as int].1));
                            lemma_apply_writes_concat(
                                entry_map(vm_entries(old(out)@)),
                                flat_writes_under(key@, prefix, marker@),
                                flat_writes(key@, es[i as int].1, marker@),
                            );
                            lemma_apply_keys_concat(
                                keys_of(vm_entries(old(out)@)),
                                flat_writes_under(key@, prefix, marker@),
                                flat_writes(key@, es[i as int].1, marker@),
                            );
                        }
                        i += 1;
                    }
                    proof {
                        assert(es.subrange(0, m@.len() as int) =~= es);
                    }
                },
            }
        },
        leaf => {
            let item = dup(leaf);
            let name = key.clone();
            upsert(out, name, item);
            proof {
                lemma_apply_writes_single(entry_map(vm_entries(old(out)@)), (key@, vm(*value)));
                lemma_apply_keys_single(keys_of(vm_entries(old(out)@)), (key@, vm(*value)));
                lemma_keys_of_contains(vm_entries(old(out)@), key@);
            }
        },
    }
}

/// Flattens a catch-all mapping into a flat map. Each top-level key ends up
/// holding either the value found at the marker key somewhere beneath that
/// branch (the last such find winning), or the original non-mapping leaf;
/// a non-mapping input yields the empty flat map. The traversal never fails.
#[verifier::loop_isolation(false)]
pub fn deflate_attr(v: Value, marker: &str) -> (out: Vec<(String, Value)>)
    ensures
        keys_unique(vm_entries(out@)),
        entry_map(vm_entries(out@)) == flat_model(vm(v), marker@),
        keys_of(vm_entries(out@)) == flat_key_order(vm(v), marker@),
{
    let mut out: Vec<(String, Value)> = Vec::new();
    proof {
        assert(vm_entries(out@) =~= Seq::<(Seq<char>, ValueModel)>::empty());
        assert(keys_of(vm_entries(out@)) =~= Seq::<Seq<char>>::empty());
    }
    match &v {
        Value::Mapping(entries) => {
            let ghost es = vm_entries(entries@);
            let mut i: usize = 0;
            while i < entries.len()
                invariant
                    i <= entries.len(),
                    keys_unique(vm_entries(out@)),
                    entry_map(vm_entries(out@)) == apply_writes(
                        Map::empty(),
                        top_writes(es.subrange(0, i as int), marker@),
                    ),
                    keys_of(vm_entries(out@)) == apply_keys(
                        Seq::empty(),
                        top_writes(es.subrange(0, i as int), marker@),
                    ),
                decreases entries.len() - i,
            {
                deflate_in(&entries[i].0, &entries[i].1, marker, &mut out);
                proof {
                    let prefix = es.subrange(0, i as int);
                    let step = es.subrange(0, i + 1);
                    assert(step.drop_last() =~= prefix);
                    assert(step.last() == es[i as int]);
                    assert(es[i as int] == (entries@[i as int].0@, vm(entries@[i as int].1)));
                    lemma_apply_writes_concat(
                        Map::empty(),
                        top_writes(prefix, marker@),
                        flat_writes(es[i as int].0, es[i as int].1, marker@),
                    );
                    lemma_apply_keys_concat(
                        Seq::empty(),
                        top_writes(prefix, marker@),
                        flat_writes(es[i as int].0, es[i as int].1, marker@),
                    );
                }
                i += 1;
            }
            proof {
                assert(es.subrange(0, entries@.len() as int) =~= es);
            }
        },
        _ => {
        },
    }
    out
}

proof fn lemma_top_writes_id(es: Seq<(Seq<char>, ValueModel)>, marker: Seq<char>)
    requires
        forall|i: int| 0 <= i < es.len() ==> !((#[trigger] es[i]).1 is Mapping),
    ensures
        top_writes(es, marker) == es,
    decreases es.len(),
{
    if es.len() > 0 {
        lemma_top_writes_id(es.drop_last(), marker);
        assert(flat_writes(es.last().0, es.last().1, marker) =~= seq![es.last()]);
        assert(top_writes(es, marker) =~= es);
    } else {
        assert(top_writes(es, marker) =~= es);
    }
}

proof fn lemma_apply_keys_id(es: Seq<(Seq<char>, ValueModel)>)
    requires
        keys_unique(es),
    ensures
        apply_keys(Seq::empty(), es) == keys_of(es),
    decreases es.len(),
{
    if es.len() == 0 {
        assert(apply_keys(Seq::empty(), es) =~= keys_of(es));
    } else {
        assert(keys_unique(es.drop_last()));
        lemma_apply_keys_id(es.drop_last());
        lemma_keys_of_contains(es.drop_last(), es.last().0);
        assert(!m_has_key(es.drop_last(), es.last().0));
        assert(keys_of(es.drop_last()).push(es.last().0) =~= keys_of(es));
    }
}

/// A flat map with unique keys, none of whose values is itself a mapping —
/// such as the output of flattening a tree whose marker entries hold
/// scalars — is a fixed point of attribute flattening: flattening it again
/// yields the same map, keys in the same order.
pub proof fn lemma_flatten_fixed_point(es: Seq<(Seq<char>, ValueModel)>, marker: Seq<char>)
    requires
        keys_unique(es),
        forall|i: int| 0 <= i < es.len() ==> !((#[trigger] es[i]).1 is Mapping),
    ensures
        flat_model(ValueModel::Mapping(es), marker) == entry_map(es),
        flat_key_order(ValueModel::Mapping(es), marker) == keys_of(es),
{
    lemma_top_writes_id(es, marker);
    lemma_apply_writes_entry_map(es);
    lemma_apply_keys_id(es);
}

} // verus!
