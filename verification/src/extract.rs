//! Marker-key extraction: unwraps a single-key marker object — the artifact
//! of tree-based XML decoding, where a leaf element with attributes becomes
//! `{"marker": value}` — or passes a bare value through.

use vstd::prelude::*;
use crate::value::{
    lemma_get_first, lemma_vm_entries_index, lemma_vm_entries_len, m_get_first, m_has_key,
    mapping_find, vm, vm_entries, Value, ValueModel,
};

verus! {

/// Extracts the value behind a marker key. A mapping that carries the marker
/// key yields that entry's value; a mapping without it yields the supplied
/// default, silently; any non-mapping value passes through unchanged. The
/// caller supplies the target type's default — there is no error.
pub fn extract_attr(v: Value, marker: &str, default: Value) -> (r: Value)
    ensures
        (match vm(v) {
            ValueModel::Mapping(es) => vm(r) == (if m_has_key(es, marker@) {
                m_get_first(es, marker@)
            } else {
                vm(default)
            }),
            _ => vm(r) == vm(v),
        }),
{
    broadcast use lemma_vm_entries_len, lemma_vm_entries_index;

    match v {
        Value::Mapping(mut entries) => {
            match mapping_find(&entries, marker) {
                Some(i) => {
                    proof {
                        lemma_get_first(vm_entries(entries@), marker@, i as int);
                    }
                    let entry = entries.remove(i);
                    entry.1
                },
                None => default,
            }
        },
        bare => bare,
    }
}

} // verus!
