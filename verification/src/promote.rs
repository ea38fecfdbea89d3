//! Sequence promotion: a field that may arrive either as one item or as a
//! list of items becomes a uniform sequence. The target scalar shape is
//! named by a [`Kind`], standing for the element type the caller decodes to.

use vstd::prelude::*;
use crate::value::{lemma_vm_seq_index, lemma_vm_seq_len, vm, vm_seq, Value, ValueModel};

verus! {

/// The scalar shape a converter is aimed at.
#[derive(Clone, Copy, Debug, PartialEq, Eq, Structural)]
pub enum Kind {
    Bool,
    Int64,
    UInt64,
    Float64,
    Text,
    Char,
}

/// Whether a value has the named scalar shape.
pub open spec fn is_kind(m: ValueModel, k: Kind) -> bool {
    match k {
        Kind::Bool => m is Bool,
        Kind::Int64 => m is Int64,
        Kind::UInt64 => m is UInt64,
        Kind::Float64 => m is Float64,
        Kind::Text => m is Text,
        Kind::Char => m is Char,
    }
}

pub fn kind_matches(v: &Value, k: Kind) -> (b: bool)
    ensures
        b == is_kind(vm(*v), k),
{
    match k {
        Kind::Bool => matches!(v, Value::Bool(_)),
        Kind::Int64 => matches!(v, Value::Int64(_)),
        Kind::UInt64 => matches!(v, Value::UInt64(_)),
        Kind::Float64 => matches!(v, Value::Float64(_)),
        Kind::Text => matches!(v, Value::Text(_)),
        Kind::Char => matches!(v, Value::Char(_)),
    }
}

/// Promotes to a uniform sequence: a sequence whose items all have the named
/// shape passes through unchanged, a single item of that shape becomes a
/// one-item sequence, and any mismatch yields the empty sequence, silently.
#[verifier::loop_isolation(false)]
pub fn into_seq(v: Value, k: Kind) -> (r: Vec<Value>)
    ensures
        (match vm(v) {
            ValueModel::Sequence(ms) => (if forall|i: int|
                0 <= i < ms.len() ==> is_kind(#[trigger] ms[i], k) {
                vm_seq(r@) == ms
            } else {
                r@.len() == 0
            }),
            _ => (if is_kind(vm(v), k) {
                vm_seq(r@) == seq![vm(v)]
            } else {
                r@.len() == 0
            }),
        }),
{
    broadcast use lemma_vm_seq_len, lemma_vm_seq_index;

    match v {
        Value::Sequence(items) => {
            let ghost ms = vm_seq(items@);
            let mut i: usize = 0;
            while i < items.len()
                invariant
                    i <= items.len(),
                    forall|j: int| 0 <= j < i ==> is_kind(#[trigger] ms[j], k),
                decreases items.len() - i,
            {
                if !kind_matches(&items[i], k) {
                    proof {
                        assert(!is_kind(ms[i as int], k));
                        assert(!(forall|j: int| 0 <= j < ms.len() ==> is_kind(#[trigger] ms[j], k)));
                    }
                    return Vec::new();
                }
                i += 1;
            }
            items
        },
        single => {
            if kind_matches(&single, k) {
                let ghost m = vm(single);
                let mut r: Vec<Value> = Vec::new();
                r.push(single);
                proof {
                    assert(vm_seq(r@) =~= seq![m]);
                }
                r
            } else {
                Vec::new()
            }
        },
    }
}

} // verus!
