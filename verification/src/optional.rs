//! Blank-versus-present text normalization: an optional field decodes to
//! nothing when its text is blank or its shape is not text at all, and to
//! the text itself otherwise. There is no error in this converter.

use vstd::prelude::*;
use crate::text::{blank_str, is_blank};
use crate::value::{vm, Value, ValueModel};

verus! {

/// Normalizes an optional text: a non-blank text is present, unchanged;
/// blank text and every other shape are absent, silently.
pub fn maybe_str(v: Value) -> (r: Option<String>)
    ensures
        (match vm(v) {
            ValueModel::Text(t) => (if is_blank(t) {
                r is None
            } else {
                r matches Some(s) && s@ == t
            }),
            _ => r is None,
        }),
{
    match v {
        Value::Text(s) => {
            if blank_str(s.as_str()) {
                None
            } else {
                Some(s)
            }
        },
        _ => None,
    }
}

} // verus!
