//! Shape-tolerant value conversion for decoded document trees.
//!
//! Upstream decoders (JSON-like or XML-like) produce loosely shaped trees:
//! a number may arrive as quoted text, a leaf may arrive wrapped in a
//! single-key marker object, a single item may stand where a list was
//! expected, and a catch-all map may nest the interesting value at an
//! unpredictable depth. This crate defines the tree type ([`value::Value`])
//! and a small catalog of pure converters that resolve those ambiguities
//! deterministically: text/scalar coercion, blank-text normalization,
//! marker-key extraction, sequence promotion, and recursive attribute
//! flattening. Every converter is total and lenient: the only surfaced
//! failure is a text that fails to parse as the requested scalar.

pub mod extract;
pub mod flatten;
pub mod optional;
pub mod promote;
pub mod scalar;
pub mod text;
pub mod value;
