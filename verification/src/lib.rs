//! FMF is a lightweight markup dialect rendered into a target markup
//! language (HTML by default) by a two-level text-scanning engine: a
//! block-level line classifier and an inline-span tokenizer, both
//! parameterized by a pluggable rendering backend that supplies the
//! concrete open/close markup for each semantic construct.

/// The document types and metadata accessors.
pub mod document;
/// Rendering backends: tags and the markup they map to.
pub mod format;
/// Global laws of the rendering engine.
pub mod laws;
/// The inline-span and block-level renderers and their event model.
pub mod render;
/// Character-level scanning helpers.
pub mod scan;
