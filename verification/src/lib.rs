//! Decoding kernel for the Supernote binary container format.
//!
//! The kernel offers bounds-checked little-endian integer and length-prefixed
//! block access over a raw byte buffer, the textual `<key:value>` tag and
//! `{"key"#"value"}` layer-record micro-parsers that turn block payloads into
//! typed fields, and the document model these parsers populate.

pub mod assoc;
pub mod block;
pub mod error;
pub mod layers;
pub mod model;
pub mod nested;
pub mod scan;
pub mod tags;
