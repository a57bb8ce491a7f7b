//! A pure-Rust model of procedural-macro token streams: spans over a
//! source map, identifiers, literals, punctuation, groups and streams,
//! together with their textual rendering.

pub mod text;
pub mod span;
pub mod source_map;
pub mod ident;
pub mod literal;
pub mod token;
pub mod detection;
pub mod unescape;
