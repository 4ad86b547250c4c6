//! Typed parameter archives and their text form.
//!
//! A parameter archive is a tree of objects and lists whose entries are keyed
//! by 32-bit hashes of their names. This crate holds the typed model of such
//! an archive, the table that recovers names from hashes, and the two walks
//! between the typed model and a tree of text nodes.

pub mod hash;
pub mod number;
pub mod types;
pub mod text;
pub mod names;
pub mod tree;
pub mod decode;
pub mod encode;
pub mod laws;
