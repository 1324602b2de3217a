//! Helpers: UTF-8 chunking of byte streams and pairs of mutable references.

pub mod extension;
pub mod utf8;
