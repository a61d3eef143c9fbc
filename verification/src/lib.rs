//! Translating a text document in bounded segments.
//!
//! A document is cut into segments that respect a byte ceiling
//! ([`chunker`]), each segment is sent to a translation service under a
//! retry policy ([`client`], [`retry`]), and the translations are joined in
//! the order of their segments ([`pipeline`]). The text to be cut is held
//! as UTF-8 bytes, since the ceiling counts bytes.

pub mod chunker;
pub mod client;
pub mod failure;
pub mod join;
pub mod newline;
pub mod paragraph;
pub mod pipeline;
pub mod replay;
pub mod retry;
pub mod split;
pub mod views;
pub mod whitespace;
pub mod wire;
