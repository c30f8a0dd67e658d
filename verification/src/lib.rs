//! Ingestion, normalization and markdown-safety pipeline for serialized chat
//! transcripts.
//!
//! The crate turns a byte buffer holding either a JSON array of
//! `{role, content}` records or a JSONL stream of such records into a
//! normalized [`model::Conversation`]: a system preamble, an ordered list of
//! turns, and a list of accumulated warnings. Before any text reaches a
//! Markdown-aware consumer it passes through a fence sanitizer that defuses
//! stray triple-backtick sequences and closes unterminated code fences.

pub mod export;
pub mod model;
pub mod normalize;
pub mod parse;
pub mod sanitize;
pub mod strings;
pub mod textops;
