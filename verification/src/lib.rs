//! A verified core for a tool-augmented streaming chat turn.
//!
//! A language-model backend streams text that may embed tool-invocation
//! directives as `<tool_call>…</tool_call>` markup.  This crate scans the
//! growing buffer for complete directives, deduplicates their dispatch,
//! splices tool results back as `<tool_response>` blocks, and decides when a
//! single follow-up completion round is owed.  The surrounding transport
//! (HTTP streaming, tool processes, persistence) stays outside; the crate
//! works on plain strings and is verified end to end.

pub mod documents;
pub mod json;
pub mod logging;
pub mod mcp;
pub mod models;
pub mod rag;
pub mod request;
pub mod scanner;
pub mod text;
pub mod title;
pub mod turn;
