//! A whole-word autocompletion engine for an editor-integration server.
//!
//! The library tracks the full text of open documents, extracts every
//! distinct identifier-like token from a document, and answers completion
//! requests with those tokens as candidate labels.

pub mod dispatch;
pub mod engine;
pub mod store;
pub mod tokenizer;
