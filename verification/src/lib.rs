//! Conversion engine for clinical-report documents.
//!
//! The library models a word-processor document as an ordered sequence of
//! paragraphs, each an ordered sequence of text runs carrying emphasis flags,
//! and converts between that model, Markdown text with toggle-style emphasis
//! markers, plain text, and a legacy rich-text markup that is cleaned and
//! classified heuristically.

pub mod cleanup;
pub mod codec;
pub mod decode;
pub mod index;
pub mod laws;
pub mod model;
pub mod plain;
pub mod text;
