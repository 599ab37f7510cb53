//! An interpreter for a small stack-based concatenative language.
//!
//! Source text is lexed into tokens, macro references are expanded, the
//! tokens are compiled into an operation sequence, and that sequence is
//! executed against an explicit value stack with auxiliary "box" storage.
//! Every stage carries spans (offset + length into the original source) so
//! that a caller can build precise diagnostics.

pub mod span;
pub mod token;
pub mod error;
pub mod val;
pub mod stack;
pub mod op;
pub mod lexer;
pub mod parser;
pub mod runtime;
pub mod preprocessor;
pub mod laws;
