//! Support for editing RON documents whose values are of Rust types: formatting, completions and
//! code actions, and the types themselves, read from the source files of a workspace.

pub mod annotation_parser;
pub mod code_actions;
pub mod completion;
pub mod edits;
pub mod fixes;
pub mod format;
pub mod grammar;
pub mod keyed;
pub mod lines;
pub mod lists;
pub mod lsp;
pub mod offers;
pub mod outline;
pub mod reading;
pub mod rust_analyzer;
pub mod rust_syntax;
pub mod scanning;
pub mod syntax;
pub mod text;
pub mod tokens;
pub mod tree_sitter_parser;
pub mod ts_utils;
