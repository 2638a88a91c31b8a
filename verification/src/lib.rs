//! Aevia compiler library: the dimensional type system, the source parser,
//! the formatter, documentation renderers, macro expansion and lints.
pub mod ast;
pub mod text;
pub mod decimal;
pub mod types;
pub mod parser;
pub mod modules;
pub mod manifest;
pub mod fusion;
pub mod fusion_laws;
pub mod project;
pub mod shell;
pub mod commands;
pub mod lowering;
pub mod ops;
pub mod diagnostics;
pub mod fmt;
pub mod fmt_laws;
pub mod macro_expand;
pub mod macro_bodies;
pub mod macro_laws;
pub mod doc;
pub mod lint;
pub mod test_runner;
