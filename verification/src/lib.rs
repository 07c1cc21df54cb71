//! The verified core of the Dyn compiler's front and middle end: the
//! recursive-descent parser over tokens, the grouping of source files into
//! modules, the MIR data model with its well-formedness verification, and
//! the string-level type-hint, layout and variable analyses that MIR
//! lowering builds on.

pub mod text;
pub mod name_set;
pub mod span;
pub mod ast;
pub mod token;
pub mod diagnostics;
pub mod hir;
pub mod mir;
pub mod module_resolver;
pub mod module_reader;
pub mod module_graph;
pub mod mir_verify;
pub mod lower_helpers;
pub mod lower_analysis;
pub mod scope_analysis;
pub mod parser_text;
pub mod parser;
pub mod function_lowerer;
pub mod comptime_eval;
