//! dusk: the front end and code generation helpers of a small systems language
//! compiler that targets textual LLVM IR.

pub mod text;
pub mod diag;
pub mod fmt;
pub mod prescan;
pub mod codegen;
pub mod lexer;
pub mod loader;
pub mod parser;
pub mod mono;
pub mod privatize;
pub mod desugar;
