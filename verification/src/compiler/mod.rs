pub mod air;
pub mod air_ast;
pub mod air_lower;
pub mod ast;
pub mod builtins;
pub mod call_args;
pub mod codegen;
pub mod codegen_model;
pub mod emitter;
pub mod error;
pub mod format_air;
pub mod format_hir;
pub mod hir;
pub mod hir_ast;
pub mod hir_context;
pub mod hir_lower;
pub mod lexer;
pub mod parser;
pub mod pipeline;
pub mod runtime;
pub mod signature;
pub mod span;
pub mod symbol;
pub mod token;

pub use pipeline::compile;
