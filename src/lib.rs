//! A compiler from a small first-order expression language, written as S-expressions, to
//! x86-64 assembly text.
//!
//! The pipeline: [`sexpr`] reads the source into an S-expression tree; [`parser`] checks its
//! shape and builds the [`ast`]; [`depth`] bounds the stack slots each expression needs;
//! [`codegen`] lowers definitions and the main expression to [`instr`] instructions, with a
//! function table and a compile-time environment held in the persistent maps of [`env`];
//! [`instr`] prints them. [`compile`] strings these together. [`runtime`] holds what the
//! runtime computes about values; [`harness`] decides end-to-end test verdicts; [`laws`]
//! states properties of the generated code.
pub mod sexpr;
pub mod error;
pub mod ast;
pub mod parser;
pub mod depth;
pub mod instr;
pub mod env;
pub mod codegen;
pub mod compile;
pub mod runtime;
pub mod harness;
pub mod laws;
