//! From source text to assembly text.
use vstd::prelude::*;
use crate::codegen::{compile_program, compiled_text};
use crate::error::{CompileError, ErrV, ErrorKind, result_view};
use crate::ast::Program;
use crate::parser::{parse_program, parse_program_spec, plain_err};
use crate::sexpr::{SExpr, SExprV, read_sexp, reading};
use crate::laws::label_lines_distinct;

verus! {

/// The text of a program read as the S-expression `t`, or the first compile-time error.
pub open spec fn compile_sexp_spec(t: SExprV) -> Result<Seq<char>, ErrV> {
    match parse_program_spec(t) {
        Err(e) => Err(e),
        Ok(p) => compiled_text(p),
    }
}

/// Compiles the program that the S-expression `t` (the list of its top-level forms) holds.
pub fn compile_sexp(t: &SExpr) -> (r: Result<String, CompileError>)
    ensures
        result_view(r) == compile_sexp_spec(t@),
{
    match parse_program(t) {
        Err(e) => Err(e),
        Ok(p) => compile_program(&p),
    }
}

/// The source text wrapped in one pair of parentheses, so that its top-level forms make one list.
pub open spec fn wrapped(src: Seq<char>) -> Seq<char> {
    "("@ + src + ")"@
}

/// Parses a source file: a sequence of definitions followed by the main expression.
pub fn parse_source(src: &str) -> (r: Result<Program, CompileError>)
    ensures
        match reading(wrapped(src@)) {
            None => r matches Err(e) && e@ == plain_err(ErrorKind::Syntax),
            Some(t) => result_view(r) == parse_program_spec(t),
        },
{
    let mut text = String::from_str("(");
    text.append(src);
    text.append(")");
    match read_sexp(text.as_str()) {
        None => Err(CompileError::plain(ErrorKind::Syntax)),
        Some(t) => parse_program(&t),
    }
}

/// Compiles a source file to the assembly text of its functions and its entry point.
pub fn compile_source(src: &str) -> (r: Result<String, CompileError>)
    ensures
        match reading(wrapped(src@)) {
            None => r matches Err(e) && e@ == plain_err(ErrorKind::Syntax),
            Some(t) => result_view(r) == compile_sexp_spec(t),
        },
        r is Ok ==> (reading(wrapped(src@)) matches Some(t) && parse_program_spec(t) matches Ok(p)
            && label_lines_distinct(p)),
{
    match parse_source(src) {
        Err(e) => Err(e),
        Ok(p) => compile_program(&p),
    }
}

} // verus!
