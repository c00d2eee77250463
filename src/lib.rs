//! The front end of a small procedural language: a lazy lexer, a recursive-descent parser,
//! a lowering of the syntax tree into a small intermediate representation, and the hand-off
//! of that representation to LLVM.
use vstd::prelude::*;

pub mod ast;
pub mod backend;
pub mod compile;
pub mod ir;
pub mod lexer;
pub mod parse;
pub mod references;
pub mod tokens;

use crate::ast::Module;
use crate::compile::{gen_module, CompileError, Compiler};
use crate::ir::{module_wf, refs_ok, IrModule};
use crate::lexer::{tokenize, TokenStream};
use crate::parse::{parse_tokens, ParseError};

verus! {

/// The token stream of a source text.
pub fn lex(source: &str) -> (r: TokenStream)
    ensures
        r@ == tokenize(source@),
{
    TokenStream::new(source)
}

/// Parses the tokens into a module named `main`.
pub fn parse(tokens: TokenStream) -> (r: Result<Module, ParseError>)
    ensures
        match parse_tokens(tokens@, "main"@) {
            Ok(u) => r matches Ok(m) && m@ == u,
            Err(e) => r matches Err(x) && x@ == e,
        },
{
    let mut tokens = tokens;
    Module::parse_body(&mut tokens, "main".to_owned())
}

/// Lowers a parsed module into the intermediate representation.
pub fn compile(program: &Module) -> (r: Result<IrModule, CompileError>)
    ensures
        match gen_module(program@) {
            Ok(m) => r matches Ok(ir) && ir@ == m && module_wf(ir) && refs_ok(ir@),
            Err(x) => r matches Err(y) && y@ == x,
        },
{
    let mut compiler = Compiler::new();
    compiler.compile_module(program)
}

} // verus!
