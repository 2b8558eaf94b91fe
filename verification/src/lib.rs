//! A compiler from a small scripting language to shell scripts, in three stages:
//! the tokenizer, the parser and the generator.

pub mod compiler;
pub mod error;
pub mod grammar;
pub mod lexer;
pub mod number;
pub mod parser;
pub mod rendering;
pub mod scanning;
pub mod text;

pub use compiler::{Compiler, Shell, Target};
pub use error::RosellaError;
pub use lexer::{Lexer, Token};
pub use number::Number;
pub use parser::{BinaryOp, Expr, Parser, Stmt, OS};

use vstd::prelude::*;
use crate::compiler::emitted;
use crate::error::ErrorView;
use crate::grammar::statements_of;
use crate::rendering::emit_program;
use crate::scanning::tokens_of;

verus! {

/// The script of a source text for a target: the text is tokenized, the tokens are parsed, the
/// statements are generated. Where a stage fails, its error is the result.
pub open spec fn script_of(source: Seq<char>, target: Target) -> Result<Seq<char>, ErrorView> {
    match tokens_of(source) {
        Err(e) => Err(e),
        Ok(tokens) => match statements_of(tokens) {
            Err(e) => Err(e),
            Ok(program) => emit_program(target, program),
        },
    }
}

/// Compiles a source text to the script of the given target.
pub fn compile_source(source: &str, os: OS, shell: Shell) -> (r: Result<String, RosellaError>)
    ensures
        emitted(r, script_of(source@, Target { os, shell })),
{
    let mut lexer = Lexer::new(source);
    let tokens = lexer.tokenise()?;
    let mut parser = Parser::new(tokens);
    let statements = parser.parse()?;
    let mut compiler = Compiler::new(statements, os, shell);
    compiler.compile()
}

} // verus!
