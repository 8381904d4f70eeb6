//! A small language for automation over a message broker: scripts are parsed,
//! compiled to code for a stack machine, and run as cooperating tasks.

pub mod ast;
pub mod broker;
pub mod clock;
pub mod codegen;
pub mod compiler;
pub mod error;
pub mod json;
pub mod literal;
pub mod machine;
pub mod parser;
pub mod payload;
pub mod scope;
pub mod stack;
pub mod targets;
pub mod text;
pub mod value;
pub mod vm;
pub mod wellformed;

use crate::ast::{Stmt, StmtView};
use crate::compiler::{program, Code, CodeView, Interpreter};
use crate::error::CompileError;
use crate::parser::{parse, script};
use vstd::prelude::*;

verus! {

/// What turns a script into something that runs.
pub trait Compile {
    /// What comes out.
    type Output;

    /// Whether `out` is what compiling the script `ast` gives.
    spec fn compiles_to(ast: StmtView, out: Result<Self::Output, CompileError>) -> bool;

    /// Compiles a script that has been read.
    fn from_ast(ast: Stmt) -> (out: Result<Self::Output, CompileError>)
        ensures
            Self::compiles_to(ast@, out),
    ;

    /// Reads and compiles the script that `source` spells.
    fn from_source(source: &str) -> (out: Result<Self::Output, CompileError>)
        ensures
            match script(source@) {
                Some(ast) => Self::compiles_to(ast, out),
                None => out matches Err(e) && e == CompileError::Syntax,
            },
    {
        match parse(source) {
            Ok(ast) => Self::from_ast(ast),
            Err(e) => Err(e),
        }
    }
}

/// The code that a text compiles to: the code of the script that it spells.
pub open spec fn compiled(source: Seq<char>) -> Result<CodeView, CompileError> {
    match script(source) {
        Some(ast) => program(ast),
        None => Err(CompileError::Syntax),
    }
}

impl Compile for Interpreter {
    type Output = Code;

    open spec fn compiles_to(ast: StmtView, out: Result<Code, CompileError>) -> bool {
        match program(ast) {
            Ok(code) => out matches Ok(c) && c@ == code,
            Err(e) => out matches Err(f) && f == e,
        }
    }

    fn from_ast(ast: Stmt) -> (out: Result<Code, CompileError>) {
        Interpreter::compile(&ast)
    }
}

/// Compiling is a function of the text: the same characters give the same
/// code, or the same error.
pub proof fn compilation_is_deterministic(
    source: Seq<char>,
    again: Seq<char>,
    first: Result<Code, CompileError>,
    second: Result<Code, CompileError>,
)
    requires
        source == again,
        match script(source) {
            Some(ast) => Interpreter::compiles_to(ast, first),
            None => first matches Err(e) && e == CompileError::Syntax,
        },
        match script(again) {
            Some(ast) => Interpreter::compiles_to(ast, second),
            None => second matches Err(e) && e == CompileError::Syntax,
        },
    ensures
        first matches Ok(a) ==> second matches Ok(b) && a@ == b@ && compiled(source) == Ok::<
            CodeView,
            CompileError,
        >(a@),
        first matches Err(e) ==> second matches Err(f) && e == f,
{
}

} // verus!
