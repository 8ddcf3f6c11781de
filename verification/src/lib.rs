//! A propositional-logic interpreter. A lexer turns the input text into
//! tokens, a shunting-yard parser builds an expression tree and a table of
//! variable bindings from assignment statements, and a tree-walking
//! evaluator computes the boolean result. Each stage carries a contract
//! against a mathematical model of the input, pinning down the successful
//! results and the errors alike.

use vstd::prelude::*;

pub mod interpreter;
pub mod lexer;
pub mod parser;

use crate::lexer::Lexer;
use crate::parser::construct::{construct_result_view, init_state, spec_parse_at};
use crate::parser::{construct_ast, ASTNode, StoredVariables, SyntaxError};

verus! {

/// Runs the lexer and the parser over the whole text: the expression tree
/// and the bindings table it describes, or the first lexing or parsing error.
pub fn parse(contents: &str) -> (r: Result<(ASTNode, StoredVariables), SyntaxError>)
    ensures
        construct_result_view(r) == spec_parse_at(contents@, 0, init_state()),
{
    let mut lexer = Lexer::new(contents);
    construct_ast(&mut lexer)
}

} // verus!
