//! A calculator for a notation in which letters stand for the operators:
//! `a` is `+`, `b` is `-`, `c` is `*`, `d` is `/`, `e` is `(` and `f` is `)`.
//! An input is cut into tokens, the tokens are read into a tree, and the tree
//! is evaluated in unsigned 64-bit arithmetic.

use vstd::prelude::*;

pub mod grammar;
pub mod lexing;
pub mod parser;
pub mod spelling;
pub mod syntax_error;
pub mod text;
pub mod token;
pub mod tokenizer;
pub mod writing;

use crate::lexing::{in_alphabet, lemma_trim_of_trimmed, lex, trim};
use crate::parser::{ArithmeticError, Expression, Parser};
use crate::spelling::{lemma_lex_of_spell, lemma_spell_in_alphabet, spell};
use crate::syntax_error::{SyntaxError, SyntaxErrorView};
use crate::token::Token;
use crate::tokenizer::tokenizer;
use crate::writing::{lemma_parse_of_render, lemma_render_lexable, render};

verus! {

/// What an input comes to: a syntax error, or else the value of the
/// expression it denotes or the arithmetic fault that keeps the expression
/// from having one.
pub open spec fn interpret(input: Seq<char>) -> Result<
    Result<u64, ArithmeticError>,
    SyntaxErrorView,
> {
    match lex(trim(input)) {
        Err(e) => Err(e),
        Ok(tokens) => match grammar::parse(tokens).0 {
            Err(e) => Err(e),
            Ok(tree) => Ok(tree.value()),
        },
    }
}

/// Evaluates `input`, whatever it holds.
///
/// Returns the first error of the tokenizer or the parser. For an input that
/// is an expression, returns its value, or the first arithmetic fault met in
/// evaluating it.
pub fn run_checked(input: String) -> (result: Result<Result<u64, ArithmeticError>, SyntaxError>)
    ensures
        match result {
            Ok(outcome) => interpret(input@) == Ok::<_, SyntaxErrorView>(outcome),
            Err(e) => interpret(input@) == Err::<Result<u64, ArithmeticError>, _>(e@),
        },
{
    let tokens = match tokenizer(input) {
        Ok(tokens) => tokens,
        Err(e) => return Err(e),
    };
    let mut parser = Parser::new(tokens.as_slice());
    match parser.parse() {
        Ok(tree) => Ok(tree.checked_eval()),
        Err(e) => Err(e),
    }
}

/// Evaluates `input`, which must not run into an arithmetic fault: no sum or
/// product above `u64::MAX`, no difference below zero, no division by zero.
///
/// Returns the value of the expression, or the first error of the tokenizer
/// or the parser. The result depends on the input alone.
pub fn run(input: String) -> (result: Result<u64, SyntaxError>)
    requires
        !(interpret(input@) matches Ok(Err(_))),
    ensures
        match result {
            Ok(value) => interpret(input@) == Ok::<_, SyntaxErrorView>(
                Ok::<u64, ArithmeticError>(value),
            ),
            Err(e) => interpret(input@) == Err::<Result<u64, ArithmeticError>, _>(e@),
        },
{
    let tokens = match tokenizer(input) {
        Ok(tokens) => tokens,
        Err(e) => return Err(e),
    };
    let mut parser = Parser::new(tokens.as_slice());
    match parser.parse() {
        Ok(mut tree) => Ok(tree.eval()),
        Err(e) => Err(e),
    }
}

/// Every tree can be entered as a text: the spelling of the tokens of the
/// tree comes to the value of the tree, or to its arithmetic fault.
pub proof fn lemma_interpret_of_rendered(tree: Expression)
    ensures
        interpret(spell(render(tree).push(Token::End))) == Ok::<
            Result<u64, ArithmeticError>,
            SyntaxErrorView,
        >(tree.value()),
{
    let tokens = render(tree).push(Token::End);
    let text = spell(tokens);
    lemma_render_lexable(tree);
    lemma_spell_in_alphabet(tokens);
    if text.len() > 0 {
        assert(in_alphabet(text.first()));
        assert(in_alphabet(text.last()));
    }
    lemma_trim_of_trimmed(text);
    lemma_lex_of_spell(tokens);
    lemma_parse_of_render(tree);
}

} // verus!
