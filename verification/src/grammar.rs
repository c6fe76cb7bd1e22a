//! What the parser reads from a token sequence, stated on sequences.
//!
//! ```text
//! primary    := Number | LeftParen expression RightParen
//! expression := primary { operator expression }
//! ```
//!
//! An operator is taken up only while its rank is not below the rank asked
//! for, and its right operand is read at one rank above its own. With all
//! ranks alike the right operand of an operator is therefore one primary, and
//! a chain of operators groups from the left.
//!
//! Each function gives a pair: the tree that was read or the first error, and
//! the tokens that were not read.

use crate::parser::{Expression, Operator};
use crate::syntax_error::{Stage, SyntaxErrorView};
use crate::token::Token;
use vstd::prelude::*;

verus! {

/// The error for a token sequence that ends where a token is needed.
pub open spec fn unexpected_end() -> SyntaxErrorView {
    SyntaxErrorView { stage: Stage::Parser, message: "Unexpected end of input"@ }
}

/// The error for a token that cannot begin an operand.
pub open spec fn unexpected_token(found: Token) -> SyntaxErrorView {
    SyntaxErrorView { stage: Stage::Parser, message: "Unexpected token found "@ + found.name() }
}

/// The error for a token that stands where another one is required.
pub open spec fn expected_got(expected: Token, actual: Token) -> SyntaxErrorView {
    SyntaxErrorView {
        stage: Stage::Parser,
        message: "Expected "@ + expected.name() + " got "@ + actual.name(),
    }
}

/// Reads one token: the first token, if there is one, and the tokens behind it.
pub open spec fn next(tokens: Seq<Token>) -> (Option<Token>, Seq<Token>) {
    if tokens.len() == 0 {
        (None, tokens)
    } else {
        (Some(tokens.first()), tokens.drop_first())
    }
}

/// Reads one token, which has to be `wanted`. The token is read whether it is
/// the wanted one or not.
pub open spec fn expect(tokens: Seq<Token>, wanted: Token) -> (
    Result<(), SyntaxErrorView>,
    Seq<Token>,
) {
    if tokens.len() == 0 {
        (Err(unexpected_end()), tokens)
    } else if tokens.first() == wanted {
        (Ok(()), tokens.drop_first())
    } else {
        (Err(expected_got(wanted, tokens.first())), tokens.drop_first())
    }
}

/// Reads `wanted` behind a tree that has been read.
pub open spec fn followed_by(tree: Expression, tokens: Seq<Token>, wanted: Token) -> (
    Result<Expression, SyntaxErrorView>,
    Seq<Token>,
) {
    match expect(tokens, wanted) {
        (Ok(_), rest) => (Ok(tree), rest),
        (Err(e), rest) => (Err(e), rest),
    }
}

/// Reads a number, or an expression in parentheses.
pub open spec fn primary(tokens: Seq<Token>) -> (Result<Expression, SyntaxErrorView>, Seq<Token>)
    decreases tokens.len(), 0nat,
{
    if tokens.len() == 0 {
        (Err(unexpected_end()), tokens)
    } else {
        match tokens.first() {
            Token::Number(n) => (Ok(Expression::Number(n)), tokens.drop_first()),
            Token::LeftParen => match expression(tokens.drop_first(), 0) {
                (Ok(inner), rest) => followed_by(inner, rest, Token::RightParen),
                (Err(e), rest) => (Err(e), rest),
            },
            other => (Err(unexpected_token(other)), tokens.drop_first()),
        }
    }
}

/// Reads an operand and the operators of rank `min_rank` or above behind it.
///
/// The test on the lengths always holds, see `lemma_primary_consumes`; it is
/// there to show that the recursion ends. `lemma_expression_unfold` states
/// the function without it.
pub open spec fn expression(tokens: Seq<Token>, min_rank: u8) -> (
    Result<Expression, SyntaxErrorView>,
    Seq<Token>,
)
    decreases tokens.len(), 2nat,
{
    match primary(tokens) {
        (Ok(left), rest) => if rest.len() <= tokens.len() {
            chain(left, rest, min_rank)
        } else {
            arbitrary()
        },
        (Err(e), rest) => (Err(e), rest),
    }
}

/// Goes on behind the operand `left`: while an operator of rank `min_rank` or
/// above comes next, reads it and its right operand and makes the two operands
/// one tree, which is the left operand from then on.
///
/// The test on the lengths always holds, see `lemma_expression_consumes`; it
/// is there to show that the recursion ends. `lemma_chain_unfold` states the
/// function without it.
pub open spec fn chain(left: Expression, tokens: Seq<Token>, min_rank: u8) -> (
    Result<Expression, SyntaxErrorView>,
    Seq<Token>,
)
    decreases tokens.len(), 1nat,
{
    if continues(tokens, min_rank) {
        let operator = Operator::of_token(tokens.first()).unwrap();
        match expression(tokens.drop_first(), (operator.rank() + 1) as u8) {
            (Ok(right), rest) => if rest.len() < tokens.len() {
                chain(Expression::Binary(operator, Box::new(left), Box::new(right)), rest, min_rank)
            } else {
                arbitrary()
            },
            (Err(e), rest) => (Err(e), rest),
        }
    } else {
        (Ok(left), tokens)
    }
}

/// Whether the next token is an operator of rank `min_rank` or above.
pub open spec fn continues(tokens: Seq<Token>, min_rank: u8) -> bool {
    &&& tokens.len() > 0
    &&& Operator::of_token(tokens.first()) matches Some(operator)
    &&& operator.rank() >= min_rank
}

/// Reads a whole expression and the `End` behind it.
pub open spec fn parse(tokens: Seq<Token>) -> (Result<Expression, SyntaxErrorView>, Seq<Token>) {
    match expression(tokens, 0) {
        (Ok(tree), rest) => followed_by(tree, rest, Token::End),
        (Err(e), rest) => (Err(e), rest),
    }
}

/// `rest` is what is left of `tokens` when some tokens have been read from
/// its beginning.
pub open spec fn remains_of(rest: Seq<Token>, tokens: Seq<Token>) -> bool {
    &&& rest.len() <= tokens.len()
    &&& rest == tokens.skip(tokens.len() - rest.len())
}

/// Being what is left is transitive.
pub proof fn lemma_remains_of_trans(a: Seq<Token>, b: Seq<Token>, c: Seq<Token>)
    requires
        remains_of(a, b),
        remains_of(b, c),
    ensures
        remains_of(a, c),
{
    assert(c.skip(c.len() - b.len()).skip(b.len() - a.len()) =~= c.skip(c.len() - a.len()));
}

/// What is left after the first token.
pub proof fn lemma_remains_of_drop_first(tokens: Seq<Token>)
    requires
        tokens.len() > 0,
    ensures
        remains_of(tokens.drop_first(), tokens),
        remains_of(tokens, tokens),
{
    assert(tokens.drop_first() =~= tokens.skip(1));
    assert(tokens =~= tokens.skip(0));
}

/// Reading never gives tokens back: what is left is the end of what was
/// there. An operand that was read took at least one token.
pub proof fn lemma_primary_consumes(tokens: Seq<Token>)
    ensures
        remains_of(primary(tokens).1, tokens),
        primary(tokens).0 is Ok ==> primary(tokens).1.len() < tokens.len(),
    decreases tokens.len(), 0nat,
{
    assert(tokens =~= tokens.skip(0));
    if tokens.len() > 0 {
        lemma_remains_of_drop_first(tokens);
        if tokens.first() is LeftParen {
            let inner = expression(tokens.drop_first(), 0);
            lemma_expression_consumes(tokens.drop_first(), 0);
            lemma_remains_of_trans(inner.1, tokens.drop_first(), tokens);
            if inner.0 is Ok {
                let after = expect(inner.1, Token::RightParen).1;
                if inner.1.len() > 0 {
                    lemma_remains_of_drop_first(inner.1);
                }
                assert(inner.1 =~= inner.1.skip(0));
                lemma_remains_of_trans(after, inner.1, tokens);
            }
        }
    }
}

/// See `lemma_primary_consumes`.
pub proof fn lemma_expression_consumes(tokens: Seq<Token>, min_rank: u8)
    ensures
        remains_of(expression(tokens, min_rank).1, tokens),
        expression(tokens, min_rank).0 is Ok ==> expression(tokens, min_rank).1.len()
            < tokens.len(),
    decreases tokens.len(), 2nat,
{
    let first = primary(tokens);
    lemma_primary_consumes(tokens);
    if let Ok(left) = first.0 {
        lemma_chain_consumes(left, first.1, min_rank);
        lemma_remains_of_trans(chain(left, first.1, min_rank).1, first.1, tokens);
    }
}

/// See `lemma_primary_consumes`.
pub proof fn lemma_chain_consumes(left: Expression, tokens: Seq<Token>, min_rank: u8)
    ensures
        remains_of(chain(left, tokens, min_rank).1, tokens),
    decreases tokens.len(), 1nat,
{
    assert(tokens =~= tokens.skip(0));
    if continues(tokens, min_rank) {
        let operator = Operator::of_token(tokens.first()).unwrap();
        let rank = (operator.rank() + 1) as u8;
        let right = expression(tokens.drop_first(), rank);
        lemma_remains_of_drop_first(tokens);
        lemma_expression_consumes(tokens.drop_first(), rank);
        lemma_remains_of_trans(right.1, tokens.drop_first(), tokens);
        if let Ok(r) = right.0 {
            let tree = Expression::Binary(operator, Box::new(left), Box::new(r));
            lemma_chain_consumes(tree, right.1, min_rank);
            lemma_remains_of_trans(chain(tree, right.1, min_rank).1, right.1, tokens);
        }
    }
}

/// `expression` without the test on the lengths.
pub proof fn lemma_expression_unfold(tokens: Seq<Token>, min_rank: u8)
    ensures
        expression(tokens, min_rank) == match primary(tokens) {
            (Ok(left), rest) => chain(left, rest, min_rank),
            (Err(e), rest) => (Err(e), rest),
        },
{
    lemma_primary_consumes(tokens);
}

/// `chain` without the test on the lengths.
pub proof fn lemma_chain_unfold(left: Expression, tokens: Seq<Token>, min_rank: u8)
    ensures
        chain(left, tokens, min_rank) == if continues(tokens, min_rank) {
            let operator = Operator::of_token(tokens.first()).unwrap();
            match expression(tokens.drop_first(), (operator.rank() + 1) as u8) {
                (Ok(right), rest) => chain(
                    Expression::Binary(operator, Box::new(left), Box::new(right)),
                    rest,
                    min_rank,
                ),
                (Err(e), rest) => (Err(e), rest),
            }
        } else {
            (Ok(left), tokens)
        },
{
    if continues(tokens, min_rank) {
        let operator = Operator::of_token(tokens.first()).unwrap();
        lemma_expression_consumes(tokens.drop_first(), (operator.rank() + 1) as u8);
    }
}

} // verus!
