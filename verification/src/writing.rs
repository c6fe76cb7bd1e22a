//! From a tree back to tokens, and the way round: every tree can be written
//! in the notation, and the parser reads what was written as the same tree.

use crate::grammar::{
    chain, expression, lemma_chain_unfold, lemma_expression_unfold, parse, primary,
};
use crate::parser::{Expression, Operator};
use crate::spelling::lexable;
use crate::syntax_error::SyntaxErrorView;
use crate::token::Token;
use vstd::prelude::*;

verus! {

/// The tokens of a tree: the left operand, the operator, the right operand.
/// The left operand needs no parentheses, since operators group from the
/// left.
pub open spec fn render(tree: Expression) -> Seq<Token>
    decreases tree, 0nat,
{
    match tree {
        Expression::Number(n) => seq![Token::Number(n)],
        Expression::Binary(operator, left, right) => render(*left) + seq![operator.token()]
            + render_operand(*right),
    }
}

/// The tokens of a tree that stands as a right operand: a number as it is,
/// anything else in parentheses.
pub open spec fn render_operand(tree: Expression) -> Seq<Token>
    decreases tree, 1nat,
{
    match tree {
        Expression::Number(n) => seq![Token::Number(n)],
        Expression::Binary(_, _, _) => seq![Token::LeftParen] + render(tree) + seq![
            Token::RightParen,
        ],
    }
}

/// An expression that was written is read as the left operand of whatever
/// operators stand behind it.
pub proof fn lemma_expression_of_render(tree: Expression, rest: Seq<Token>)
    ensures
        expression(render(tree) + rest, 0) == chain(tree, rest, 0),
    decreases tree, 0nat,
{
    let tokens = render(tree) + rest;
    lemma_expression_unfold(tokens, 0);
    match tree {
        Expression::Number(n) => {
            assert(tokens.first() == Token::Number(n));
            assert(tokens.drop_first() =~= rest);
        },
        Expression::Binary(operator, left, right) => {
            let behind = seq![operator.token()] + render_operand(*right) + rest;
            assert(tokens =~= render(*left) + behind);
            lemma_expression_of_render(*left, behind);
            lemma_expression_unfold(render(*left) + behind, 0);
            lemma_chain_unfold(*left, behind, 0);
            assert(behind.first() == operator.token());
            assert(Operator::of_token(operator.token()) == Some(operator));
            assert(behind.drop_first() =~= render_operand(*right) + rest);
            let above = (operator.rank() + 1) as u8;
            lemma_expression_unfold(render_operand(*right) + rest, above);
            lemma_primary_of_render(*right, rest);
            lemma_chain_stops(*right, rest, above);
        },
    }
}

/// No operator is taken up where the rank asked for is above the rank of
/// every operator: the operand stands alone.
pub proof fn lemma_chain_stops(left: Expression, tokens: Seq<Token>, min_rank: u8)
    requires
        forall|operator: Operator| #[trigger] operator.rank() < min_rank,
    ensures
        chain(left, tokens, min_rank) == (Ok::<Expression, SyntaxErrorView>(left), tokens),
{
    lemma_chain_unfold(left, tokens, min_rank);
}

/// A right operand that was written is read as it was, and nothing behind it
/// is touched.
pub proof fn lemma_primary_of_render(tree: Expression, rest: Seq<Token>)
    ensures
        primary(render_operand(tree) + rest) == (Ok::<Expression, SyntaxErrorView>(tree), rest),
    decreases tree, 1nat,
{
    let tokens = render_operand(tree) + rest;
    match tree {
        Expression::Number(n) => {
            assert(tokens.first() == Token::Number(n));
            assert(tokens.drop_first() =~= rest);
        },
        Expression::Binary(_, _, _) => {
            let behind = seq![Token::RightParen] + rest;
            assert(tokens.first() == Token::LeftParen);
            assert(tokens.drop_first() =~= render(tree) + behind);
            lemma_expression_of_render(tree, behind);
            lemma_chain_unfold(tree, behind, 0);
            assert(behind.first() == Token::RightParen);
            assert(behind.drop_first() =~= rest);
        },
    }
}

/// Writing a tree and reading the tokens gives the tree back, with no token
/// left over. A chain of operators without parentheses is thus read as the
/// tree that groups from the left, and as no other.
pub proof fn lemma_parse_of_render(tree: Expression)
    ensures
        parse(render(tree).push(Token::End)) == (
            Ok::<Expression, SyntaxErrorView>(tree),
            Seq::<Token>::empty(),
        ),
{
    let behind = seq![Token::End];
    assert(render(tree).push(Token::End) =~= render(tree) + behind);
    lemma_expression_of_render(tree, behind);
    lemma_chain_unfold(tree, behind, 0);
    assert(behind.first() == Token::End);
    assert(behind.drop_first() =~= Seq::<Token>::empty());
}

/// Tokens that can stand in front of `End` and be spelled: no `End` among
/// them, and no number next to a number.
pub open spec fn spellable(tokens: Seq<Token>) -> bool {
    &&& forall|i: int| 0 <= i < tokens.len() ==> #[trigger] tokens[i] != Token::End
    &&& forall|i: int|
        0 <= i < tokens.len() - 1 ==> !(#[trigger] tokens[i] is Number && tokens[i + 1] is Number)
}

/// Two spellable sequences are spellable one behind the other, unless a
/// number would come to stand next to a number.
pub proof fn lemma_spellable_concat(a: Seq<Token>, b: Seq<Token>)
    requires
        spellable(a),
        spellable(b),
        a.len() > 0 && b.len() > 0 ==> !(a.last() is Number && b.first() is Number),
    ensures
        spellable(a + b),
{
    let joined = a + b;
    assert forall|i: int| 0 <= i < joined.len() implies #[trigger] joined[i] != Token::End by {
        if i < a.len() {
            assert(joined[i] == a[i]);
        } else {
            assert(joined[i] == b[i - a.len()]);
        }
    }
    assert forall|i: int| 0 <= i < joined.len() - 1 implies !(#[trigger] joined[i] is Number
        && joined[i + 1] is Number) by {
        if i + 1 < a.len() {
            assert(joined[i] == a[i] && joined[i + 1] == a[i + 1]);
        } else if i >= a.len() {
            assert(joined[i] == b[i - a.len()] && joined[i + 1] == b[i + 1 - a.len()]);
        } else {
            assert(joined[i] == a.last() && joined[i + 1] == b.first());
        }
    }
}

/// What is written for a tree is spellable.
pub proof fn lemma_render_spellable(tree: Expression)
    ensures
        spellable(render(tree)),
        render(tree).len() > 0,
    decreases tree, 0nat,
{
    match tree {
        Expression::Number(n) => {},
        Expression::Binary(operator, left, right) => {
            lemma_render_spellable(*left);
            lemma_render_operand_spellable(*right);
            lemma_spellable_concat(render(*left), seq![operator.token()]);
            lemma_spellable_concat(render(*left) + seq![operator.token()], render_operand(*right));
        },
    }
}

/// What is written for a right operand is spellable.
pub proof fn lemma_render_operand_spellable(tree: Expression)
    ensures
        spellable(render_operand(tree)),
        render_operand(tree).len() > 0,
    decreases tree, 1nat,
{
    match tree {
        Expression::Number(n) => {},
        Expression::Binary(_, _, _) => {
            lemma_render_spellable(tree);
            lemma_spellable_concat(seq![Token::LeftParen], render(tree));
            lemma_spellable_concat(seq![Token::LeftParen] + render(tree), seq![Token::RightParen]);
        },
    }
}

/// What is written for a tree, with `End` behind it, is a token sequence as
/// the tokenizer gives it.
pub proof fn lemma_render_lexable(tree: Expression)
    ensures
        lexable(render(tree).push(Token::End)),
{
    lemma_render_spellable(tree);
    let tokens = render(tree).push(Token::End);
    assert forall|i: int| 0 <= i < tokens.len() - 1 implies #[trigger] tokens[i]
        != Token::End by {
        assert(tokens[i] == render(tree)[i]);
    }
    assert forall|i: int| 0 <= i < tokens.len() - 1 implies !(#[trigger] tokens[i] is Number
        && tokens[i + 1] is Number) by {
        assert(tokens[i] == render(tree)[i]);
        if i + 1 < render(tree).len() {
            assert(tokens[i + 1] == render(tree)[i + 1]);
        }
    }
}

} // verus!
