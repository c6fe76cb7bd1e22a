//! From tokens back to text, and the two ways round: the tokenizer loses
//! nothing but the zeros in front of a number, and invents nothing.

use crate::lexing::{
    digit_run_len, ends_once, in_alphabet, lemma_digit_run, lemma_digit_run_is,
    lemma_lex_ends_once, lemma_runs_behind, letter_token, lex, run_begins,
};
use crate::syntax_error::SyntaxErrorView;
use crate::text::{
    all_digits, decimal, decimal_value, is_digit, lemma_decimal_of_value,
    lemma_decimal_round_trip,
};
use crate::token::Token;
use vstd::prelude::*;

verus! {

/// How a token is written: its letter, or the number without leading zeros.
/// `End` is not written.
pub open spec fn spell_token(token: Token) -> Seq<char> {
    match token {
        Token::Plus => seq!['a'],
        Token::Minus => seq!['b'],
        Token::Star => seq!['c'],
        Token::Slash => seq!['d'],
        Token::LeftParen => seq!['e'],
        Token::RightParen => seq!['f'],
        Token::Number(n) => decimal(n as nat),
        Token::End => Seq::empty(),
    }
}

/// How a token sequence is written: token by token, with nothing between.
pub open spec fn spell(tokens: Seq<Token>) -> Seq<char>
    decreases tokens.len(),
{
    if tokens.len() == 0 {
        Seq::empty()
    } else {
        spell_token(tokens.first()) + spell(tokens.drop_first())
    }
}

/// No number of `s` is written with zeros in front: a run of digits that
/// begins with `0` is that one digit.
pub open spec fn plain(s: Seq<char>) -> bool {
    forall|i: int|
        #[trigger] run_begins(s, i) && s[i] == '0' ==> !(i + 1 < s.len() && is_digit(s[i + 1]))
}

/// A token sequence as the tokenizer gives it: `End` at the end and nowhere
/// else, and no number next to a number.
pub open spec fn lexable(tokens: Seq<Token>) -> bool {
    &&& ends_once(tokens)
    &&& forall|i: int|
        0 <= i < tokens.len() - 1 ==> !(#[trigger] tokens[i] is Number && tokens[i + 1] is Number)
}

/// A token in front is written in front.
pub proof fn lemma_spell_cons(token: Token, rest: Seq<Token>)
    ensures
        spell(seq![token] + rest) == spell_token(token) + spell(rest),
{
    assert((seq![token] + rest).drop_first() =~= rest);
}

/// A plain text is the spelling of its tokens: the tokenizer drops nothing.
pub proof fn lemma_spell_of_lex(s: Seq<char>)
    requires
        plain(s),
    ensures
        lex(s) matches Ok(tokens) ==> spell(tokens) == s,
    decreases s.len(),
{
    if s.len() == 0 {
        lemma_spell_cons(Token::End, Seq::empty());
        assert(seq![Token::End] + Seq::empty() =~= seq![Token::End]);
        assert(spell(seq![Token::End]) =~= s);
    } else if is_digit(s.first()) {
        let n = digit_run_len(s) as int;
        let run = s.take(n);
        let rest = s.skip(n);
        lemma_digit_run(s);
        if decimal_value(run) <= u64::MAX {
            if let Ok(tokens) = lex(rest) {
                assert forall|j: int|
                    #[trigger] run_begins(rest, j) && rest[j] == '0' implies !(j + 1 < rest.len()
                    && is_digit(rest[j + 1])) by {
                    lemma_runs_behind(s, n, j);
                    assert(run_begins(s, j + n));
                    assert(rest[j] == s[j + n]);
                    if j + 1 < rest.len() {
                        assert(rest[j + 1] == s[j + n + 1]);
                    }
                }
                lemma_spell_of_lex(rest);
                assert(run_begins(s, 0));
                assert(all_digits(run));
                if n > 1 {
                    assert(is_digit(s[1]));
                    assert(run[0] == s[0]);
                }
                lemma_decimal_of_value(run);
                let number = Token::Number(decimal_value(run) as u64);
                lemma_spell_cons(number, tokens);
                assert(run + rest =~= s);
            }
        }
    } else if let Some(token) = letter_token(s.first()) {
        let rest = s.drop_first();
        assert(rest =~= s.skip(1));
        if let Ok(tokens) = lex(rest) {
            assert forall|j: int|
                #[trigger] run_begins(rest, j) && rest[j] == '0' implies !(j + 1 < rest.len()
                && is_digit(rest[j + 1])) by {
                lemma_runs_behind(s, 1, j);
                assert(run_begins(s, j + 1));
                assert(rest[j] == s[j + 1]);
                if j + 1 < rest.len() {
                    assert(rest[j + 1] == s[j + 2]);
                }
            }
            lemma_spell_of_lex(rest);
            lemma_spell_cons(token, tokens);
            assert(spell_token(token) =~= seq![s.first()]);
            assert(seq![s.first()] + rest =~= s);
        }
    }
}

/// The spelling of a token sequence that does not begin with a number does
/// not begin with a digit.
pub proof fn lemma_spell_begins(tokens: Seq<Token>)
    requires
        lexable(tokens),
        !(tokens.first() is Number),
    ensures
        spell(tokens).len() > 0 ==> !is_digit(spell(tokens).first()),
{
    if tokens.len() == 1 {
        assert(tokens.first() == Token::End);
        assert(spell(tokens.drop_first()) =~= Seq::<char>::empty());
        assert(spell(tokens) =~= Seq::<char>::empty());
    } else {
        assert(tokens[0] != Token::End);
        assert(spell(tokens).first() == spell_token(tokens.first())[0]);
    }
}

/// The spelling of a token sequence is cut into the same tokens again: the
/// tokenizer invents nothing and can give every such sequence.
pub proof fn lemma_lex_of_spell(tokens: Seq<Token>)
    requires
        lexable(tokens),
    ensures
        lex(spell(tokens)) == Ok::<Seq<Token>, SyntaxErrorView>(tokens),
    decreases tokens.len(),
{
    let s = spell(tokens);
    if tokens.len() == 1 {
        assert(tokens =~= seq![Token::End]);
        assert(spell(tokens.drop_first()) =~= Seq::<char>::empty());
        assert(s =~= Seq::<char>::empty());
    } else {
        let token = tokens.first();
        let rest = tokens.drop_first();
        assert(tokens[0] != Token::End);
        assert(rest.last() == tokens.last());
        assert forall|i: int| 0 <= i < rest.len() - 1 implies #[trigger] rest[i]
            != Token::End by {
            assert(rest[i] == tokens[i + 1]);
        }
        assert forall|i: int| 0 <= i < rest.len() - 1 implies !(#[trigger] rest[i] is Number
            && rest[i + 1] is Number) by {
            assert(rest[i] == tokens[i + 1]);
            assert(rest[i + 1] == tokens[i + 2]);
        }
        lemma_lex_of_spell(rest);
        assert(seq![token] + rest =~= tokens);
        match token {
            Token::Number(n) => {
                let digits = decimal(n as nat);
                lemma_decimal_round_trip(n as nat);
                assert(rest[0] == tokens[1]);
                lemma_spell_begins(rest);
                assert forall|i: int| 0 <= i < digits.len() implies is_digit(#[trigger] s[i]) by {
                    assert(s[i] == digits[i]);
                }
                if digits.len() < s.len() {
                    assert(s[digits.len() as int] == spell(rest).first());
                }
                lemma_digit_run_is(s, digits.len());
                assert(s.take(digits.len() as int) =~= digits);
                assert(s.skip(digits.len() as int) =~= spell(rest));
            },
            _ => {
                assert(s.drop_first() =~= spell(rest));
            },
        }
    }
}

/// What the tokenizer gives is a token sequence as `lexable` describes it.
pub proof fn lemma_lex_is_lexable(s: Seq<char>)
    ensures
        lex(s) matches Ok(tokens) ==> lexable(tokens),
        lex(s) matches Ok(tokens) ==> (tokens.first() is Number <==> s.len() > 0 && is_digit(
            s.first(),
        )),
    decreases s.len(),
{
    lemma_lex_ends_once(s);
    if s.len() == 0 {
    } else if is_digit(s.first()) {
        let n = digit_run_len(s) as int;
        lemma_digit_run(s);
        let rest = s.skip(n);
        lemma_lex_is_lexable(rest);
        if decimal_value(s.take(n)) <= u64::MAX {
            if let Ok(behind) = lex(rest) {
                let tokens = seq![Token::Number(decimal_value(s.take(n)) as u64)] + behind;
                lemma_lex_ends_once(rest);
                assert forall|i: int| 0 <= i < tokens.len() - 1 implies !(
                #[trigger] tokens[i] is Number && tokens[i + 1] is Number) by {
                    if i == 0 {
                        assert(tokens[1] == behind[0]);
                        if rest.len() > 0 {
                            assert(rest.first() == s[n]);
                        }
                    } else {
                        assert(tokens[i] == behind[i - 1]);
                        assert(tokens[i + 1] == behind[i]);
                    }
                }
            }
        }
    } else if let Some(token) = letter_token(s.first()) {
        let rest = s.drop_first();
        lemma_lex_is_lexable(rest);
        if let Ok(behind) = lex(rest) {
            let tokens = seq![token] + behind;
            lemma_lex_ends_once(rest);
            assert forall|i: int| 0 <= i < tokens.len() - 1 implies !(#[trigger] tokens[i] is Number
                && tokens[i + 1] is Number) by {
                if i > 0 {
                    assert(tokens[i] == behind[i - 1]);
                    assert(tokens[i + 1] == behind[i]);
                }
            }
        }
    }
}

/// The tokens of any text, written out and cut again, are the same tokens.
pub proof fn lemma_lex_spell_lex(s: Seq<char>)
    ensures
        lex(s) matches Ok(tokens) ==> lex(spell(tokens)) == lex(s),
{
    lemma_lex_is_lexable(s);
    if let Ok(tokens) = lex(s) {
        lemma_lex_of_spell(tokens);
    }
}

/// A spelling is made of the six letters and of digits.
pub proof fn lemma_spell_in_alphabet(tokens: Seq<Token>)
    ensures
        forall|i: int| 0 <= i < spell(tokens).len() ==> in_alphabet(#[trigger] spell(tokens)[i]),
    decreases tokens.len(),
{
    if tokens.len() > 0 {
        let front = spell_token(tokens.first());
        let behind = spell(tokens.drop_first());
        lemma_spell_in_alphabet(tokens.drop_first());
        if let Token::Number(n) = tokens.first() {
            lemma_decimal_round_trip(n as nat);
        }
        assert forall|i: int| 0 <= i < spell(tokens).len() implies in_alphabet(
            #[trigger] spell(tokens)[i],
        ) by {
            if i < front.len() {
                assert(spell(tokens)[i] == front[i]);
            } else {
                assert(spell(tokens)[i] == behind[i - front.len()]);
            }
        }
    }
}

} // verus!
