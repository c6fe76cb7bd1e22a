//! From text to tokens.

use crate::lexing::{
    digit_run_len, is_whitespace, lemma_digit_run_is, lemma_then_tokens_empty,
    lemma_then_tokens_push, letter_token, lex, number_overflow, then_tokens, trim, trim_end,
    trim_start, unrecognized_character,
};
use crate::syntax_error::{SyntaxError, SyntaxErrorView};
use crate::text::{decimal_value, digit_to_value, is_ascii_digit, is_digit, lemma_decimal_value_grows};
use crate::token::Token;
use vstd::prelude::*;

verus! {

/// The characters of `s` in order.
fn chars_of(s: &str) -> (chars: Vec<char>)
    ensures
        chars@ == s@,
{
    let mut chars: Vec<char> = Vec::new();
    for c in it: s.chars()
        invariant
            it.seq() == s@,
            chars@ == it.seq().take(it.index() as int),
    {
        chars.push(c);
    }
    chars
}

/// Whether `c` is whitespace.
fn is_space(c: char) -> (b: bool)
    ensures
        b == is_whitespace(c),
{
    ('\u{9}' <= c && c <= '\u{d}') || c == ' ' || c == '\u{85}' || c == '\u{a0}' || c
        == '\u{1680}' || ('\u{2000}' <= c && c <= '\u{200a}') || c == '\u{2028}' || c
        == '\u{2029}' || c == '\u{202f}' || c == '\u{205f}' || c == '\u{3000}'
}

/// The token that `c` stands for, if it is one of the six letters.
fn token_of_letter(c: char) -> (token: Option<Token>)
    ensures
        token == letter_token(c),
{
    match c {
        'a' => Some(Token::Plus),
        'b' => Some(Token::Minus),
        'c' => Some(Token::Star),
        'd' => Some(Token::Slash),
        'e' => Some(Token::LeftParen),
        'f' => Some(Token::RightParen),
        _ => None,
    }
}

/// Where the trimmed text begins and ends within `chars`.
fn trim_bounds(chars: &Vec<char>) -> (bounds: (usize, usize))
    ensures
        bounds.0 <= bounds.1 <= chars.len(),
        chars@.subrange(bounds.0 as int, bounds.1 as int) == trim(chars@),
{
    let n: usize = chars.len();
    let mut start: usize = 0;
    assert(chars@.skip(0) =~= chars@);
    while start < n && is_space(chars[start])
        invariant
            start <= n == chars.len(),
            trim_start(chars@) == trim_start(chars@.skip(start as int)),
        decreases n - start,
    {
        assert(chars@.skip(start as int).drop_first() =~= chars@.skip(start + 1));
        start += 1;
    }
    let ghost kept = chars@.skip(start as int);
    assert(trim_start(chars@) == kept);
    let mut end: usize = n;
    while end > start && is_space(chars[end - 1])
        invariant
            start <= end <= n == chars.len(),
            kept == chars@.skip(start as int),
            trim_end(kept) == trim_end(chars@.subrange(start as int, end as int)),
        decreases end - start,
    {
        assert(chars@.subrange(start as int, end as int).drop_last() =~= chars@.subrange(
            start as int,
            end - 1,
        ));
        end -= 1;
    }
    (start, end)
}

/// Appends the characters of `chars` from `from` up to `to` to `out`.
fn push_chars(out: &mut String, chars: &Vec<char>, from: usize, to: usize)
    requires
        from <= to <= chars.len(),
    ensures
        final(out)@ == old(out)@ + chars@.subrange(from as int, to as int),
{
    let mut i: usize = from;
    while i < to
        invariant
            from <= i <= to <= chars.len(),
            out@ == old(out)@ + chars@.subrange(from as int, i as int),
        decreases to - i,
    {
        out.push(chars[i]);
        i += 1;
        assert(out@ =~= old(out)@ + chars@.subrange(from as int, i as int));
    }
}

/// Reads the run of digits that begins at `from` and ends before `end` at the
/// latest. Returns where the run ends and the number it denotes, or `None` for
/// a number that no `u64` holds.
fn read_number(chars: &Vec<char>, from: usize, end: usize) -> (read: (usize, Option<u64>))
    requires
        from < end <= chars.len(),
        is_digit(chars@[from as int]),
    ensures
        from < read.0 <= end,
        read.0 - from == digit_run_len(chars@.subrange(from as int, end as int)),
        match read.1 {
            Some(value) => value == decimal_value(chars@.subrange(from as int, read.0 as int)),
            None => decimal_value(chars@.subrange(from as int, read.0 as int)) > u64::MAX,
        },
{
    let mut to: usize = from;
    let mut value: Option<u64> = Some(0);
    while to < end && is_ascii_digit(chars[to])
        invariant
            from <= to <= end <= chars.len(),
            forall|i: int| from <= i < to ==> is_digit(#[trigger] chars@[i]),
            match value {
                Some(v) => v == decimal_value(chars@.subrange(from as int, to as int)),
                None => decimal_value(chars@.subrange(from as int, to as int)) > u64::MAX,
            },
        decreases end - to,
    {
        let digit: u64 = digit_to_value(chars[to]);
        proof {
            lemma_decimal_value_grows(chars@.subrange(from as int, to as int), chars@[to as int]);
            assert(chars@.subrange(from as int, to as int).push(chars@[to as int])
                =~= chars@.subrange(from as int, to + 1));
        }
        value =
        match value {
            Some(v) => match v.checked_mul(10) {
                Some(tens) => tens.checked_add(digit),
                None => None,
            },
            None => None,
        };
        to += 1;
    }
    proof {
        let window = chars@.subrange(from as int, end as int);
        assert forall|i: int| 0 <= i < to - from implies is_digit(#[trigger] window[i]) by {
            assert(window[i] == chars@[from + i]);
        }
        lemma_digit_run_is(window, (to - from) as nat);
    }
    (to, value)
}

/// Cuts `input`, without the whitespace around it, into tokens.
///
/// Returns the tokens of the text from left to right with `End` behind them.
/// Fails with a tokenizer error at the first character that is neither one of
/// the six letters nor a digit, and at the first run of digits that denotes
/// more than a `u64` holds.
pub fn tokenizer(input: String) -> (result: Result<Vec<Token>, SyntaxError>)
    ensures
        match result {
            Ok(tokens) => lex(trim(input@)) == Ok::<Seq<Token>, SyntaxErrorView>(tokens@),
            Err(e) => lex(trim(input@)) == Err::<Seq<Token>, SyntaxErrorView>(e@),
        },
{
    let chars = chars_of(input.as_str());
    let (start, end) = trim_bounds(&chars);
    let ghost text = chars@.subrange(start as int, end as int);
    let mut tokens: Vec<Token> = Vec::new();
    let mut at: usize = start;
    proof {
        assert(text.skip(0) =~= text);
        lemma_then_tokens_empty(lex(text));
    }
    while at < end
        invariant
            start <= at <= end <= chars.len(),
            text == chars@.subrange(start as int, end as int),
            text == trim(input@),
            lex(text) == then_tokens(tokens@, lex(text.skip(at - start))),
        decreases end - at,
    {
        let c = chars[at];
        let ghost rest = text.skip(at - start);
        assert(rest.len() > 0 && rest.first() == c);
        if is_ascii_digit(c) {
            let (to, value) = read_number(&chars, at, end);
            proof {
                assert(rest =~= chars@.subrange(at as int, end as int));
                assert(rest.take(to - at) =~= chars@.subrange(at as int, to as int));
                assert(rest.skip(to - at) =~= text.skip(to - start));
            }
            match value {
                Some(number) => {
                    proof {
                        lemma_then_tokens_push(
                            tokens@,
                            Token::Number(number),
                            lex(text.skip(to - start)),
                        );
                    }
                    tokens.push(Token::Number(number));
                    at = to;
                },
                None => {
                    let mut message = String::from_str("Number overflow: ");
                    push_chars(&mut message, &chars, at, to);
                    assert(lex(rest) == Err::<Seq<Token>, SyntaxErrorView>(
                        number_overflow(rest.take(to - at)),
                    ));
                    return Err(SyntaxError::tokenizer_error(message));
                },
            }
        } else {
            match token_of_letter(c) {
                Some(token) => {
                    proof {
                        assert(rest.drop_first() =~= text.skip(at + 1 - start));
                        lemma_then_tokens_push(tokens@, token, lex(text.skip(at + 1 - start)));
                    }
                    tokens.push(token);
                    at += 1;
                },
                None => {
                    let mut message = String::from_str("Unrecognized character: ");
                    message.push(c);
                    assert(lex(rest) == Err::<Seq<Token>, SyntaxErrorView>(
                        unrecognized_character(c),
                    ));
                    return Err(SyntaxError::tokenizer_error(message));
                },
            }
        }
    }
    proof {
        assert(text.skip(at - start).len() == 0);
        assert(tokens@ + seq![Token::End] =~= tokens@.push(Token::End));
    }
    tokens.push(Token::End);
    Ok(tokens)
}

} // verus!
