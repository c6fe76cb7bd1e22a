//! What the tokenizer reads from a text, stated on sequences of characters.
//!
//! Six letters stand for the operators and parentheses:
//! `a` is `+`, `b` is `-`, `c` is `*`, `d` is `/`, `e` is `(`, `f` is `)`.
//! A run of digits is an unsigned number. Nothing else is in the alphabet.

use crate::syntax_error::{Stage, SyntaxErrorView};
use crate::text::{decimal_value, is_digit};
use crate::token::Token;
use vstd::prelude::*;

verus! {

/// The characters that Unicode classes as `White_Space`.
pub open spec fn is_whitespace(c: char) -> bool {
    ||| '\u{9}' <= c <= '\u{d}'
    ||| c == ' '
    ||| c == '\u{85}'
    ||| c == '\u{a0}'
    ||| c == '\u{1680}'
    ||| '\u{2000}' <= c <= '\u{200a}'
    ||| c == '\u{2028}'
    ||| c == '\u{2029}'
    ||| c == '\u{202f}'
    ||| c == '\u{205f}'
    ||| c == '\u{3000}'
}

/// `s` without the whitespace at its beginning.
pub open spec fn trim_start(s: Seq<char>) -> Seq<char>
    decreases s.len(),
{
    if s.len() > 0 && is_whitespace(s.first()) {
        trim_start(s.drop_first())
    } else {
        s
    }
}

/// `s` without the whitespace at its end.
pub open spec fn trim_end(s: Seq<char>) -> Seq<char>
    decreases s.len(),
{
    if s.len() > 0 && is_whitespace(s.last()) {
        trim_end(s.drop_last())
    } else {
        s
    }
}

/// `s` without the whitespace at either end.
pub open spec fn trim(s: Seq<char>) -> Seq<char> {
    trim_end(trim_start(s))
}

/// The token that one of the six letters stands for.
pub open spec fn letter_token(c: char) -> Option<Token> {
    if c == 'a' {
        Some(Token::Plus)
    } else if c == 'b' {
        Some(Token::Minus)
    } else if c == 'c' {
        Some(Token::Star)
    } else if c == 'd' {
        Some(Token::Slash)
    } else if c == 'e' {
        Some(Token::LeftParen)
    } else if c == 'f' {
        Some(Token::RightParen)
    } else {
        None
    }
}

/// How many digits stand at the beginning of `s` before the first character
/// that is not a digit.
pub open spec fn digit_run_len(s: Seq<char>) -> nat
    decreases s.len(),
{
    if s.len() > 0 && is_digit(s.first()) {
        1 + digit_run_len(s.drop_first())
    } else {
        0
    }
}

/// The run at the beginning of `s` lies within `s`, is made of digits, and
/// ends where `s` ends or the next character is no digit.
pub proof fn lemma_digit_run(s: Seq<char>)
    ensures
        digit_run_len(s) <= s.len(),
        forall|i: int| 0 <= i < digit_run_len(s) ==> is_digit(#[trigger] s[i]),
        digit_run_len(s) < s.len() ==> !is_digit(s[digit_run_len(s) as int]),
    decreases s.len(),
{
    if s.len() > 0 && is_digit(s.first()) {
        let tail = s.drop_first();
        lemma_digit_run(tail);
        assert forall|i: int| 0 <= i < digit_run_len(s) implies is_digit(#[trigger] s[i]) by {
            if i > 0 {
                assert(s[i] == tail[i - 1]);
            }
        }
        if digit_run_len(s) < s.len() {
            assert(s[digit_run_len(s) as int] == tail[digit_run_len(tail) as int]);
        }
    }
}

/// The error for a character outside the alphabet.
pub open spec fn unrecognized_character(c: char) -> SyntaxErrorView {
    SyntaxErrorView { stage: Stage::Tokenizer, message: "Unrecognized character: "@.push(c) }
}

/// The error for a run of digits that denotes more than a `u64` holds.
pub open spec fn number_overflow(digits: Seq<char>) -> SyntaxErrorView {
    SyntaxErrorView { stage: Stage::Tokenizer, message: "Number overflow: "@ + digits }
}

/// `front` followed by the tokens of `rest`, or the error of `rest`.
pub open spec fn then_tokens(
    front: Seq<Token>,
    rest: Result<Seq<Token>, SyntaxErrorView>,
) -> Result<Seq<Token>, SyntaxErrorView> {
    match rest {
        Ok(tokens) => Ok(front + tokens),
        Err(e) => Err(e),
    }
}

/// The tokens of `s`, read from left to right and closed by `End`, or the
/// first fault met on the way: a character outside the alphabet, or a run of
/// digits too large for a `u64`. A run of digits is always taken whole.
pub open spec fn lex(s: Seq<char>) -> Result<Seq<Token>, SyntaxErrorView>
    decreases s.len(),
{
    if s.len() == 0 {
        Ok(seq![Token::End])
    } else if is_digit(s.first()) {
        let n = digit_run_len(s);
        let run = s.take(n as int);
        proof {
            lemma_digit_run(s);
        }
        if decimal_value(run) > u64::MAX {
            Err(number_overflow(run))
        } else {
            then_tokens(seq![Token::Number(decimal_value(run) as u64)], lex(s.skip(n as int)))
        }
    } else {
        match letter_token(s.first()) {
            Some(token) => then_tokens(seq![token], lex(s.drop_first())),
            None => Err(unrecognized_character(s.first())),
        }
    }
}

/// A run of `k` digits at the beginning of `s`, with no digit behind it, is
/// the whole run.
pub proof fn lemma_digit_run_is(s: Seq<char>, k: nat)
    requires
        k <= s.len(),
        forall|i: int| 0 <= i < k ==> is_digit(#[trigger] s[i]),
        k < s.len() ==> !is_digit(s[k as int]),
    ensures
        digit_run_len(s) == k,
    decreases k,
{
    if k > 0 {
        let tail = s.drop_first();
        assert forall|i: int| 0 <= i < k - 1 implies is_digit(#[trigger] tail[i]) by {
            assert(tail[i] == s[i + 1]);
        }
        lemma_digit_run_is(tail, (k - 1) as nat);
    }
}

/// With no token in front, what is read later stands alone.
pub proof fn lemma_then_tokens_empty(rest: Result<Seq<Token>, SyntaxErrorView>)
    ensures
        then_tokens(Seq::empty(), rest) == rest,
{
    if let Ok(tokens) = rest {
        assert(Seq::<Token>::empty() + tokens =~= tokens);
    }
}

/// Tokens read earlier stay in front of what is read later.
pub proof fn lemma_then_tokens_push(
    front: Seq<Token>,
    token: Token,
    rest: Result<Seq<Token>, SyntaxErrorView>,
)
    ensures
        then_tokens(front, then_tokens(seq![token], rest)) == then_tokens(front.push(token), rest),
{
    if let Ok(tokens) = rest {
        assert(front + (seq![token] + tokens) =~= front.push(token) + tokens);
    }
}

/// One of the six letters, or a digit.
pub open spec fn in_alphabet(c: char) -> bool {
    is_digit(c) || letter_token(c) is Some
}

/// A run of digits begins at `i`: a digit stands there and none before it.
pub open spec fn run_begins(s: Seq<char>, i: int) -> bool {
    &&& 0 <= i < s.len()
    &&& is_digit(s[i])
    &&& (i > 0 ==> !is_digit(s[i - 1]))
}

/// The digits from `i` up to the first character that is no digit.
pub open spec fn run_at(s: Seq<char>, i: int) -> Seq<char> {
    s.skip(i).take(digit_run_len(s.skip(i)) as int)
}

/// A text that the tokenizer accepts: every character is in the alphabet,
/// and every run of digits denotes a number that a `u64` holds.
pub open spec fn well_formed(s: Seq<char>) -> bool {
    &&& forall|i: int| 0 <= i < s.len() ==> in_alphabet(#[trigger] s[i])
    &&& forall|i: int| #[trigger] run_begins(s, i) ==> decimal_value(run_at(s, i)) <= u64::MAX
}

/// `End` stands at the end of `tokens` and nowhere else.
pub open spec fn ends_once(tokens: Seq<Token>) -> bool {
    &&& tokens.len() >= 1
    &&& tokens.last() == Token::End
    &&& forall|i: int| 0 <= i < tokens.len() - 1 ==> #[trigger] tokens[i] != Token::End
}

/// Behind a place `k` that no run of digits reaches across, the runs of
/// `s.skip(k)` are the runs of `s`.
pub proof fn lemma_runs_behind(s: Seq<char>, k: int, j: int)
    requires
        0 < k <= s.len(),
        k < s.len() && is_digit(s[k]) ==> !is_digit(s[k - 1]),
        0 <= j,
    ensures
        run_begins(s.skip(k), j) == run_begins(s, j + k),
        j + k <= s.len() ==> run_at(s.skip(k), j) == run_at(s, j + k),
{
    if j + k <= s.len() {
        assert(s.skip(k).skip(j) =~= s.skip(j + k));
    }
}

/// The tokenizer accepts exactly the well-formed texts: a character outside
/// the alphabet or a number that is too large is never passed over.
pub proof fn lemma_lex_accepts(s: Seq<char>)
    ensures
        lex(s) is Ok <==> well_formed(s),
    decreases s.len(),
{
    if s.len() == 0 {
    } else if is_digit(s.first()) {
        let n = digit_run_len(s) as int;
        lemma_digit_run(s);
        assert(s.skip(0) =~= s);
        assert(run_at(s, 0) == s.take(n));
        assert(run_begins(s, 0));
        if decimal_value(s.take(n)) <= u64::MAX {
            let rest = s.skip(n);
            lemma_lex_accepts(rest);
            if well_formed(s) {
                assert forall|j: int| 0 <= j < rest.len() implies in_alphabet(
                    #[trigger] rest[j],
                ) by {
                    assert(rest[j] == s[j + n]);
                }
                assert forall|j: int| #[trigger] run_begins(rest, j) implies decimal_value(
                    run_at(rest, j),
                ) <= u64::MAX by {
                    lemma_runs_behind(s, n, j);
                    assert(run_begins(s, j + n));
                }
            }
            if well_formed(rest) {
                assert forall|i: int| 0 <= i < s.len() implies in_alphabet(#[trigger] s[i]) by {
                    if i >= n {
                        assert(s[i] == rest[i - n]);
                    }
                }
                assert forall|i: int| #[trigger] run_begins(s, i) implies decimal_value(
                    run_at(s, i),
                ) <= u64::MAX by {
                    if i >= n {
                        lemma_runs_behind(s, n, i - n);
                        assert(run_begins(rest, i - n));
                    } else if i > 0 {
                        assert(is_digit(s[i - 1]));
                    }
                }
            }
        }
    } else if letter_token(s.first()) is Some {
        let rest = s.drop_first();
        assert(rest =~= s.skip(1));
        lemma_lex_accepts(rest);
        if well_formed(s) {
            assert forall|j: int| 0 <= j < rest.len() implies in_alphabet(#[trigger] rest[j]) by {
                assert(rest[j] == s[j + 1]);
            }
            assert forall|j: int| #[trigger] run_begins(rest, j) implies decimal_value(
                run_at(rest, j),
            ) <= u64::MAX by {
                lemma_runs_behind(s, 1, j);
                assert(run_begins(s, j + 1));
            }
        }
        if well_formed(rest) {
            assert forall|i: int| 0 <= i < s.len() implies in_alphabet(#[trigger] s[i]) by {
                if i >= 1 {
                    assert(s[i] == rest[i - 1]);
                }
            }
            assert forall|i: int| #[trigger] run_begins(s, i) implies decimal_value(run_at(s, i))
                <= u64::MAX by {
                if i >= 1 {
                    lemma_runs_behind(s, 1, i - 1);
                    assert(run_begins(rest, i - 1));
                }
            }
        }
    } else {
        assert(!in_alphabet(s[0]));
    }
}

/// Whatever the tokenizer gives ends with `End` and holds no other `End`.
pub proof fn lemma_lex_ends_once(s: Seq<char>)
    ensures
        lex(s) matches Ok(tokens) ==> ends_once(tokens),
    decreases s.len(),
{
    if s.len() == 0 {
    } else if is_digit(s.first()) {
        lemma_digit_run(s);
        lemma_lex_ends_once(s.skip(digit_run_len(s) as int));
    } else if letter_token(s.first()) is Some {
        lemma_lex_ends_once(s.drop_first());
    }
}

/// A text of the six letters and of runs of digits that fit a `u64` has
/// nothing to trim and is cut into tokens, and the tokens end with `End` and
/// hold no other `End`.
pub proof fn lemma_lex_of_well_formed(s: Seq<char>)
    requires
        well_formed(s),
    ensures
        trim(s) == s,
        lex(trim(s)) matches Ok(tokens) && ends_once(tokens),
{
    if s.len() > 0 {
        assert(in_alphabet(s.first()));
        assert(in_alphabet(s.last()));
    }
    lemma_lex_accepts(s);
    lemma_lex_ends_once(s);
}

/// What `trim` takes away is whitespace, at the two ends and nowhere else:
/// the result is the part of `s` behind the whitespace in front and before
/// the whitespace at the end, and it neither begins nor ends with whitespace.
pub proof fn lemma_trim_bounds(s: Seq<char>)
    ensures
        ({
            let from = s.len() - trim_start(s).len();
            let to = from + trim(s).len();
            &&& 0 <= from <= to <= s.len()
            &&& trim(s) == s.subrange(from, to)
            &&& forall|i: int| 0 <= i < from ==> is_whitespace(#[trigger] s[i])
            &&& forall|i: int| to <= i < s.len() ==> is_whitespace(#[trigger] s[i])
            &&& from < to ==> !is_whitespace(s[from]) && !is_whitespace(s[to - 1])
        }),
{
    lemma_trim_start_bounds(s);
    let from = s.len() - trim_start(s).len();
    let kept = trim_start(s);
    lemma_trim_end_bounds(kept);
    let to = from + trim(s).len();
    assert(trim(s) =~= s.subrange(from, to));
    assert forall|i: int| to <= i < s.len() implies is_whitespace(#[trigger] s[i]) by {
        assert(s[i] == kept[i - from]);
    }
    if from < to {
        assert(kept[0] == s[from]);
        assert(kept[to - from - 1] == s[to - 1]);
        assert(trim(s).last() == kept[to - from - 1]);
    }
}

/// What `trim_start` takes away is whitespace in front, up to the first
/// character that is none.
pub proof fn lemma_trim_start_bounds(s: Seq<char>)
    ensures
        trim_start(s).len() <= s.len(),
        trim_start(s) == s.skip(s.len() - trim_start(s).len()),
        forall|i: int| 0 <= i < s.len() - trim_start(s).len() ==> is_whitespace(#[trigger] s[i]),
        trim_start(s).len() > 0 ==> !is_whitespace(trim_start(s).first()),
    decreases s.len(),
{
    if s.len() > 0 && is_whitespace(s.first()) {
        let tail = s.drop_first();
        lemma_trim_start_bounds(tail);
        let cut = tail.len() - trim_start(tail).len();
        assert(tail.skip(cut) =~= s.skip(cut + 1));
        assert forall|i: int| 0 <= i < cut + 1 implies is_whitespace(#[trigger] s[i]) by {
            if i > 0 {
                assert(s[i] == tail[i - 1]);
            }
        }
    } else {
        assert(s =~= s.skip(0));
    }
}

/// What `trim_end` takes away is whitespace at the end, back to the last
/// character that is none.
pub proof fn lemma_trim_end_bounds(s: Seq<char>)
    ensures
        trim_end(s).len() <= s.len(),
        trim_end(s) == s.take(trim_end(s).len() as int),
        forall|i: int| trim_end(s).len() <= i < s.len() ==> is_whitespace(#[trigger] s[i]),
        trim_end(s).len() > 0 ==> !is_whitespace(trim_end(s).last()),
    decreases s.len(),
{
    if s.len() > 0 && is_whitespace(s.last()) {
        let front = s.drop_last();
        lemma_trim_end_bounds(front);
        let kept = trim_end(front).len() as int;
        assert(front.take(kept) =~= s.take(kept));
        assert forall|i: int| kept <= i < s.len() implies is_whitespace(#[trigger] s[i]) by {
            if i < s.len() - 1 {
                assert(s[i] == front[i]);
            }
        }
    } else {
        assert(s =~= s.take(s.len() as int));
    }
}

/// A text that neither begins nor ends with whitespace is trimmed already.
pub proof fn lemma_trim_of_trimmed(s: Seq<char>)
    requires
        s.len() > 0 ==> !is_whitespace(s.first()) && !is_whitespace(s.last()),
    ensures
        trim(s) == s,
{
}

} // verus!
