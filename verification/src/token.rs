//! The lexical units of the notation.

use crate::text::{decimal, push_decimal};
use vstd::prelude::*;

verus! {

/// A lexical unit. A token sequence that stands for a whole input ends with `End`.
#[derive(Debug, PartialEq, Eq, Clone, Copy, Structural)]
pub enum Token {
    Plus,
    Minus,
    Star,
    Slash,
    LeftParen,
    RightParen,
    Number(u64),
    End,
}

impl Token {
    /// The four operators that stand between two operands.
    pub open spec fn spec_is_binary(&self) -> bool {
        *self is Plus || *self is Minus || *self is Star || *self is Slash
    }

    /// Whether the token is a binary operator, as opposed to an operand, a
    /// parenthesis or the end marker.
    #[verifier::when_used_as_spec(spec_is_binary)]
    pub fn is_binary(&self) -> (b: bool)
        ensures
            b == self.spec_is_binary(),
    {
        matches!(self, Token::Plus | Token::Minus | Token::Star | Token::Slash)
    }

    /// The token as error messages show it: the variant's name, and for a
    /// number its value in parentheses behind it.
    pub open spec fn name(self) -> Seq<char> {
        match self {
            Token::Plus => "Plus"@,
            Token::Minus => "Minus"@,
            Token::Star => "Star"@,
            Token::Slash => "Slash"@,
            Token::LeftParen => "LeftParen"@,
            Token::RightParen => "RightParen"@,
            Token::Number(n) => "Number("@ + decimal(n as nat) + ")"@,
            Token::End => "End"@,
        }
    }

    /// Appends the token's name to `out`.
    pub fn push_name(&self, out: &mut String)
        ensures
            final(out)@ == old(out)@ + self.name(),
    {
        match self {
            Token::Plus => out.append("Plus"),
            Token::Minus => out.append("Minus"),
            Token::Star => out.append("Star"),
            Token::Slash => out.append("Slash"),
            Token::LeftParen => out.append("LeftParen"),
            Token::RightParen => out.append("RightParen"),
            Token::Number(n) => {
                out.append("Number(");
                push_decimal(out, *n);
                out.append(")");
            },
            Token::End => out.append("End"),
        }
    }
}

} // verus!
