//! The one error type of the tokenizer and the parser.

use vstd::prelude::*;

verus! {

/// The stage of the pipeline that rejected the input.
#[derive(Debug, PartialEq, Eq, Clone, Copy, Structural)]
pub enum Stage {
    Tokenizer,
    Parser,
}

impl Stage {
    /// The stage's name as the error text shows it.
    pub open spec fn name(self) -> Seq<char> {
        match self {
            Stage::Tokenizer => "Tokenizer"@,
            Stage::Parser => "Parser"@,
        }
    }
}

/// Why an input is not an expression of the notation: the stage that found
/// the fault, and a message for the reader.
#[derive(Debug, PartialEq, Eq)]
pub struct SyntaxError {
    pub message: String,
    pub stage: Stage,
}

/// A `SyntaxError` as contracts see it: the message as a sequence of characters.
pub struct SyntaxErrorView {
    pub stage: Stage,
    pub message: Seq<char>,
}

impl SyntaxErrorView {
    /// The text shown for the error: the stage, the word `Error`, the message.
    pub open spec fn text(self) -> Seq<char> {
        self.stage.name() + " Error "@ + self.message
    }
}

impl View for SyntaxError {
    type V = SyntaxErrorView;

    open spec fn view(&self) -> SyntaxErrorView {
        SyntaxErrorView { stage: self.stage, message: self.message@ }
    }
}

impl SyntaxError {
    /// An error found while the input was cut into tokens.
    pub fn tokenizer_error(message: String) -> (e: Self)
        ensures
            e.stage == Stage::Tokenizer,
            e.message == message,
    {
        SyntaxError { message, stage: Stage::Tokenizer }
    }

    /// An error found while the tokens were put together into an expression.
    pub fn parse_error(message: String) -> (e: Self)
        ensures
            e.stage == Stage::Parser,
            e.message == message,
    {
        SyntaxError { message, stage: Stage::Parser }
    }

    /// The text to show for the error.
    pub fn to_string(&self) -> (s: String)
        ensures
            s@ == self@.text(),
    {
        let mut s = match self.stage {
            Stage::Tokenizer => String::from_str("Tokenizer"),
            Stage::Parser => String::from_str("Parser"),
        };
        s.append(" Error ");
        s.append(self.message.as_str());
        s
    }
}

/// Whether a result of the library is the one that a spec function gives:
/// the same value, or an error with the same stage and message.
pub open spec fn agrees<T>(got: Result<T, SyntaxError>, want: Result<T, SyntaxErrorView>) -> bool {
    match got {
        Ok(v) => want == Ok::<T, SyntaxErrorView>(v),
        Err(e) => want == Err::<T, SyntaxErrorView>(e@),
    }
}

} // verus!
