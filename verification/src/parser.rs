//! From tokens to a tree, and from a tree to its value.

use crate::grammar;
use crate::syntax_error::{agrees, SyntaxError};
use crate::token::Token;
use vstd::prelude::*;
use vstd::slice::slice_subrange;

verus! {

/// The four binary operators.
#[derive(Debug, PartialEq, Eq, Clone, Copy, Structural)]
pub enum Operator {
    Add,
    Subtract,
    Multiply,
    Divide,
}

/// Why an expression has no value in unsigned 64-bit arithmetic.
#[derive(Debug, PartialEq, Eq, Clone, Copy, Structural)]
pub enum ArithmeticError {
    /// A sum or a product is larger than `u64::MAX`.
    Overflow,
    /// A difference is below zero.
    Underflow,
    /// A divisor is zero.
    DivisionByZero,
}

impl Operator {
    /// The operator that a token stands for; only the four binary tokens
    /// stand for one.
    pub open spec fn of_token(token: Token) -> Option<Operator> {
        match token {
            Token::Plus => Some(Operator::Add),
            Token::Minus => Some(Operator::Subtract),
            Token::Star => Some(Operator::Multiply),
            Token::Slash => Some(Operator::Divide),
            _ => None,
        }
    }

    /// The token that stands for the operator.
    pub open spec fn token(self) -> Token {
        match self {
            Operator::Add => Token::Plus,
            Operator::Subtract => Token::Minus,
            Operator::Multiply => Token::Star,
            Operator::Divide => Token::Slash,
        }
    }

    /// How tightly the operator binds. All four bind alike, so a chain of
    /// operators groups from the left and only parentheses group otherwise.
    pub open spec fn rank(self) -> u8 {
        match self {
            Operator::Add => 3,
            Operator::Subtract => 3,
            Operator::Multiply => 3,
            Operator::Divide => 3,
        }
    }

    /// The operator applied to two operands in unsigned 64-bit arithmetic;
    /// division drops the remainder.
    pub open spec fn apply(self, left: u64, right: u64) -> Result<u64, ArithmeticError> {
        match self {
            Operator::Add => if left + right > u64::MAX {
                Err(ArithmeticError::Overflow)
            } else {
                Ok((left + right) as u64)
            },
            Operator::Subtract => if left < right {
                Err(ArithmeticError::Underflow)
            } else {
                Ok((left - right) as u64)
            },
            Operator::Multiply => if left * right > u64::MAX {
                Err(ArithmeticError::Overflow)
            } else {
                Ok((left * right) as u64)
            },
            Operator::Divide => if right == 0 {
                Err(ArithmeticError::DivisionByZero)
            } else {
                Ok((left / right) as u64)
            },
        }
    }

    /// The operator that `token` stands for, or an error for a token that is
    /// no binary operator.
    pub fn get_operator_or_error(token: &Token) -> (result: Result<Operator, &'static str>)
        ensures
            match result {
                Ok(operator) => Operator::of_token(*token) == Some(operator),
                Err(message) => Operator::of_token(*token) is None && message@
                    == "Can match only operators"@,
            },
    {
        match token {
            Token::Plus => Ok(Operator::Add),
            Token::Minus => Ok(Operator::Subtract),
            Token::Star => Ok(Operator::Multiply),
            Token::Slash => Ok(Operator::Divide),
            _ => Err("Can match only operators"),
        }
    }

    /// The operator's rank.
    pub fn cmp_val(&self) -> (rank: u8)
        ensures
            rank == self.rank(),
    {
        match self {
            Operator::Add => 3,
            Operator::Subtract => 3,
            Operator::Multiply => 3,
            Operator::Divide => 3,
        }
    }

    /// Applies the operator, or says which fault keeps it from having a result.
    pub fn checked_apply(&self, left: u64, right: u64) -> (result: Result<u64, ArithmeticError>)
        ensures
            result == self.apply(left, right),
    {
        match self {
            Operator::Add => match left.checked_add(right) {
                Some(sum) => Ok(sum),
                None => Err(ArithmeticError::Overflow),
            },
            Operator::Subtract => match left.checked_sub(right) {
                Some(difference) => Ok(difference),
                None => Err(ArithmeticError::Underflow),
            },
            Operator::Multiply => match left.checked_mul(right) {
                Some(product) => Ok(product),
                None => Err(ArithmeticError::Overflow),
            },
            Operator::Divide => if right == 0 {
                Err(ArithmeticError::DivisionByZero)
            } else {
                Ok(left / right)
            },
        }
    }
}

/// An expression as a tree: a number, or an operator with its two operands.
#[derive(Debug, PartialEq, Eq)]
pub enum Expression {
    Binary(Operator, Box<Expression>, Box<Expression>),
    Number(u64),
}

impl Expression {
    /// The value of the tree, or the first arithmetic fault met when the left
    /// operand is evaluated before the right one.
    pub open spec fn value(self) -> Result<u64, ArithmeticError>
        decreases self,
    {
        match self {
            Expression::Number(n) => Ok(n),
            Expression::Binary(operator, left, right) => match left.value() {
                Err(fault) => Err(fault),
                Ok(a) => match right.value() {
                    Err(fault) => Err(fault),
                    Ok(b) => operator.apply(a, b),
                },
            },
        }
    }

    /// The value of a tree that has one: a tree in which no sum or product
    /// is above `u64::MAX`, no difference below zero and no divisor zero.
    ///
    /// The result depends on the tree alone, and the tree is left as it was:
    /// evaluating it again gives the same value.
    pub fn eval(&mut self) -> (value: u64)
        requires
            old(self).value() is Ok,
        ensures
            old(self).value() == Ok::<u64, ArithmeticError>(value),
            *final(self) == *old(self),
            final(self).value() == Ok::<u64, ArithmeticError>(value),
        decreases *old(self),
    {
        match self {
            Expression::Number(n) => *n,
            Expression::Binary(operator, left, right) => {
                let a = left.eval();
                let b = right.eval();
                match operator {
                    Operator::Add => a + b,
                    Operator::Subtract => a - b,
                    Operator::Multiply => a * b,
                    Operator::Divide => a / b,
                }
            },
        }
    }

    /// The value of the tree, or the arithmetic fault that keeps it from
    /// having one.
    pub fn checked_eval(&self) -> (result: Result<u64, ArithmeticError>)
        ensures
            result == self.value(),
        decreases *self,
    {
        match self {
            Expression::Number(n) => Ok(*n),
            Expression::Binary(operator, left, right) => {
                let a = match left.checked_eval() {
                    Ok(a) => a,
                    Err(fault) => return Err(fault),
                };
                let b = match right.checked_eval() {
                    Ok(b) => b,
                    Err(fault) => return Err(fault),
                };
                operator.checked_apply(a, b)
            },
        }
    }
}

/// A reader of tokens: it holds the tokens that have not been read yet.
pub struct Parser<'a> {
    pub tokens: &'a [Token],
}

impl<'a> View for Parser<'a> {
    type V = Seq<Token>;

    /// The tokens that have not been read yet.
    open spec fn view(&self) -> Seq<Token> {
        self.tokens@
    }
}

impl<'a> Parser<'a> {
    /// A parser that has all of `tokens` before it.
    pub fn new(tokens: &'a [Token]) -> (parser: Self)
        ensures
            parser@ == tokens@,
    {
        Parser { tokens }
    }

    /// The next token, which stays unread; `None` at the end of the tokens.
    pub fn peek(&self) -> (token: Option<Token>)
        ensures
            token == grammar::next(self@).0,
    {
        if self.tokens.len() > 0 {
            Some(self.tokens[0])
        } else {
            None
        }
    }

    /// Reads the next token; `None` at the end of the tokens.
    pub fn next_token(&mut self) -> (token: Option<Token>)
        ensures
            token == grammar::next(old(self)@).0,
            final(self)@ == grammar::next(old(self)@).1,
    {
        let n: usize = self.tokens.len();
        if n > 0 {
            let token = self.tokens[0];
            self.tokens = slice_subrange(self.tokens, 1, n);
            assert(self@ =~= old(self)@.drop_first());
            Some(token)
        } else {
            None
        }
    }

    /// Reads one token, which has to be `token`.
    ///
    /// Fails with `Unexpected end of input` where no token is left, and with
    /// `Expected .. got ..` where the token read is another one.
    pub fn check_next_to_be(&mut self, token: Token) -> (result: Result<(), SyntaxError>)
        ensures
            agrees(result, grammar::expect(old(self)@, token).0),
            final(self)@ == grammar::expect(old(self)@, token).1,
    {
        match self.next_token() {
            None => Err(
                SyntaxError::parse_error(String::from_str("Unexpected end of input")),
            ),
            Some(next) => {
                if next == token {
                    Ok(())
                } else {
                    let mut message = String::from_str("Expected ");
                    token.push_name(&mut message);
                    message.append(" got ");
                    next.push_name(&mut message);
                    Err(SyntaxError::parse_error(message))
                }
            },
        }
    }

    /// Reads a number, or an expression in parentheses.
    ///
    /// Fails with `Unexpected end of input` where no token is left, with
    /// `Unexpected token found ..` where the token read begins neither, and
    /// with the error of the expression or of the closing parenthesis.
    pub fn primary(&mut self) -> (result: Result<Expression, SyntaxError>)
        ensures
            agrees(result, grammar::primary(old(self)@).0),
            final(self)@ == grammar::primary(old(self)@).1,
        decreases old(self)@.len(), 0nat,
    {
        match self.next_token() {
            None => Err(
                SyntaxError::parse_error(String::from_str("Unexpected end of input")),
            ),
            Some(Token::LeftParen) => {
                let inner = match self.expression(0) {
                    Ok(inner) => inner,
                    Err(e) => return Err(e),
                };
                match self.check_next_to_be(Token::RightParen) {
                    Ok(_) => Ok(inner),
                    Err(e) => Err(e),
                }
            },
            Some(Token::Number(n)) => Ok(Expression::Number(n)),
            Some(token) => {
                let mut message = String::from_str("Unexpected token found ");
                token.push_name(&mut message);
                Err(SyntaxError::parse_error(message))
            },
        }
    }

    /// Reads an operand and the operators behind it whose rank is
    /// `precedence` or above, each with its right operand, and groups them
    /// from the left.
    pub fn expression(&mut self, precedence: u8) -> (result: Result<Expression, SyntaxError>)
        ensures
            agrees(result, grammar::expression(old(self)@, precedence).0),
            final(self)@ == grammar::expression(old(self)@, precedence).1,
        decreases old(self)@.len(), 2nat,
    {
        proof {
            grammar::lemma_expression_unfold(self@, precedence);
            grammar::lemma_primary_consumes(self@);
        }
        let mut expr = match self.primary() {
            Ok(operand) => operand,
            Err(e) => return Err(e),
        };
        loop
            invariant
                self@.len() < old(self)@.len(),
                grammar::expression(old(self)@, precedence) == grammar::chain(
                    expr,
                    self@,
                    precedence,
                ),
            ensures
                grammar::expression(old(self)@, precedence) == (
                    Ok::<Expression, crate::syntax_error::SyntaxErrorView>(expr),
                    self@,
                ),
            decreases self@.len(),
        {
            proof {
                grammar::lemma_chain_unfold(expr, self@, precedence);
            }
            let token = match self.peek() {
                Some(token) => token,
                None => break ,
            };
            if !token.is_binary() {
                break ;
            }
            let operator = Operator::get_operator_or_error(&token).unwrap();
            if operator.cmp_val() < precedence {
                break ;
            }
            self.next_token();
            let inner_precedence: u8 = operator.cmp_val() + 1;
            proof {
                grammar::lemma_expression_consumes(self@, inner_precedence);
            }
            let right = match self.expression(inner_precedence) {
                Ok(right) => right,
                Err(e) => return Err(e),
            };
            expr = Expression::Binary(operator, Box::new(expr), Box::new(right));
        }
        Ok(expr)
    }

    /// Reads a whole expression, which has to end with `End`.
    pub fn parse(&mut self) -> (result: Result<Expression, SyntaxError>)
        ensures
            agrees(result, grammar::parse(old(self)@).0),
            final(self)@ == grammar::parse(old(self)@).1,
    {
        let tree = match self.expression(0) {
            Ok(tree) => tree,
            Err(e) => return Err(e),
        };
        match self.check_next_to_be(Token::End) {
            Ok(_) => Ok(tree),
            Err(e) => Err(e),
        }
    }
}

} // verus!
