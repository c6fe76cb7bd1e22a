use letter_calc::parser::{ArithmeticError, Expression, Operator, Parser};
use letter_calc::syntax_error::SyntaxError;
use letter_calc::token::Token;
use letter_calc::tokenizer::tokenizer;

fn number(n: u64) -> Expression {
    Expression::Number(n)
}

fn binary(operator: Operator, left: Expression, right: Expression) -> Expression {
    Expression::Binary(operator, Box::new(left), Box::new(right))
}

fn copy_of(tree: &Expression) -> Expression {
    match tree {
        Expression::Number(n) => Expression::Number(*n),
        Expression::Binary(operator, left, right) => binary(*operator, copy_of(left), copy_of(right)),
    }
}

fn parse_text(input: &str) -> Result<Expression, SyntaxError> {
    let tokens = tokenizer(input.to_string()).unwrap();
    Parser::new(&tokens).parse()
}

fn parse_error(message: &str) -> SyntaxError {
    SyntaxError::parse_error(message.to_string())
}

#[test]
fn parse_single_number() {
    assert_eq!(parse_text("7"), Ok(number(7)));
}

#[test]
fn parse_groups_from_the_left() {
    let expected = binary(
        Operator::Multiply,
        binary(Operator::Add, number(3), number(2)),
        number(4),
    );
    assert_eq!(parse_text("3a2c4"), Ok(expected));
}

#[test]
fn parse_all_operators_bind_alike() {
    let expected = binary(
        Operator::Subtract,
        binary(
            Operator::Divide,
            binary(Operator::Multiply, binary(Operator::Add, number(1), number(2)), number(3)),
            number(4),
        ),
        number(5),
    );
    assert_eq!(parse_text("1a2c3d4b5"), Ok(expected));
}

#[test]
fn parse_parentheses_group_the_right_operand() {
    let expected = binary(
        Operator::Subtract,
        binary(Operator::Add, number(3), binary(Operator::Multiply, number(4), number(66))),
        number(32),
    );
    assert_eq!(parse_text("3ae4c66fb32"), Ok(expected));
}

#[test]
fn parse_parentheses_around_everything() {
    assert_eq!(parse_text("e5f"), Ok(number(5)));
    assert_eq!(parse_text("ee5ff"), Ok(number(5)));
    assert_eq!(parse_text("e1a2f"), Ok(binary(Operator::Add, number(1), number(2))));
}

#[test]
fn parse_leaves_no_token() {
    let tokens = tokenizer("3a2c4".to_string()).unwrap();
    let mut parser = Parser::new(&tokens);
    assert!(parser.parse().is_ok());
    assert!(parser.tokens.is_empty());
}

#[test]
fn parse_only_end_is_unexpected_token() {
    let tokens = vec![Token::End];
    let mut parser = Parser::new(&tokens);
    assert_eq!(parser.parse(), Err(parse_error("Unexpected token found End")));
    assert!(parser.tokens.is_empty());
}

#[test]
fn parse_operator_in_operand_position() {
    assert_eq!(parse_text("a1"), Err(parse_error("Unexpected token found Plus")));
    assert_eq!(parse_text("1ab2"), Err(parse_error("Unexpected token found Minus")));
    assert_eq!(parse_text("c"), Err(parse_error("Unexpected token found Star")));
    assert_eq!(parse_text("1ad"), Err(parse_error("Unexpected token found Slash")));
    assert_eq!(parse_text("f"), Err(parse_error("Unexpected token found RightParen")));
    assert_eq!(parse_text("ef"), Err(parse_error("Unexpected token found RightParen")));
}

#[test]
fn parse_operator_without_right_operand() {
    assert_eq!(parse_text("1c"), Err(parse_error("Unexpected token found End")));
    assert_eq!(parse_text("1ce"), Err(parse_error("Unexpected token found End")));
}

#[test]
fn parse_unclosed_parenthesis() {
    assert_eq!(parse_text("1ce3a1"), Err(parse_error("Expected RightParen got End")));
    assert_eq!(parse_text("e1"), Err(parse_error("Expected RightParen got End")));
}

#[test]
fn parse_wrong_token_where_parenthesis_is_required() {
    let tokens = vec![Token::LeftParen, Token::Number(1), Token::Number(22), Token::End];
    assert_eq!(
        Parser::new(&tokens).parse(),
        Err(parse_error("Expected RightParen got Number(22)"))
    );
    let tokens = vec![Token::LeftParen, Token::Number(1), Token::LeftParen, Token::End];
    assert_eq!(
        Parser::new(&tokens).parse(),
        Err(parse_error("Expected RightParen got LeftParen"))
    );
}

#[test]
fn parse_rejects_tokens_behind_the_expression() {
    assert_eq!(parse_text("1f"), Err(parse_error("Expected End got RightParen")));
    assert_eq!(parse_text("e1ff"), Err(parse_error("Expected End got RightParen")));
    assert_eq!(parse_text("1e2f"), Err(parse_error("Expected End got LeftParen")));
    let tokens = vec![Token::Number(1), Token::Number(2), Token::End];
    assert_eq!(Parser::new(&tokens).parse(), Err(parse_error("Expected End got Number(2)")));
}

#[test]
fn parse_tokens_that_stop_short() {
    let tokens = vec![Token::Number(1), Token::Star, Token::LeftParen];
    assert_eq!(Parser::new(&tokens).parse(), Err(parse_error("Unexpected end of input")));
    let tokens = vec![Token::Number(1), Token::Star, Token::LeftParen, Token::Number(3)];
    assert_eq!(Parser::new(&tokens).parse(), Err(parse_error("Unexpected end of input")));
    let tokens = vec![Token::Number(1)];
    assert_eq!(Parser::new(&tokens).parse(), Err(parse_error("Unexpected end of input")));
    let tokens = vec![Token::Number(1), Token::Plus];
    assert_eq!(Parser::new(&tokens).parse(), Err(parse_error("Unexpected end of input")));
    let tokens: Vec<Token> = vec![];
    assert_eq!(Parser::new(&tokens).parse(), Err(parse_error("Unexpected end of input")));
}

#[test]
fn parse_returns_the_first_error() {
    assert_eq!(parse_text("aa"), Err(parse_error("Unexpected token found Plus")));
    assert_eq!(parse_text("e1a2a"), Err(parse_error("Unexpected token found End")));
    assert_eq!(parse_text("efe"), Err(parse_error("Unexpected token found RightParen")));
}

#[test]
fn parser_new_has_all_tokens_before_it() {
    let tokens = vec![Token::Number(1), Token::Plus, Token::End];
    let parser = Parser::new(&tokens);
    assert_eq!(parser.tokens, &tokens[..]);
    let empty: Vec<Token> = vec![];
    assert!(Parser::new(&empty).tokens.is_empty());
}

#[test]
fn parser_peek_does_not_read() {
    let tokens = vec![Token::Number(1), Token::Plus];
    let parser = Parser::new(&tokens);
    assert_eq!(parser.peek(), Some(Token::Number(1)));
    assert_eq!(parser.peek(), Some(Token::Number(1)));
    assert_eq!(parser.tokens.len(), 2);
    let empty: Vec<Token> = vec![];
    assert_eq!(Parser::new(&empty).peek(), None);
}

#[test]
fn parser_next_token_reads_one_token() {
    let tokens = vec![Token::Number(1), Token::Plus];
    let mut parser = Parser::new(&tokens);
    assert_eq!(parser.next_token(), Some(Token::Number(1)));
    assert_eq!(parser.tokens, &[Token::Plus][..]);
    assert_eq!(parser.next_token(), Some(Token::Plus));
    assert_eq!(parser.next_token(), None);
    assert_eq!(parser.next_token(), None);
    assert!(parser.tokens.is_empty());
}

#[test]
fn check_next_to_be_accepts_the_token() {
    let tokens = vec![Token::RightParen, Token::End];
    let mut parser = Parser::new(&tokens);
    assert_eq!(parser.check_next_to_be(Token::RightParen), Ok(()));
    assert_eq!(parser.tokens, &[Token::End][..]);
    assert_eq!(parser.check_next_to_be(Token::End), Ok(()));
    assert!(parser.tokens.is_empty());
}

#[test]
fn check_next_to_be_at_the_end_of_the_tokens() {
    let tokens: Vec<Token> = vec![];
    let mut parser = Parser::new(&tokens);
    assert_eq!(
        parser.check_next_to_be(Token::End),
        Err(parse_error("Unexpected end of input"))
    );
    assert!(parser.tokens.is_empty());
}

#[test]
fn check_next_to_be_reads_the_wrong_token() {
    let tokens = vec![Token::Number(7), Token::Plus];
    let mut parser = Parser::new(&tokens);
    assert_eq!(
        parser.check_next_to_be(Token::RightParen),
        Err(parse_error("Expected RightParen got Number(7)"))
    );
    assert_eq!(parser.tokens, &[Token::Plus][..]);
    assert_eq!(
        parser.check_next_to_be(Token::Number(1)),
        Err(parse_error("Expected Number(1) got Plus"))
    );
}

#[test]
fn check_next_to_be_compares_the_numbers() {
    let tokens = vec![Token::Number(7), Token::Number(7)];
    let mut parser = Parser::new(&tokens);
    assert_eq!(
        parser.check_next_to_be(Token::Number(8)),
        Err(parse_error("Expected Number(8) got Number(7)"))
    );
    assert_eq!(parser.check_next_to_be(Token::Number(7)), Ok(()));
}

#[test]
fn primary_reads_a_number() {
    let tokens = vec![Token::Number(5), Token::Plus, Token::Number(6)];
    let mut parser = Parser::new(&tokens);
    assert_eq!(parser.primary(), Ok(number(5)));
    assert_eq!(parser.tokens, &tokens[1..]);
}

#[test]
fn primary_reads_an_expression_in_parentheses() {
    let tokens = tokenizer("e1a2fc3".to_string()).unwrap();
    let mut parser = Parser::new(&tokens);
    assert_eq!(parser.primary(), Ok(binary(Operator::Add, number(1), number(2))));
    assert_eq!(parser.tokens, &[Token::Star, Token::Number(3), Token::End][..]);
}

#[test]
fn primary_reads_the_token_it_rejects() {
    let tokens = vec![Token::Star, Token::Number(3)];
    let mut parser = Parser::new(&tokens);
    assert_eq!(parser.primary(), Err(parse_error("Unexpected token found Star")));
    assert_eq!(parser.tokens, &[Token::Number(3)][..]);
}

#[test]
fn primary_at_the_end_of_the_tokens() {
    let tokens: Vec<Token> = vec![];
    let mut parser = Parser::new(&tokens);
    assert_eq!(parser.primary(), Err(parse_error("Unexpected end of input")));
}

#[test]
fn expression_stops_before_what_is_no_operator() {
    let tokens = tokenizer("1a2f3".to_string()).unwrap();
    let mut parser = Parser::new(&tokens);
    assert_eq!(parser.expression(0), Ok(binary(Operator::Add, number(1), number(2))));
    assert_eq!(parser.tokens, &[Token::RightParen, Token::Number(3), Token::End][..]);
}

#[test]
fn expression_takes_operators_up_to_their_rank() {
    let tokens = tokenizer("1a2c3".to_string()).unwrap();
    let expected = binary(
        Operator::Multiply,
        binary(Operator::Add, number(1), number(2)),
        number(3),
    );
    for precedence in 0u8..=3 {
        let mut parser = Parser::new(&tokens);
        assert_eq!(parser.expression(precedence), Ok(copy_of(&expected)));
        assert_eq!(parser.tokens, &[Token::End][..]);
    }
}

#[test]
fn expression_above_every_rank_is_one_operand() {
    let tokens = tokenizer("1a2c3".to_string()).unwrap();
    for precedence in [4u8, 5, 255] {
        let mut parser = Parser::new(&tokens);
        assert_eq!(parser.expression(precedence), Ok(number(1)));
        assert_eq!(parser.tokens, &tokens[1..]);
    }
}

#[test]
fn operator_of_each_token() {
    assert_eq!(Operator::get_operator_or_error(&Token::Plus), Ok(Operator::Add));
    assert_eq!(Operator::get_operator_or_error(&Token::Minus), Ok(Operator::Subtract));
    assert_eq!(Operator::get_operator_or_error(&Token::Star), Ok(Operator::Multiply));
    assert_eq!(Operator::get_operator_or_error(&Token::Slash), Ok(Operator::Divide));
    for token in [Token::LeftParen, Token::RightParen, Token::Number(1), Token::End] {
        assert_eq!(Operator::get_operator_or_error(&token), Err("Can match only operators"));
    }
}

#[test]
fn operators_have_one_rank() {
    for operator in [Operator::Add, Operator::Subtract, Operator::Multiply, Operator::Divide] {
        assert_eq!(operator.cmp_val(), 3);
    }
}

#[test]
fn checked_apply_computes() {
    assert_eq!(Operator::Add.checked_apply(3, 2), Ok(5));
    assert_eq!(Operator::Subtract.checked_apply(3, 2), Ok(1));
    assert_eq!(Operator::Subtract.checked_apply(3, 3), Ok(0));
    assert_eq!(Operator::Multiply.checked_apply(3, 2), Ok(6));
    assert_eq!(Operator::Divide.checked_apply(3, 2), Ok(1));
    assert_eq!(Operator::Divide.checked_apply(0, 2), Ok(0));
    assert_eq!(Operator::Add.checked_apply(u64::MAX, 0), Ok(u64::MAX));
    assert_eq!(Operator::Multiply.checked_apply(u64::MAX, 1), Ok(u64::MAX));
}

#[test]
fn checked_apply_reports_faults() {
    assert_eq!(Operator::Add.checked_apply(u64::MAX, 1), Err(ArithmeticError::Overflow));
    assert_eq!(Operator::Subtract.checked_apply(2, 3), Err(ArithmeticError::Underflow));
    assert_eq!(Operator::Multiply.checked_apply(u64::MAX, 2), Err(ArithmeticError::Overflow));
    assert_eq!(Operator::Divide.checked_apply(3, 0), Err(ArithmeticError::DivisionByZero));
    assert_eq!(Operator::Divide.checked_apply(0, 0), Err(ArithmeticError::DivisionByZero));
}

#[test]
fn eval_number_is_its_value() {
    assert_eq!(number(0).eval(), 0);
    assert_eq!(number(u64::MAX).eval(), u64::MAX);
}

#[test]
fn eval_applies_each_operator() {
    assert_eq!(binary(Operator::Add, number(30), number(12)).eval(), 42);
    assert_eq!(binary(Operator::Subtract, number(30), number(12)).eval(), 18);
    assert_eq!(binary(Operator::Multiply, number(30), number(12)).eval(), 360);
    assert_eq!(binary(Operator::Divide, number(30), number(12)).eval(), 2);
}

#[test]
fn eval_nested_tree() {
    let mut tree = binary(
        Operator::Subtract,
        binary(Operator::Add, number(3), binary(Operator::Multiply, number(4), number(66))),
        number(32),
    );
    assert_eq!(tree.eval(), 235);
}

#[test]
fn eval_twice_gives_the_same_value_and_tree() {
    let mut tree = parse_text("500a10b66c32").unwrap();
    let before = copy_of(&tree);
    let first = tree.eval();
    let second = tree.eval();
    assert_eq!(first, 14208);
    assert_eq!(first, second);
    assert_eq!(tree, before);
}

#[test]
fn checked_eval_agrees_with_eval() {
    for input in ["3a2c4", "32a2d2", "500a10b66c32", "3ae4c66fb32", "3c4d2aee2a4c41fc4f"] {
        let mut tree = parse_text(input).unwrap();
        let checked = tree.checked_eval();
        assert_eq!(checked, Ok(tree.eval()));
    }
}

#[test]
fn checked_eval_reports_faults() {
    assert_eq!(
        binary(Operator::Divide, number(1), number(0)).checked_eval(),
        Err(ArithmeticError::DivisionByZero)
    );
    assert_eq!(
        binary(Operator::Subtract, number(1), number(2)).checked_eval(),
        Err(ArithmeticError::Underflow)
    );
    assert_eq!(
        binary(Operator::Add, number(u64::MAX), number(1)).checked_eval(),
        Err(ArithmeticError::Overflow)
    );
    assert_eq!(
        binary(Operator::Multiply, number(1 << 32), number(1 << 32)).checked_eval(),
        Err(ArithmeticError::Overflow)
    );
}

#[test]
fn checked_eval_reports_the_fault_of_the_left_operand_first() {
    let underflow = || binary(Operator::Subtract, number(1), number(2));
    let by_zero = || binary(Operator::Divide, number(1), number(0));
    assert_eq!(
        binary(Operator::Add, underflow(), by_zero()).checked_eval(),
        Err(ArithmeticError::Underflow)
    );
    assert_eq!(
        binary(Operator::Add, by_zero(), underflow()).checked_eval(),
        Err(ArithmeticError::DivisionByZero)
    );
    assert_eq!(
        binary(Operator::Divide, number(1), binary(Operator::Subtract, number(2), number(2)))
            .checked_eval(),
        Err(ArithmeticError::DivisionByZero)
    );
}
