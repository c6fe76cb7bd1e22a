use letter_calc::parser::{ArithmeticError, Parser};
use letter_calc::syntax_error::{Stage, SyntaxError};
use letter_calc::token::Token;
use letter_calc::tokenizer::tokenizer;
use letter_calc::{run, run_checked};

#[test]
fn assert_parsing_success() {
    let actual = run("3a2c4".to_string()).unwrap();
    assert_eq!(actual, 20);

    let actual = run("32a2d2".to_string()).unwrap();
    assert_eq!(actual, 17);

    let actual = run("500a10b66c32".to_string()).unwrap();
    assert_eq!(actual, 14208);

    let actual = run("3ae4c66fb32".to_string()).unwrap();
    assert_eq!(actual, 235);

    let actual = run("3c4d2aee2a4c41fc4f".to_string()).unwrap();
    assert_eq!(actual, 990);
}

#[test]
fn assert_parse_error() {
    let tokens = vec![Token::End];
    let mut parser = Parser::new(&tokens);

    let actual = parser.parse().err();
    let expected = Some(SyntaxError::parse_error(
        "Unexpected token found End".to_string(),
    ));

    assert_eq!(actual, expected);
}

#[test]
fn assert_tokenizer_error() {
    let actual = tokenizer("k22".to_string()).err();
    let expected = Some(SyntaxError::tokenizer_error(
        "Unrecognized character: k".to_string(),
    ));
    assert_eq!(actual, expected);
}

#[test]
fn run_groups_from_the_left() {
    assert_eq!(run("3a2c4".to_string()), Ok(20));
    assert_eq!(run("2c4a3".to_string()), Ok(11));
    assert_eq!(run("100b10b5".to_string()), Ok(85));
    assert_eq!(run("100d10d5".to_string()), Ok(2));
}

#[test]
fn run_parentheses_change_the_grouping() {
    assert_eq!(run("3ae2c4f".to_string()), Ok(11));
    assert_eq!(run("100bE".to_lowercase().replace('e', "e10b5f")), Ok(95));
    assert_eq!(run("eee7fff".to_string()), Ok(7));
}

#[test]
fn run_division_drops_the_remainder() {
    assert_eq!(run("7d2".to_string()), Ok(3));
    assert_eq!(run("1d2".to_string()), Ok(0));
}

#[test]
fn run_single_number() {
    assert_eq!(run("42".to_string()), Ok(42));
    assert_eq!(run("0".to_string()), Ok(0));
    assert_eq!(run("18446744073709551615".to_string()), Ok(u64::MAX));
}

#[test]
fn run_trims_whitespace_around_the_input() {
    assert_eq!(run("  3a2c4\n".to_string()), Ok(20));
    assert_eq!(run("\t\u{3000}1a1\u{a0}".to_string()), Ok(2));
}

#[test]
fn run_gives_the_same_result_each_time() {
    let first = run("3ae4c66fb32".to_string());
    let second = run("3ae4c66fb32".to_string());
    assert_eq!(first, Ok(235));
    assert_eq!(first, second);
}

#[test]
fn run_returns_the_tokenizer_error() {
    let error = run("3a2x".to_string()).unwrap_err();
    assert_eq!(error.stage, Stage::Tokenizer);
    assert_eq!(error.message, "Unrecognized character: x");
}

#[test]
fn run_returns_the_parser_error() {
    let error = run("3a".to_string()).unwrap_err();
    assert_eq!(error.stage, Stage::Parser);
    assert_eq!(error.message, "Unexpected token found End");
    let error = run("".to_string()).unwrap_err();
    assert_eq!(error, SyntaxError::parse_error("Unexpected token found End".to_string()));
}

#[test]
fn run_tokenizer_error_comes_before_parser_error() {
    let error = run("aa3k".to_string()).unwrap_err();
    assert_eq!(error, SyntaxError::tokenizer_error("Unrecognized character: k".to_string()));
}

#[test]
fn run_checked_gives_values() {
    assert_eq!(run_checked("3a2c4".to_string()), Ok(Ok(20)));
    assert_eq!(run_checked("32a2d2".to_string()), Ok(Ok(17)));
    assert_eq!(run_checked("500a10b66c32".to_string()), Ok(Ok(14208)));
    assert_eq!(run_checked("3ae4c66fb32".to_string()), Ok(Ok(235)));
}

#[test]
fn run_checked_reports_division_by_zero() {
    assert_eq!(run_checked("1d0".to_string()), Ok(Err(ArithmeticError::DivisionByZero)));
    assert_eq!(run_checked("5de3b3f".to_string()), Ok(Err(ArithmeticError::DivisionByZero)));
}

#[test]
fn run_checked_reports_underflow() {
    assert_eq!(run_checked("1b2".to_string()), Ok(Err(ArithmeticError::Underflow)));
    assert_eq!(run_checked("0b1a5".to_string()), Ok(Err(ArithmeticError::Underflow)));
}

#[test]
fn run_checked_reports_overflow() {
    assert_eq!(
        run_checked("18446744073709551615a1".to_string()),
        Ok(Err(ArithmeticError::Overflow))
    );
    assert_eq!(
        run_checked("4294967296c4294967296".to_string()),
        Ok(Err(ArithmeticError::Overflow))
    );
    assert_eq!(run_checked("4294967295c4294967297".to_string()), Ok(Ok(u64::MAX)));
}

#[test]
fn run_checked_reports_the_first_fault() {
    assert_eq!(run_checked("e1b2fde1d0f".to_string()), Ok(Err(ArithmeticError::Underflow)));
    assert_eq!(run_checked("e1d0fde1b2f".to_string()), Ok(Err(ArithmeticError::DivisionByZero)));
}

#[test]
fn run_checked_returns_syntax_errors() {
    assert_eq!(
        run_checked("k22".to_string()),
        Err(SyntaxError::tokenizer_error("Unrecognized character: k".to_string()))
    );
    assert_eq!(
        run_checked("1d".to_string()),
        Err(SyntaxError::parse_error("Unexpected token found End".to_string()))
    );
}

#[test]
fn syntax_error_constructors_set_the_stage() {
    let error = SyntaxError::tokenizer_error("m".to_string());
    assert_eq!(error.stage, Stage::Tokenizer);
    assert_eq!(error.message, "m");
    let error = SyntaxError::parse_error("n".to_string());
    assert_eq!(error.stage, Stage::Parser);
    assert_eq!(error.message, "n");
    assert_ne!(
        SyntaxError::tokenizer_error("m".to_string()),
        SyntaxError::parse_error("m".to_string())
    );
}

#[test]
fn syntax_error_text_names_stage_and_message() {
    let error = SyntaxError::tokenizer_error("Unrecognized character: k".to_string());
    assert_eq!(error.to_string(), "Tokenizer Error Unrecognized character: k");
    let error = SyntaxError::parse_error("Unexpected token found End".to_string());
    assert_eq!(error.to_string(), "Parser Error Unexpected token found End");
    let error = SyntaxError::parse_error(String::new());
    assert_eq!(error.to_string(), "Parser Error ");
}
