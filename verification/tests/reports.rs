//! Operators on values, and the record and the reports of errors.

use jasn::error_handler::{compose_plain_report, compose_report, Error, ErrorHandler};
use jasn::evaluation::{
    assign_index_value, binary_operation, decimal, index_value, unary_operation,
    ArithmeticOperator, BinaryStep,
};
use jasn::token::{LiteralType, Token, TokenType};

fn operator(token_type: TokenType, lexeme: &str) -> Token {
    Token::new(token_type, lexeme.to_string(), LiteralType::Null, 12)
}

fn number(value: f64) -> LiteralType {
    LiteralType::Number(value.to_bits())
}

fn text(value: &str) -> LiteralType {
    LiteralType::String(value.to_string())
}

fn failure(step: BinaryStep) -> (u32, String) {
    match step {
        BinaryStep::Failure(Error::RuntimeError(line, message)) => (line, message),
        other => panic!("not a failure: {:?}", other),
    }
}

#[test]
fn the_host_is_asked_for_arithmetic() {
    let cases = vec![
        (TokenType::Plus, ArithmeticOperator::Add),
        (TokenType::PlusEqual, ArithmeticOperator::Add),
        (TokenType::PlusPlus, ArithmeticOperator::Add),
        (TokenType::Minus, ArithmeticOperator::Subtract),
        (TokenType::MinusEqual, ArithmeticOperator::Subtract),
        (TokenType::MinusMinus, ArithmeticOperator::Subtract),
        (TokenType::Star, ArithmeticOperator::Multiply),
        (TokenType::StarEqual, ArithmeticOperator::Multiply),
        (TokenType::Slash, ArithmeticOperator::Divide),
        (TokenType::SlashEqual, ArithmeticOperator::Divide),
        (TokenType::Modulo, ArithmeticOperator::Remainder),
    ];
    for (token_type, expected) in cases {
        match binary_operation(&operator(token_type, "?"), number(6.0), number(3.0)) {
            BinaryStep::Arithmetic { operator, left, right } => {
                assert_eq!(operator, expected);
                assert_eq!(f64::from_bits(left), 6.0);
                assert_eq!(f64::from_bits(right), 3.0);
            }
            other => panic!("unexpected step: {:?}", other),
        }
    }
}

#[test]
fn arithmetic_takes_numbers_only() {
    for token_type in [TokenType::Minus, TokenType::Star, TokenType::Slash, TokenType::Modulo] {
        let step = binary_operation(&operator(token_type, "?"), number(6.0), text("3"));
        assert_eq!(failure(step), (12, "Cannot convert to decimal".to_string()));
        let step = binary_operation(&operator(token_type, "?"), LiteralType::Null, number(3.0));
        assert_eq!(failure(step), (12, "Cannot convert to decimal".to_string()));
    }
}

#[test]
fn division_by_zero_fails_before_the_host_is_asked() {
    for zero in [0.0, -0.0] {
        for token_type in [TokenType::Slash, TokenType::SlashEqual, TokenType::Modulo] {
            let step = binary_operation(&operator(token_type, "/"), number(1.0), number(zero));
            assert_eq!(failure(step), (12, "Division by zero.".to_string()));
            let step = binary_operation(&operator(token_type, "/"), number(0.0), number(zero));
            assert_eq!(failure(step), (12, "Division by zero.".to_string()));
        }
    }
    // With any other divisor the host is asked.
    let step = binary_operation(&operator(TokenType::Modulo, "%"), number(7.0), number(4.0));
    assert!(matches!(
        step,
        BinaryStep::Arithmetic { operator: ArithmeticOperator::Remainder, .. }
    ));
    let step = binary_operation(&operator(TokenType::Slash, "/"), number(7.0), number(4.0));
    assert!(matches!(step, BinaryStep::Arithmetic { operator: ArithmeticOperator::Divide, .. }));
    // A divisor that is no number fails as such, also where the other operand is zero.
    let step = binary_operation(&operator(TokenType::Modulo, "%"), number(0.0), text("0"));
    assert_eq!(failure(step), (12, "Cannot convert to decimal".to_string()));
}

#[test]
fn a_string_on_either_side_concatenates() {
    match binary_operation(&operator(TokenType::Plus, "+"), text("a"), number(1.0)) {
        BinaryStep::Concatenate { text, other, text_first } => {
            assert_eq!(text, "a");
            assert!(other.equals(&number(1.0)));
            assert!(text_first);
        }
        other => panic!("unexpected step: {:?}", other),
    }
    match binary_operation(&operator(TokenType::Plus, "+"), LiteralType::Null, text("b")) {
        BinaryStep::Concatenate { text, other, text_first } => {
            assert_eq!(text, "b");
            assert!(other.equals(&LiteralType::Null));
            assert!(!text_first);
        }
        other => panic!("unexpected step: {:?}", other),
    }
    match binary_operation(&operator(TokenType::Plus, "+"), text("a"), text("b")) {
        BinaryStep::Concatenate { text, other, text_first } => {
            assert_eq!(text, "a");
            assert!(other.equals(&LiteralType::String("b".to_string())));
            assert!(text_first);
        }
        other => panic!("unexpected step: {:?}", other),
    }
}

#[test]
fn comparisons_give_booleans() {
    let check = |token_type, left: f64, right: f64, expected: bool| match binary_operation(
        &operator(token_type, "?"),
        number(left),
        number(right),
    ) {
        BinaryStep::Value(LiteralType::Bool(found)) => assert_eq!(found, expected),
        other => panic!("unexpected step: {:?}", other),
    };
    check(TokenType::Less, 1.0, 2.0, true);
    check(TokenType::Less, 2.0, 2.0, false);
    check(TokenType::LessEqual, 2.0, 2.0, true);
    check(TokenType::Greater, 3.0, 2.0, true);
    check(TokenType::Greater, -3.0, 2.0, false);
    check(TokenType::GreaterEqual, 2.0, 2.0, true);
    check(TokenType::GreaterEqual, 1.0, 2.0, false);
    check(TokenType::Less, f64::NAN, 2.0, false);
    check(TokenType::GreaterEqual, f64::NAN, f64::NAN, false);
    check(TokenType::EqualEqual, 0.0, -0.0, true);
    check(TokenType::BangEqual, f64::NAN, f64::NAN, true);
}

#[test]
fn unary_operators_on_values() {
    match unary_operation(&operator(TokenType::Minus, "-"), number(2.0)) {
        Ok(LiteralType::Number(bits)) => assert_eq!(f64::from_bits(bits), -2.0),
        other => panic!("unexpected result: {:?}", other),
    }
    assert!(matches!(
        unary_operation(&operator(TokenType::Bang, "!"), text("")),
        Ok(LiteralType::Bool(false))
    ));
    match unary_operation(&operator(TokenType::Plus, "+"), number(2.0)) {
        Err(Error::RuntimeError(line, message)) => {
            assert_eq!((line, message.as_str()), (12, "Invalid unary operator."))
        }
        other => panic!("unexpected result: {:?}", other),
    }
}

#[test]
fn indexing_values() {
    let items = LiteralType::Array(vec![number(10.0), number(20.0)]);
    assert!(index_value(7, &items, &number(1.0)).unwrap().equals(&number(20.0)));
    assert!(index_value(7, &items, &number(1.99)).unwrap().equals(&number(20.0)));
    assert!(index_value(7, &items, &number(-0.5)).unwrap().equals(&number(10.0)));
    let failed = |result: Result<LiteralType, Error>| match result {
        Err(Error::RuntimeError(line, message)) => (line, message),
        other => panic!("unexpected result: {:?}", other),
    };
    let out_of_bounds = (7, "Array index out of bounds.".to_string());
    assert_eq!(failed(index_value(7, &items, &number(2.0))), out_of_bounds);
    assert_eq!(failed(index_value(7, &items, &number(-1.0))), out_of_bounds);
    assert_eq!(failed(index_value(7, &items, &number(f64::NAN))), out_of_bounds);
    assert_eq!(
        failed(index_value(7, &items, &LiteralType::Null)),
        (7, "Array index must be a number.".to_string())
    );
    assert_eq!(
        failed(index_value(9, &text("ab"), &number(0.0))),
        (9, "Attempted to index a non-array value.".to_string())
    );
    assert!(assign_index_value(7, &items, &number(0.0), text("v")).unwrap().equals(&text("v")));
    assert_eq!(failed(assign_index_value(7, &items, &number(2.0), text("v"))), out_of_bounds);
    assert_eq!(failed(assign_index_value(3, &items, &number(-1.0), text("v"))).0, 3);
}

#[test]
fn numbers_in_decimal_notation() {
    assert_eq!(decimal(0), "0");
    assert_eq!(decimal(7), "7");
    assert_eq!(decimal(10), "10");
    assert_eq!(decimal(4096), "4096");
    assert_eq!(decimal(1234567890), "1234567890");
    assert_eq!(decimal(usize::MAX), usize::MAX.to_string());
}

#[test]
fn the_record_notes_the_kind_of_error() {
    let handler = ErrorHandler::new();
    assert!(!handler.had_error && !handler.had_runtime_error);
    let token = || Token::new(TokenType::Identifier, "x".to_string(), LiteralType::Null, 2);
    let mut handler = ErrorHandler::new();
    handler.record(&Error::RuntimeError(1, "m".to_string()));
    assert!(!handler.had_error && handler.had_runtime_error);
    for error in [
        Error::SyntaxError(1, "m".to_string()),
        Error::ParseError(token(), "m".to_string()),
        Error::ResolverError(token(), "m".to_string()),
        Error::Unknown,
    ] {
        let mut handler = ErrorHandler::new();
        handler.record(&error);
        assert!(handler.had_error && !handler.had_runtime_error);
    }
    handler.reset();
    assert!(!handler.had_error && !handler.had_runtime_error);
}

#[test]
fn a_report_names_the_line_the_kind_and_the_message() {
    assert_eq!(
        compose_report(14, "Runtime Error:", "Division by zero.", "banner"),
        "[line 14] Runtime Error: Division by zero.\nbanner"
    );
    assert_eq!(compose_plain_report("message", "banner"), "message\nbanner");
}

#[test]
fn reporting_notes_the_error_and_writes_the_report() {
    let mut handler = ErrorHandler::new();
    let report = handler.report_error(Error::RuntimeError(14, "Division by zero.".to_string()));
    assert!(handler.had_runtime_error && !handler.had_error);
    assert!(report.starts_with("[line 14] "));
    assert!(report.contains("Runtime Error:"));
    assert!(report.contains("Division by zero."));
    assert_eq!(report.lines().count(), 2);
    let end = Token::new(TokenType::Eof, String::new(), LiteralType::Null, 5);
    let report = handler.report_error(Error::ParseError(end, "Expected expression.".to_string()));
    assert!(handler.had_error);
    assert!(report.starts_with("[line 4] "));
    assert!(report.contains("Parse Error:"));
    let report = handler.report_error(Error::Unknown);
    assert!(report.contains("An unknown error occurred. Sorry :("));
    let token = Token::new(TokenType::Identifier, "x".to_string(), LiteralType::Null, 8);
    let report = handler.report_error(Error::ResolverError(token, "twice".to_string()));
    assert!(report.starts_with("[line 8] "));
    assert!(report.contains("Resolver Error:"));
    let report = handler.report_error(Error::SyntaxError(3, "Unexpected character.".to_string()));
    assert!(report.starts_with("[line 3] "));
    assert!(report.contains("Syntax Error:"));
    assert!(report.contains("Unexpected character."));
}
