//! Programs as text: scanned, parsed, resolved and run.

use jasn::error_handler::Error;
use jasn::evaluation::ArithmeticOperator;
use jasn::expressions::Expr;
use jasn::interpreter::Interpreter;
use jasn::machine::{Action, Response};
use jasn::parser::Parser;
use jasn::resolver::Resolver;
use jasn::safety::{are_structured, is_simple, is_structured};
use jasn::scanner::{get_identifier_type, is_alpha, is_alpha_numeric, is_digit, Scanner};
use jasn::statements::{Block, If, Print, Stmt};
use jasn::token::{LiteralType, Token, TokenType};

fn scan(source: &str) -> (Vec<Token>, Vec<Error>) {
    let mut scanner = Scanner::new(source.to_string());
    scanner.scan_tokens();
    let mut tokens = scanner.tokens;
    for token in tokens.iter_mut() {
        if token.token_type == TokenType::Number {
            token.literal = LiteralType::Number(token.lexeme.parse::<f64>().unwrap().to_bits());
        }
    }
    (tokens, scanner.errors)
}

fn kinds(source: &str) -> Vec<TokenType> {
    let (tokens, errors) = scan(source);
    assert!(errors.is_empty(), "errors: {:?}", errors);
    tokens.iter().map(|token| token.token_type).collect()
}

fn parse(source: &str) -> Vec<Stmt> {
    let (tokens, errors) = scan(source);
    assert!(errors.is_empty(), "errors of the text: {:?}", errors);
    let mut parser = Parser::new(tokens);
    let statements = parser.parse();
    assert!(parser.errors.is_empty(), "errors of parsing: {:?}", parser.errors);
    statements
}

fn parse_errors(source: &str) -> Vec<String> {
    let (tokens, _) = scan(source);
    let mut parser = Parser::new(tokens);
    let _ = parser.parse();
    parser
        .errors
        .iter()
        .map(|error| match error {
            Error::ParseError(_, message) => message.clone(),
            other => panic!("not an error of parsing: {:?}", other),
        })
        .collect()
}

fn run(source: &str) -> (Vec<String>, Vec<String>) {
    let statements = parse(source);
    assert!(are_structured(&statements));
    let resolved = Resolver::resolve(statements).expect("the program resolves");
    let mut machine = Interpreter::new();
    assert!(machine.interpret(&resolved));
    let mut printed = Vec::new();
    let mut reported = Vec::new();
    let mut response = Response::Nothing;
    let mut steps = 0;
    loop {
        steps += 1;
        assert!(steps < 1_000_000, "the program does not end");
        let action = machine.step(response);
        response = Response::Nothing;
        match action {
            Action::Continue => {}
            Action::Print(line) => printed.push(line),
            Action::Report(error) => match error {
                Error::RuntimeError(_, message) => reported.push(message),
                other => panic!("not an error of the running program: {:?}", other),
            },
            Action::Arithmetic { operator, left, right } => {
                let (left, right) = (f64::from_bits(left), f64::from_bits(right));
                let result = match operator {
                    ArithmeticOperator::Add => left + right,
                    ArithmeticOperator::Subtract => left - right,
                    ArithmeticOperator::Multiply => left * right,
                    ArithmeticOperator::Divide => left / right,
                    ArithmeticOperator::Remainder => left % right,
                };
                response = Response::Number(result.to_bits());
            }
            Action::Format(numbers) => {
                response = Response::Texts(
                    numbers.iter().map(|bits| f64::from_bits(*bits).to_string()).collect(),
                );
            }
            Action::Native { .. } => response = Response::Native(Ok(LiteralType::Null)),
            Action::Finished => break,
        }
    }
    (printed, reported)
}

fn printed(source: &str) -> Vec<String> {
    let (printed, reported) = run(source);
    assert!(reported.is_empty(), "reported: {:?}", reported);
    printed
}

#[test]
fn punctuation_is_scanned_by_the_longest_match() {
    assert_eq!(
        kinds("( ) { } [ ] , . ; %"),
        vec![
            TokenType::LeftParen,
            TokenType::RightParen,
            TokenType::LeftBrace,
            TokenType::RightBrace,
            TokenType::LeftSquare,
            TokenType::RightSquare,
            TokenType::Comma,
            TokenType::Dot,
            TokenType::Semicolon,
            TokenType::Modulo,
            TokenType::Eof,
        ]
    );
    assert_eq!(
        kinds("! != = == < <= > >= + ++ += - -- -= * *= / /="),
        vec![
            TokenType::Bang,
            TokenType::BangEqual,
            TokenType::Equal,
            TokenType::EqualEqual,
            TokenType::Less,
            TokenType::LessEqual,
            TokenType::Greater,
            TokenType::GreaterEqual,
            TokenType::Plus,
            TokenType::PlusPlus,
            TokenType::PlusEqual,
            TokenType::Minus,
            TokenType::MinusMinus,
            TokenType::MinusEqual,
            TokenType::Star,
            TokenType::StarEqual,
            TokenType::Slash,
            TokenType::SlashEqual,
            TokenType::Eof,
        ]
    );
    assert_eq!(
        kinds("===!"),
        vec![TokenType::EqualEqual, TokenType::Equal, TokenType::Bang, TokenType::Eof]
    );
}

#[test]
fn words_are_keywords_or_identifiers() {
    assert_eq!(
        kinds("and class else false true funk for if null or print return super this var while"),
        vec![
            TokenType::And,
            TokenType::Class,
            TokenType::Else,
            TokenType::False,
            TokenType::True,
            TokenType::Funk,
            TokenType::For,
            TokenType::If,
            TokenType::Null,
            TokenType::Or,
            TokenType::Print,
            TokenType::Return,
            TokenType::Super,
            TokenType::This,
            TokenType::Var,
            TokenType::While,
            TokenType::Eof,
        ]
    );
    assert_eq!(
        kinds("andy _var x1 While"),
        vec![
            TokenType::Identifier,
            TokenType::Identifier,
            TokenType::Identifier,
            TokenType::Identifier,
            TokenType::Eof,
        ]
    );
    assert_eq!(get_identifier_type("funk"), TokenType::Funk);
    assert_eq!(get_identifier_type("fun"), TokenType::Identifier);
    assert_eq!(get_identifier_type(""), TokenType::Identifier);
}

#[test]
fn bytes_are_classified() {
    assert!(is_digit(b'0') && is_digit(b'9') && !is_digit(b'a') && !is_digit(b'/'));
    assert!(is_alpha(b'a') && is_alpha(b'Z') && is_alpha(b'_') && !is_alpha(b'1'));
    assert!(is_alpha_numeric(b'1') && is_alpha_numeric(b'q') && !is_alpha_numeric(b'-'));
}

#[test]
fn tokens_carry_their_text_their_line_and_their_literal() {
    let (tokens, errors) = scan("var a = 12.5;\nprint \"two\nlines\" // a comment\nb");
    assert!(errors.is_empty());
    let seen: Vec<(TokenType, &str, u32)> = tokens
        .iter()
        .map(|token| (token.token_type, token.lexeme.as_str(), token.line))
        .collect();
    assert_eq!(
        seen,
        vec![
            (TokenType::Var, "var", 1),
            (TokenType::Identifier, "a", 1),
            (TokenType::Equal, "=", 1),
            (TokenType::Number, "12.5", 1),
            (TokenType::Semicolon, ";", 1),
            (TokenType::Print, "print", 2),
            (TokenType::String, "\"two\nlines\"", 3),
            (TokenType::Identifier, "b", 4),
            (TokenType::Eof, "", 4),
        ]
    );
    assert!(tokens[3].literal.equals(&LiteralType::Number(12.5f64.to_bits())));
    assert!(tokens[6].literal.equals(&LiteralType::String("two\nlines".to_string())));
    assert!(tokens[0].literal.equals(&LiteralType::Null));
}

#[test]
fn a_number_has_digits_on_both_sides_of_its_point() {
    let (tokens, errors) = scan("1.5 2. .5 3.x");
    assert!(errors.is_empty());
    let seen: Vec<(TokenType, &str)> =
        tokens.iter().map(|token| (token.token_type, token.lexeme.as_str())).collect();
    assert_eq!(
        seen,
        vec![
            (TokenType::Number, "1.5"),
            (TokenType::Number, "2"),
            (TokenType::Dot, "."),
            (TokenType::Dot, "."),
            (TokenType::Number, "5"),
            (TokenType::Number, "3"),
            (TokenType::Dot, "."),
            (TokenType::Identifier, "x"),
            (TokenType::Eof, ""),
        ]
    );
}

#[test]
fn errors_of_the_text_are_noted_and_scanning_goes_on() {
    let (tokens, errors) = scan("a # b\n@ \"open");
    let seen: Vec<TokenType> = tokens.iter().map(|token| token.token_type).collect();
    assert_eq!(seen, vec![TokenType::Identifier, TokenType::Identifier, TokenType::Eof]);
    let noted: Vec<(u32, &str)> = errors
        .iter()
        .map(|error| match error {
            Error::SyntaxError(line, message) => (*line, message.as_str()),
            other => panic!("not an error of the text: {:?}", other),
        })
        .collect();
    assert_eq!(
        noted,
        vec![(1, "Unexpected character."), (2, "Unexpected character."), (2, "Unterminated string.")]
    );
}

#[test]
fn text_beyond_ascii_is_kept_in_strings() {
    let (tokens, errors) = scan("print \"héllo ☃\";");
    assert!(errors.is_empty());
    assert!(tokens[1].literal.equals(&LiteralType::String("héllo ☃".to_string())));
    let (tokens, errors) = scan("é");
    assert_eq!(tokens.len(), 1);
    assert!(!errors.is_empty());
}

#[test]
fn an_empty_text_has_the_end_only() {
    let (tokens, errors) = scan("");
    assert!(errors.is_empty());
    assert_eq!(tokens.len(), 1);
    assert_eq!(tokens[0].token_type, TokenType::Eof);
    assert_eq!(tokens[0].line, 1);
}

#[test]
fn scanning_one_token_at_a_time() {
    let mut scanner = Scanner::new("a+b".to_string());
    scanner.scan_token();
    scanner.scan_token();
    assert_eq!(scanner.tokens.len(), 2);
    assert_eq!(scanner.tokens[1].token_type, TokenType::Plus);
    scanner.error(7, "noted");
    assert!(matches!(&scanner.errors[0], Error::SyntaxError(7, message) if message == "noted"));
    scanner.report(8, "at 'x'", "odd");
    assert!(matches!(&scanner.errors[1], Error::SyntaxError(8, message) if message == "at 'x': odd"));
    scanner.report(9, "", "plain");
    assert!(matches!(&scanner.errors[2], Error::SyntaxError(9, message) if message == "plain"));
}

#[test]
fn operators_bind_by_precedence() {
    assert_eq!(printed("print 1 + 2 * 3;"), vec!["7"]);
    assert_eq!(printed("print (1 + 2) * 3;"), vec!["9"]);
    assert_eq!(printed("print 10 - 4 - 3;"), vec!["3"]);
    assert_eq!(printed("print 8 / 4 / 2;"), vec!["1"]);
    assert_eq!(printed("print -2 * 3;"), vec!["-6"]);
    assert_eq!(printed("print !true == false;"), vec!["yeah"]);
    assert_eq!(printed("print 1 < 2 == true;"), vec!["yeah"]);
    assert_eq!(printed("print 7 % 4 + 1;"), vec!["4"]);
    assert_eq!(printed("print false or true and false;"), vec!["nah"]);
    assert_eq!(printed("print 1 + 2 < 4 and 2 * 2 == 4;"), vec!["yeah"]);
}

#[test]
fn shadowing_in_a_block() {
    assert_eq!(printed("var a = 1; { var a = 2; print a; } print a;"), vec!["2", "1"]);
}

#[test]
fn a_counter_made_by_a_closure() {
    let source = "
        funk counter() {
            var i = 0
            funk count() {
                i = i + 1
                print i
            }
            return count
        }
        var next = counter()
        next()
        next()
    ";
    assert_eq!(printed(source), vec!["1", "2"]);
}

#[test]
fn a_number_and_a_string_are_joined() {
    assert_eq!(printed("print 1 + \"x\";"), vec!["1x"]);
}

#[test]
fn a_call_with_the_wrong_number_of_arguments() {
    let (printed, reported) = run("funk f(x) { print x; }\nf(1, 2);\nprint \"after\";");
    assert_eq!(printed, vec!["after"]);
    assert_eq!(reported, vec!["Expected 1 arguments but found 2."]);
}

#[test]
fn one_divided_by_zero() {
    let (printed, reported) = run("print 1 / 0;");
    assert!(printed.is_empty());
    assert_eq!(reported, vec!["Division by zero."]);
}

#[test]
fn arrays_and_indexes_in_text() {
    assert_eq!(printed("var a = [1, 2, 3]; print a[1]; print a; print [];"), vec!["2", "[1, 2, 3]", "[]"]);
    let (_, reported) = run("var a = [1]; print a[3];");
    assert_eq!(reported, vec!["Array index out of bounds."]);
    assert_eq!(printed("var a = [[1, 2], [3]]; print a[0][1];"), vec!["2"]);
    assert_eq!(printed("var a = [1]; print a[0] = 5; print a;"), vec!["5", "[1]"]);
}

#[test]
fn classes_in_text() {
    let source = "
        class Account {
            deposit(amount) {
                this.balance = this.balance + amount
                return this.balance
            }
        }
        var a = Account()
        var b = Account()
        a.balance = 10
        b.balance = 100
        print a.deposit(5)
        print b.deposit(5)
        print a.balance
    ";
    assert_eq!(printed(source), vec!["15", "105", "15"]);
}

#[test]
fn loops_in_text() {
    assert_eq!(printed("var i = 0; while (i < 3) { print i; i = i + 1; }"), vec!["0", "1", "2"]);
    assert_eq!(printed("for (var i = 0; i < 3; i = i + 1) print i;"), vec!["0", "1", "2"]);
    assert_eq!(printed("var n = 0; for (; n < 2;) n++; print n;"), vec!["2"]);
    assert_eq!(printed("var t = 1; t += 4; t *= 2; t -= 1; t /= 3; print t; t--; print t;"), vec!["3", "2"]);
}

#[test]
fn if_and_else_in_text() {
    assert_eq!(
        printed("if (1 < 2) print \"a\"; else print \"b\"; if (null) { print \"c\"; } else { print \"d\"; }"),
        vec!["a", "d"]
    );
}

#[test]
fn statements_end_at_the_end_of_the_line() {
    assert_eq!(printed("var a = 1\nprint a\nprint a + 1"), vec!["1", "2"]);
    assert_eq!(parse_errors("print 1 print 2"), vec!["Expected ';' or new line after expression."]);
}

#[test]
fn errors_of_parsing_are_kept_and_parsing_goes_on() {
    assert_eq!(
        parse_errors("var = 1; print ; print (1; 1 = 2; print 3;"),
        vec![
            "Expected variable name.",
            "Expected expression.",
            "Expect ')' after expression.",
            "Invalid assignment target.",
        ]
    );
    assert_eq!(parse_errors("{ print 1;"), vec!["Expected '}' after block."]);
    assert_eq!(parse_errors("funk (a) {}"), vec!["Expected function name."]);
    assert_eq!(parse_errors("class A { m( {} }"), vec!["Expected parameter name."]);
    assert_eq!(parse_errors("f(1, 2"), vec!["Expected ')' after arguments."]);
    assert_eq!(parse_errors("super"), vec!["Expected '.' after 'super'."]);
    assert!(parse_errors("").is_empty());
}

#[test]
fn a_declaration_is_no_branch() {
    assert_eq!(parse_errors("if (true) var a = 1;"), vec!["Expected expression."]);
    assert_eq!(parse_errors("while (true) funk f() {}"), vec!["Expected expression."]);
}

#[test]
fn what_is_parsed_is_structured() {
    let statements = parse(
        "var a = 1; funk f(p) { if (p) { var b = 2; } else print a; while (p) f(p); }
         class C { m() { var c = 3; for (var i = 0; i < 1; i = i + 1) { var d = i; } } }",
    );
    assert!(are_structured(&statements));
    for statement in &statements {
        assert!(is_structured(statement));
        assert!(!is_simple(statement));
    }
}

#[test]
fn a_declaration_as_a_branch_is_not_structured() {
    let declaration = || {
        let (tokens, _) = scan("var a = 1;");
        Parser::new(tokens).parse().remove(0)
    };
    let print = || Stmt::Print(Print { expression: Expr::Literal(jasn::expressions::Literal { value: LiteralType::Null }) });
    let condition = || Expr::Literal(jasn::expressions::Literal { value: LiteralType::Bool(false) });
    assert!(is_simple(&print()));
    assert!(!is_simple(&declaration()));
    assert!(is_structured(&declaration()));
    let branch = Stmt::If(Box::new(If { condition: condition(), then_branch: declaration(), else_branch: None }));
    assert!(is_simple(&branch));
    assert!(!is_structured(&branch));
    let otherwise = Stmt::If(Box::new(If {
        condition: condition(),
        then_branch: print(),
        else_branch: Some(declaration()),
    }));
    assert!(!is_structured(&otherwise));
    let nested = Stmt::Block(Box::new(Block { statements: vec![print(), branch] }));
    assert!(!is_structured(&nested));
    assert!(!are_structured(&vec![print(), nested]));
    assert!(are_structured(&vec![print(), declaration()]));
}

#[test]
fn static_errors_stop_a_program_before_it_runs() {
    let statements = parse("print \"never\"; { var x = x; }");
    let errors = Resolver::resolve(statements).unwrap_err();
    assert_eq!(errors.len(), 1);
    assert!(matches!(&errors[0], Error::ResolverError(token, _) if token.lexeme == "x"));
}

fn reports_of(source: &str) -> Vec<(u32, String)> {
    let resolved = Resolver::resolve(parse(source)).expect("the program resolves");
    let mut machine = Interpreter::new();
    assert!(machine.interpret(&resolved));
    let mut reported = Vec::new();
    let mut response = Response::Nothing;
    for _ in 0..100_000 {
        let action = machine.step(response);
        response = Response::Nothing;
        match action {
            Action::Report(Error::RuntimeError(line, message)) => reported.push((line, message)),
            Action::Report(other) => panic!("not an error of the running program: {:?}", other),
            Action::Arithmetic { .. } => panic!("the host is asked for arithmetic"),
            Action::Format(numbers) => {
                response = Response::Texts(
                    numbers.iter().map(|bits| f64::from_bits(*bits).to_string()).collect(),
                );
            }
            Action::Native { .. } => response = Response::Native(Ok(LiteralType::Null)),
            Action::Finished => return reported,
            _ => {}
        }
    }
    panic!("the program does not end");
}

#[test]
fn the_remainder_of_a_division_by_zero_is_an_error() {
    assert_eq!(reports_of("print 1 % 0;"), vec![(1, "Division by zero.".to_string())]);
    assert_eq!(reports_of("\nprint 0 % -0;"), vec![(2, "Division by zero.".to_string())]);
    assert_eq!(reports_of("\n\nprint 5 / 0;"), vec![(3, "Division by zero.".to_string())]);
    assert_eq!(printed("print 7 % 4; print 8 / 4;"), vec!["3", "2"]);
}

#[test]
fn an_error_of_indexing_is_on_the_line_of_the_closing_bracket() {
    assert_eq!(
        reports_of("var a = [10, 20, 30];\nprint a[-1];"),
        vec![(2, "Array index out of bounds.".to_string())]
    );
    assert_eq!(
        reports_of("var a = [10, 20, 30];\n\nprint a[\n3\n];"),
        vec![(5, "Array index out of bounds.".to_string())]
    );
    assert_eq!(
        reports_of("var a = [1];\nprint a[null];\nprint 1[0];\na[1] = 2;"),
        vec![
            (2, "Array index must be a number.".to_string()),
            (3, "Attempted to index a non-array value.".to_string()),
            (4, "Array index out of bounds.".to_string()),
        ]
    );
}
