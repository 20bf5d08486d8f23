//! The trees that the parser builds from the tokens of a text.

use jasn::expressions::Expr;
use jasn::parser::Parser;
use jasn::scanner::Scanner;
use jasn::statements::Stmt;
use jasn::token::{LiteralType, TokenType};

fn tree_of(source: &str) -> Vec<Stmt> {
    let mut scanner = Scanner::new(source.to_string());
    scanner.scan_tokens();
    assert!(scanner.errors.is_empty(), "errors of the text: {:?}", scanner.errors);
    let mut tokens = scanner.tokens;
    for token in tokens.iter_mut() {
        if token.token_type == TokenType::Number {
            token.literal = LiteralType::Number(token.lexeme.parse::<f64>().unwrap().to_bits());
        }
    }
    let mut parser = Parser::new(tokens);
    let statements = parser.parse();
    assert!(parser.errors.is_empty(), "errors of parsing: {:?}", parser.errors);
    statements
}

fn only(mut statements: Vec<Stmt>) -> Stmt {
    assert_eq!(statements.len(), 1);
    statements.remove(0)
}

fn expression_of(statement: Stmt) -> Expr {
    match statement {
        Stmt::Expression(statement) => statement.expression,
        other => panic!("not an expression statement: {:?}", other),
    }
}

fn number_of(expr: &Expr) -> f64 {
    match expr {
        Expr::Literal(literal) => match &literal.value {
            LiteralType::Number(bits) => f64::from_bits(*bits),
            other => panic!("not a number: {:?}", other),
        },
        other => panic!("not a literal: {:?}", other),
    }
}

fn name_of(expr: &Expr) -> String {
    match expr {
        Expr::Variable(variable) => variable.name.lexeme.clone(),
        other => panic!("not a variable: {:?}", other),
    }
}

#[test]
fn a_for_loop_is_a_block_with_a_while() {
    let block = match only(tree_of("for (var i = 0; i < 2; i++) print i;")) {
        Stmt::Block(block) => *block,
        other => panic!("not a block: {:?}", other),
    };
    let mut statements = block.statements;
    assert_eq!(statements.len(), 2);
    let repeat = match statements.remove(1) {
        Stmt::While(repeat) => *repeat,
        other => panic!("not a while: {:?}", other),
    };
    match statements.remove(0) {
        Stmt::Variable(variable) => {
            assert_eq!(variable.name.lexeme, "i");
            assert_eq!(number_of(&variable.initializer.expect("an initial value")), 0.0);
        }
        other => panic!("not a declaration: {:?}", other),
    }
    match &repeat.condition {
        Expr::Binary(condition) => {
            assert_eq!(condition.operator.token_type, TokenType::Less);
            assert_eq!(name_of(&condition.left), "i");
            assert_eq!(number_of(&condition.right), 2.0);
        }
        other => panic!("not a comparison: {:?}", other),
    }
    let body = match repeat.body {
        Stmt::Block(body) => body.statements,
        other => panic!("not a block: {:?}", other),
    };
    assert_eq!(body.len(), 2);
    assert!(matches!(body[0], Stmt::Print(_)));
    match &body[1] {
        Stmt::Expression(step) => assert!(matches!(step.expression, Expr::Assign(_))),
        other => panic!("not a step: {:?}", other),
    }
}

#[test]
fn a_for_loop_without_clauses_runs_while_true() {
    let block = match only(tree_of("for (;;) print 1;")) {
        Stmt::Block(block) => *block,
        other => panic!("not a block: {:?}", other),
    };
    let repeat = match only(block.statements) {
        Stmt::While(repeat) => *repeat,
        other => panic!("not a while: {:?}", other),
    };
    match &repeat.condition {
        Expr::Literal(literal) => assert!(matches!(literal.value, LiteralType::Bool(true))),
        other => panic!("not a literal: {:?}", other),
    }
    match repeat.body {
        Stmt::Block(body) => {
            assert_eq!(body.statements.len(), 1);
            assert!(matches!(body.statements[0], Stmt::Print(_)));
        }
        other => panic!("not a block: {:?}", other),
    }
}

#[test]
fn a_compound_assignment_assigns_what_it_computes() {
    match expression_of(only(tree_of("a += 2;"))) {
        Expr::Assign(assign) => {
            assert_eq!(assign.name.lexeme, "a");
            assert_eq!(assign.distance, None);
            match &assign.value {
                Expr::Binary(sum) => {
                    assert_eq!(sum.operator.token_type, TokenType::PlusEqual);
                    assert_eq!(name_of(&sum.left), "a");
                    assert_eq!(number_of(&sum.right), 2.0);
                }
                other => panic!("not a binary expression: {:?}", other),
            }
        }
        other => panic!("not an assignment: {:?}", other),
    }
}

#[test]
fn a_step_assigns_one_more_or_one_less() {
    for (text, kind) in [("a++;", TokenType::PlusPlus), ("a--;", TokenType::MinusMinus)] {
        match expression_of(only(tree_of(text))) {
            Expr::Assign(assign) => {
                assert_eq!(assign.name.lexeme, "a");
                match &assign.value {
                    Expr::Binary(step) => {
                        assert_eq!(step.operator.token_type, kind);
                        assert_eq!(name_of(&step.left), "a");
                        assert_eq!(number_of(&step.right), 1.0);
                    }
                    other => panic!("not a binary expression: {:?}", other),
                }
            }
            other => panic!("not an assignment: {:?}", other),
        }
    }
}

#[test]
fn what_is_assigned_to_decides_the_node() {
    assert!(matches!(expression_of(only(tree_of("a = 1;"))), Expr::Assign(_)));
    match expression_of(only(tree_of("a.b = 1;"))) {
        Expr::SetExpr(set) => {
            assert_eq!(name_of(&set.object), "a");
            assert_eq!(set.name.lexeme, "b");
            assert_eq!(number_of(&set.value), 1.0);
        }
        other => panic!("not a property assignment: {:?}", other),
    }
    match expression_of(only(tree_of("a[0] = 1;"))) {
        Expr::AssignIndex(set) => {
            assert_eq!(set.bracket.token_type, TokenType::RightSquare);
            assert_eq!(name_of(&set.object), "a");
            assert_eq!(number_of(&set.index), 0.0);
            assert_eq!(number_of(&set.value), 1.0);
        }
        other => panic!("not an item assignment: {:?}", other),
    }
}

#[test]
fn a_return_takes_no_value_from_the_next_line() {
    let function = match only(tree_of("funk f() { return\n1 }")) {
        Stmt::Function(function) => function,
        other => panic!("not a function: {:?}", other),
    };
    assert_eq!(function.body.len(), 2);
    match &function.body[0] {
        Stmt::Return(statement) => assert!(statement.value.is_none()),
        other => panic!("not a return: {:?}", other),
    }
    assert!(matches!(function.body[1], Stmt::Expression(_)));
    let function = match only(tree_of("funk f() { return 1 }")) {
        Stmt::Function(function) => function,
        other => panic!("not a function: {:?}", other),
    };
    assert_eq!(function.body.len(), 1);
    match &function.body[0] {
        Stmt::Return(statement) => {
            assert_eq!(number_of(statement.value.as_ref().expect("a value")), 1.0)
        }
        other => panic!("not a return: {:?}", other),
    }
}

#[test]
fn calls_properties_and_indexes_follow_from_the_left() {
    match expression_of(only(tree_of("a.b(1, 2)[3];"))) {
        Expr::Index(index) => {
            assert_eq!(index.bracket.token_type, TokenType::RightSquare);
            assert_eq!(number_of(&index.index), 3.0);
            match &index.object {
                Expr::Call(call) => {
                    assert_eq!(call.arguments.len(), 2);
                    assert_eq!(number_of(&call.arguments[0]), 1.0);
                    assert_eq!(number_of(&call.arguments[1]), 2.0);
                    assert_eq!(call.paren.token_type, TokenType::RightParen);
                    match &call.callee {
                        Expr::Get(get) => {
                            assert_eq!(name_of(&get.object), "a");
                            assert_eq!(get.name.lexeme, "b");
                        }
                        other => panic!("not a property: {:?}", other),
                    }
                }
                other => panic!("not a call: {:?}", other),
            }
        }
        other => panic!("not an index: {:?}", other),
    }
}

#[test]
fn a_class_holds_its_methods_with_their_parameters() {
    match only(tree_of("class A { m() {} n(a, b) { print a; } }")) {
        Stmt::Class(class) => {
            assert_eq!(class.name.lexeme, "A");
            assert_eq!(class.methods.len(), 2);
            assert_eq!(class.methods[0].name.lexeme, "m");
            assert!(class.methods[0].params.is_empty());
            assert!(class.methods[0].body.is_empty());
            assert_eq!(class.methods[1].name.lexeme, "n");
            let params: Vec<&str> =
                class.methods[1].params.iter().map(|param| param.lexeme.as_str()).collect();
            assert_eq!(params, vec!["a", "b"]);
            assert_eq!(class.methods[1].body.len(), 1);
        }
        other => panic!("not a class: {:?}", other),
    }
}

#[test]
fn an_empty_list_takes_no_token() {
    match expression_of(only(tree_of("f();"))) {
        Expr::Call(call) => {
            assert_eq!(name_of(&call.callee), "f");
            assert!(call.arguments.is_empty());
        }
        other => panic!("not a call: {:?}", other),
    }
    match expression_of(only(tree_of("[];"))) {
        Expr::Array(array) => assert!(array.values.is_empty()),
        other => panic!("not an array: {:?}", other),
    }
    match expression_of(only(tree_of("[1, 2, 3];"))) {
        Expr::Array(array) => {
            let items: Vec<f64> = array.values.iter().map(number_of).collect();
            assert_eq!(items, vec![1.0, 2.0, 3.0]);
        }
        other => panic!("not an array: {:?}", other),
    }
}

#[test]
fn an_error_of_parsing_names_the_token_it_stopped_at() {
    let mut scanner = Scanner::new("print ;\nvar 1;".to_string());
    scanner.scan_tokens();
    let mut parser = Parser::new(scanner.tokens);
    let _ = parser.parse();
    let found: Vec<(TokenType, String, u32)> = parser
        .errors
        .iter()
        .map(|error| match error {
            jasn::error_handler::Error::ParseError(token, _) => {
                (token.token_type, token.lexeme.clone(), token.line)
            }
            other => panic!("not an error of parsing: {:?}", other),
        })
        .collect();
    assert_eq!(
        found,
        vec![
            (TokenType::Semicolon, ";".to_string(), 1),
            (TokenType::Number, "1".to_string(), 2),
        ]
    );
    let mut parser = Parser::new(Vec::new());
    assert!(parser.parse().is_empty());
    assert!(parser.errors.is_empty());
}

fn errors_in(source: &str) -> usize {
    let mut scanner = Scanner::new(source.to_string());
    scanner.scan_tokens();
    assert!(scanner.errors.is_empty(), "errors of the text: {:?}", scanner.errors);
    let mut parser = Parser::new(scanner.tokens);
    let _ = parser.parse();
    parser.errors.len()
}

#[test]
fn only_a_target_is_assigned_to() {
    for text in ["a = 1;", "a.b = 1;", "a[0] = 1;", "a.b[0].c = 1;", "a = b = 1;", "f().x = 1;"] {
        assert_eq!(errors_in(text), 0, "{}", text);
    }
    for text in ["1 = 2;", "(a) = 1;", "1 + a = 3;", "-a = 1;", "f() = 1;", "a or b = 1;"] {
        assert_eq!(errors_in(text), 1, "{}", text);
    }
    for text in ["a += 1;", "a -= 1;", "a *= 2;", "a /= 2;", "a++;", "a--;"] {
        assert_eq!(errors_in(text), 0, "{}", text);
    }
    for text in ["a.b += 1;", "a[0] -= 1;", "1 *= 2;", "a.b++;", "a[0]--;", "1++;"] {
        assert_eq!(errors_in(text), 1, "{}", text);
    }
}

#[test]
fn tokens_that_are_statements_parse_without_an_error() {
    for text in [
        "",
        "print 1",
        "print 1;",
        "var a",
        "var a = 1\nvar b = a",
        "{ }",
        "{ var a = 1; { print a } }",
        "if (a) print 1; else print 2;",
        "if (a) if (b) print 1; else print 2;",
        "while (a < 3) a = a + 1;",
        "for (;;) print 1;",
        "for (var i = 0; i < 3; i++) { print i; }",
        "for (i = 0; i < 3;) print i;",
        "funk f() { return }",
        "funk f(a, b) { return a + b; }",
        "class A { }",
        "class A { init(x) { this.x = x; } get() { return this.x; } }",
        "print [1, [2, 3], f(4)][0];",
        "print !-a.b(1)(2).c;",
        "print super.m;",
    ] {
        assert_eq!(errors_in(text), 0, "{:?}", text);
    }
}

#[test]
fn tokens_that_are_no_statements_are_errors() {
    for text in [
        "print",
        "print 1 2",
        "var",
        "var 1",
        "var a = ;",
        "{ print 1;",
        "if a print 1;",
        "if (a print 1;",
        "if (a) var b = 1;",
        "while (a) funk f() {}",
        "for (var i = 0; i < 3) print i;",
        "for (;;",
        "funk () {}",
        "funk f(a,) {}",
        "funk f(a) print a;",
        "class { }",
        "class A { funk f() {} }",
        "class A { m() {}",
        "print (1;",
        "print [1, 2;",
        "print f(1;",
        "print a.;",
        "print a[1;",
        "print super;",
        "print 1 +;",
        "print !;",
        ")",
    ] {
        assert!(errors_in(text) > 0, "{:?}", text);
    }
}
