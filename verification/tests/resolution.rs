//! The scoping rules, and the distances that resolution gives.

use jasn::error_handler::Error;
use jasn::expressions::{Assign, Binary, Call, Expr, Literal, This, Variable};
use jasn::resolver::Resolver;
use jasn::statements::{Block, Class, Expression, Function, If, Print, Return, Stmt, While};
use jasn::token::{LiteralType, Token, TokenType};

fn name(lexeme: &str) -> Token {
    Token::new(TokenType::Identifier, lexeme.to_string(), LiteralType::Null, 1)
}

fn number(value: f64) -> Expr {
    Expr::Literal(Literal { value: LiteralType::Number(value.to_bits()) })
}

fn variable(lexeme: &str) -> Expr {
    Expr::Variable(Variable { name: name(lexeme), distance: None })
}

fn assign(lexeme: &str, value: Expr) -> Expr {
    Expr::Assign(Box::new(Assign { name: name(lexeme), value, distance: None }))
}

fn var(lexeme: &str, initializer: Option<Expr>) -> Stmt {
    Stmt::Variable(jasn::statements::Variable { name: name(lexeme), initializer })
}

fn print(expression: Expr) -> Stmt {
    Stmt::Print(Print { expression })
}

fn block(statements: Vec<Stmt>) -> Stmt {
    Stmt::Block(Box::new(Block { statements }))
}

fn funk(lexeme: &str, params: Vec<&str>, body: Vec<Stmt>) -> Stmt {
    Stmt::Function(Function {
        name: name(lexeme),
        params: params.into_iter().map(name).collect(),
        body,
    })
}

fn give(value: Option<Expr>) -> Stmt {
    Stmt::Return(Return { keyword: Token::new(TokenType::Return, "return".to_string(), LiteralType::Null, 5), value })
}

fn resolver_error(error: &Error) -> (String, String) {
    match error {
        Error::ResolverError(token, message) => (token.lexeme.clone(), message.clone()),
        other => panic!("not an error of the resolver: {:?}", other),
    }
}

fn printed_distance(stmt: &Stmt) -> Option<u64> {
    match stmt {
        Stmt::Print(Print { expression: Expr::Variable(reference) }) => reference.distance,
        other => panic!("not the print of a variable: {:?}", other),
    }
}

fn statements_of(stmt: &Stmt) -> &Vec<Stmt> {
    match stmt {
        Stmt::Block(block) => &block.statements,
        Stmt::Function(function) => &function.body,
        other => panic!("no statements in {:?}", other),
    }
}

#[test]
fn a_global_reference_gets_no_distance() {
    let resolved = Resolver::resolve(vec![var("a", Some(number(1.0))), print(variable("a"))]).unwrap();
    assert_eq!(printed_distance(&resolved[1]), None);
}

#[test]
fn a_local_reference_gets_the_number_of_scopes_between() {
    // { var a; print a; { print a; var b; { print a; print b; print c; } } }
    let program = vec![block(vec![
        var("a", None),
        print(variable("a")),
        block(vec![
            print(variable("a")),
            var("b", None),
            block(vec![print(variable("a")), print(variable("b")), print(variable("c"))]),
        ]),
    ])];
    let resolved = Resolver::resolve(program).unwrap();
    let outer = statements_of(&resolved[0]);
    assert_eq!(printed_distance(&outer[1]), Some(0));
    let middle = statements_of(&outer[2]);
    assert_eq!(printed_distance(&middle[0]), Some(1));
    let inner = statements_of(&middle[2]);
    assert_eq!(printed_distance(&inner[0]), Some(2));
    assert_eq!(printed_distance(&inner[1]), Some(1));
    assert_eq!(printed_distance(&inner[2]), None);
}

#[test]
fn the_nearest_declaration_counts() {
    // { var a; { var a; print a; } print a; }
    let program = vec![block(vec![
        var("a", None),
        block(vec![var("a", None), print(variable("a"))]),
        print(variable("a")),
    ])];
    let resolved = Resolver::resolve(program).unwrap();
    let outer = statements_of(&resolved[0]);
    assert_eq!(printed_distance(&statements_of(&outer[1])[1]), Some(0));
    assert_eq!(printed_distance(&outer[2]), Some(0));
}

#[test]
fn a_reference_before_the_declaration_is_global() {
    // { print a; var a; }
    let program = vec![block(vec![print(variable("a")), var("a", None)])];
    let resolved = Resolver::resolve(program).unwrap();
    assert_eq!(printed_distance(&statements_of(&resolved[0])[0]), None);
}

#[test]
fn parameters_form_the_scope_of_the_body() {
    // funk f(p) { print p; print f; { print p; } }
    let program = vec![funk(
        "f",
        vec!["p"],
        vec![print(variable("p")), print(variable("f")), block(vec![print(variable("p"))])],
    )];
    let resolved = Resolver::resolve(program).unwrap();
    let body = statements_of(&resolved[0]);
    assert_eq!(printed_distance(&body[0]), Some(0));
    assert_eq!(printed_distance(&body[1]), None);
    assert_eq!(printed_distance(&statements_of(&body[2])[0]), Some(1));
}

#[test]
fn a_local_function_may_refer_to_itself() {
    // { funk f() { print f; } }
    let program = vec![block(vec![funk("f", vec![], vec![print(variable("f"))])])];
    let resolved = Resolver::resolve(program).unwrap();
    let body = statements_of(&statements_of(&resolved[0])[0]);
    assert_eq!(printed_distance(&body[0]), Some(1));
}

#[test]
fn an_assignment_gets_its_distance_too() {
    // { var a; { a = 1; b = 2; } }
    let program = vec![block(vec![
        var("a", None),
        block(vec![
            Stmt::Expression(Expression { expression: assign("a", number(1.0)) }),
            Stmt::Expression(Expression { expression: assign("b", number(2.0)) }),
        ]),
    ])];
    let resolved = Resolver::resolve(program).unwrap();
    let inner = statements_of(&statements_of(&resolved[0])[1]);
    let distances: Vec<Option<u64>> = inner
        .iter()
        .map(|stmt| match stmt {
            Stmt::Expression(Expression { expression: Expr::Assign(found) }) => found.distance,
            other => panic!("not an assignment: {:?}", other),
        })
        .collect();
    assert_eq!(distances, vec![Some(1), None]);
}

#[test]
fn this_is_found_in_the_scope_around_a_method() {
    // class C { m(p) { print p; this; } }
    let keyword = Token::new(TokenType::This, "this".to_string(), LiteralType::Null, 1);
    let program = vec![Stmt::Class(Class {
        name: name("C"),
        methods: vec![Function {
            name: name("m"),
            params: vec![name("p")],
            body: vec![
                print(variable("p")),
                Stmt::Expression(Expression {
                    expression: Expr::This(This { keyword, distance: None }),
                }),
            ],
        }],
    })];
    let resolved = Resolver::resolve(program).unwrap();
    match &resolved[0] {
        Stmt::Class(class) => match &class.methods[0].body[1] {
            Stmt::Expression(Expression { expression: Expr::This(found) }) => {
                assert_eq!(found.distance, Some(1))
            }
            other => panic!("unexpected statement: {:?}", other),
        },
        other => panic!("unexpected statement: {:?}", other),
    }
}

#[test]
fn the_tree_is_kept_as_it_was() {
    let program = vec![
        Stmt::If(Box::new(If {
            condition: Expr::Binary(Box::new(Binary {
                left: variable("a"),
                operator: Token::new(TokenType::Less, "<".to_string(), LiteralType::Null, 2),
                right: number(1.0),
            })),
            then_branch: print(variable("a")),
            else_branch: Some(print(number(2.0))),
        })),
        Stmt::While(Box::new(While {
            condition: variable("b"),
            body: Stmt::Expression(Expression {
                expression: Expr::Call(Box::new(Call {
                    callee: variable("f"),
                    paren: name(")"),
                    arguments: vec![variable("x"), number(3.0)],
                })),
            }),
        })),
    ];
    let before = format!("{:?}", program);
    let resolved = Resolver::resolve(program).unwrap();
    assert_eq!(format!("{:?}", resolved), before);
}

#[test]
fn a_variable_in_its_own_initializer_is_rejected() {
    // { var x = x; }
    let program = vec![block(vec![var("x", Some(variable("x")))])];
    let errors = Resolver::resolve(program).unwrap_err();
    assert_eq!(errors.len(), 1);
    assert_eq!(
        resolver_error(&errors[0]),
        ("x".to_string(), "Can't read local variables in its own initializer.".to_string())
    );
}

#[test]
fn a_global_in_its_own_initializer_is_left_to_the_run() {
    // No scope records the names of the top level.
    let program = vec![var("x", Some(variable("x")))];
    assert!(Resolver::resolve(program).is_ok());
}

#[test]
fn a_name_declared_twice_in_one_scope_is_rejected() {
    // { var a; var a; }
    let program = vec![block(vec![var("a", None), var("a", None)])];
    let errors = Resolver::resolve(program).unwrap_err();
    assert_eq!(errors.len(), 1);
    assert_eq!(
        resolver_error(&errors[0]),
        ("a".to_string(), "There's already a variable with this name in this scope.".to_string())
    );
}

#[test]
fn a_name_may_be_declared_again_in_an_inner_scope() {
    let program = vec![block(vec![var("a", None), block(vec![var("a", None)])])];
    assert!(Resolver::resolve(program).is_ok());
}

#[test]
fn a_name_may_be_declared_twice_at_the_top_level() {
    let program = vec![var("a", None), var("a", None)];
    assert!(Resolver::resolve(program).is_ok());
}

#[test]
fn two_parameters_of_one_name_are_rejected() {
    let program = vec![funk("f", vec!["p", "q", "p"], vec![])];
    let errors = Resolver::resolve(program).unwrap_err();
    assert_eq!(errors.len(), 1);
    assert_eq!(
        resolver_error(&errors[0]),
        ("p".to_string(), "There's already a variable with this name in this scope.".to_string())
    );
}

#[test]
fn return_outside_a_function_is_rejected() {
    let errors = Resolver::resolve(vec![give(Some(number(1.0)))]).unwrap_err();
    assert_eq!(errors.len(), 1);
    assert_eq!(
        resolver_error(&errors[0]),
        ("return".to_string(), "Can't return from top-level code.".to_string())
    );
    let errors = Resolver::resolve(vec![block(vec![give(None)])]).unwrap_err();
    assert_eq!(errors.len(), 1);
}

#[test]
fn return_inside_a_function_is_accepted() {
    let program = vec![funk("f", vec![], vec![block(vec![give(Some(number(1.0)))])])];
    assert!(Resolver::resolve(program).is_ok());
}

#[test]
fn every_failing_statement_is_found() {
    // { var a; var a; } return; { var x = x; print 1; }
    let program = vec![
        block(vec![var("a", None), var("a", None)]),
        give(None),
        block(vec![var("x", Some(variable("x"))), print(number(1.0))]),
    ];
    let errors = Resolver::resolve(program).unwrap_err();
    assert_eq!(errors.len(), 3);
    assert_eq!(resolver_error(&errors[0]).0, "a");
    assert_eq!(resolver_error(&errors[1]).0, "return");
    assert_eq!(resolver_error(&errors[2]).0, "x");
}

#[test]
fn the_operations_of_the_resolver() {
    let mut resolver = Resolver::new();
    // At the top level nothing is recorded.
    assert!(resolver.declare(&name("a")).is_ok());
    assert!(resolver.declare(&name("a")).is_ok());
    assert_eq!(resolver.resolve_local(&name("a")), None);
    resolver.begin_scope();
    assert!(resolver.declare(&name("a")).is_ok());
    assert!(resolver.declare(&name("a")).is_err());
    assert!(resolver.resolve_expr(variable("a")).is_err());
    resolver.define(&name("a"));
    assert!(resolver.resolve_expr(variable("a")).is_ok());
    assert_eq!(resolver.resolve_local(&name("a")), Some(0));
    resolver.begin_scope();
    assert_eq!(resolver.resolve_local(&name("a")), Some(1));
    assert_eq!(resolver.resolve_local(&name("b")), None);
    resolver.define(&name("a"));
    assert_eq!(resolver.resolve_local(&name("a")), Some(0));
    resolver.end_scope();
    resolver.end_scope();
    assert_eq!(resolver.resolve_local(&name("a")), None);
    resolver.end_scope();
    assert_eq!(resolver.resolve_local(&name("a")), None);
}

#[test]
fn the_first_error_is_the_first_violation() {
    // class C { m(p, p) { var a; var a; } n() { var b; var b; } }
    // The duplicate parameter comes first; the class is given up there.
    let method = |name_of: &str, params: Vec<&str>, local: &str| Function {
        name: name(name_of),
        params: params.into_iter().map(name).collect(),
        body: vec![var(local, None), var(local, None)],
    };
    let program = vec![Stmt::Class(Class {
        name: name("C"),
        methods: vec![method("m", vec!["p", "p"], "a"), method("n", vec![], "b")],
    })];
    let errors = Resolver::resolve(program).unwrap_err();
    assert_eq!(errors.len(), 1);
    assert_eq!(resolver_error(&errors[0]).0, "p");

    // class C { m() { var a; var a; } n(q, q) {} }
    // The error in the body of the first method comes first; the parameter follows.
    let program = vec![Stmt::Class(Class {
        name: name("C"),
        methods: vec![method("m", vec![], "a"), Function {
            name: name("n"),
            params: vec![name("q"), name("q")],
            body: vec![],
        }],
    })];
    let errors = Resolver::resolve(program).unwrap_err();
    assert_eq!(errors.len(), 2);
    assert_eq!(resolver_error(&errors[0]).0, "a");
    assert_eq!(resolver_error(&errors[1]).0, "q");

    // { var x = y(x, x); } -- the callee is read before the arguments.
    let call = Expr::Call(Box::new(Call {
        callee: variable("y"),
        paren: name(")"),
        arguments: vec![variable("x"), variable("x")],
    }));
    let errors = Resolver::resolve(vec![block(vec![var("x", Some(call))])]).unwrap_err();
    assert_eq!(errors.len(), 1);
    assert_eq!(
        resolver_error(&errors[0]),
        ("x".to_string(), "Can't read local variables in its own initializer.".to_string())
    );

    // { var a; if (a) { var a; var a; } else return; }
    // The block of the branch records its error; the return after it is found as well.
    let program = vec![block(vec![
        var("a", None),
        Stmt::If(Box::new(If {
            condition: variable("a"),
            then_branch: block(vec![var("a", None), var("a", None)]),
            else_branch: Some(give(None)),
        })),
    ])];
    let errors = Resolver::resolve(program).unwrap_err();
    assert_eq!(errors.len(), 2);
    assert_eq!(
        resolver_error(&errors[0]).1,
        "There's already a variable with this name in this scope."
    );
    assert_eq!(resolver_error(&errors[1]).1, "Can't return from top-level code.");
}

#[test]
fn the_error_of_a_return_at_the_top_level_is_the_one_returned() {
    let mut resolver = Resolver::new();
    match resolver.resolve_stmt(give(None)) {
        Err(error) => assert_eq!(
            resolver_error(&error),
            ("return".to_string(), "Can't return from top-level code.".to_string())
        ),
        Ok(other) => panic!("resolved: {:?}", other),
    }
    // Nothing was recorded beside it: the statement after it resolves on its own.
    assert!(resolver.resolve_stmt(give(None)).is_err());
    let errors = Resolver::resolve(vec![give(None)]).expect_err("a return at the top level");
    assert_eq!(errors.len(), 1);
}
