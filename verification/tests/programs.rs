//! Whole programs, run through the resolver and the evaluator with a host that computes
//! with floating-point numbers and collects what is printed and reported.

use jasn::callable::Callable;
use jasn::error_handler::Error;
use jasn::evaluation::ArithmeticOperator;
use jasn::expressions::{
    Array, Assign, AssignIndex, Binary, Call, Expr, Get, Grouping, Index, Literal, Logical,
    SetExpr, Super, This, Unary, Variable,
};
use jasn::interpreter::Interpreter;
use jasn::machine::{Action, Response};
use jasn::native_functions::{NativeFunctions, CLOCK, INPUT, LEN, PRINT, SLEEP};
use jasn::resolver::Resolver;
use jasn::statements::{Block, Class, Expression, Function, If, Print, Return, Stmt, While};
use jasn::token::{LiteralType, Token, TokenType};

fn token(token_type: TokenType, lexeme: &str) -> Token {
    Token::new(token_type, lexeme.to_string(), LiteralType::Null, 1)
}

fn token_at(token_type: TokenType, lexeme: &str, line: u32) -> Token {
    Token::new(token_type, lexeme.to_string(), LiteralType::Null, line)
}

fn name(lexeme: &str) -> Token {
    token(TokenType::Identifier, lexeme)
}

fn number(value: f64) -> Expr {
    Expr::Literal(Literal { value: LiteralType::Number(value.to_bits()) })
}

fn text(value: &str) -> Expr {
    Expr::Literal(Literal { value: LiteralType::String(value.to_string()) })
}

fn boolean(value: bool) -> Expr {
    Expr::Literal(Literal { value: LiteralType::Bool(value) })
}

fn null() -> Expr {
    Expr::Literal(Literal { value: LiteralType::Null })
}

fn variable(lexeme: &str) -> Expr {
    Expr::Variable(Variable { name: name(lexeme), distance: None })
}

fn assign(lexeme: &str, value: Expr) -> Expr {
    Expr::Assign(Box::new(Assign { name: name(lexeme), value, distance: None }))
}

fn binary(left: Expr, token_type: TokenType, lexeme: &str, right: Expr) -> Expr {
    Expr::Binary(Box::new(Binary { left, operator: token(token_type, lexeme), right }))
}

fn binary_at(left: Expr, token_type: TokenType, lexeme: &str, line: u32, right: Expr) -> Expr {
    Expr::Binary(Box::new(Binary { left, operator: token_at(token_type, lexeme, line), right }))
}

fn logical(left: Expr, token_type: TokenType, lexeme: &str, right: Expr) -> Expr {
    Expr::Logical(Box::new(Logical { left, operator: token(token_type, lexeme), right }))
}

fn unary(token_type: TokenType, lexeme: &str, right: Expr) -> Expr {
    Expr::Unary(Box::new(Unary { operator: token(token_type, lexeme), right }))
}

fn call(callee: Expr, arguments: Vec<Expr>) -> Expr {
    Expr::Call(Box::new(Call { callee, paren: token(TokenType::RightParen, ")"), arguments }))
}

fn call_at(callee: Expr, line: u32, arguments: Vec<Expr>) -> Expr {
    Expr::Call(Box::new(Call {
        callee,
        paren: token_at(TokenType::RightParen, ")", line),
        arguments,
    }))
}

fn get(object: Expr, property: &str) -> Expr {
    Expr::Get(Box::new(Get { object, name: name(property) }))
}

fn set(object: Expr, property: &str, value: Expr) -> Expr {
    Expr::SetExpr(Box::new(SetExpr { object, name: name(property), value }))
}

fn this() -> Expr {
    Expr::This(This { keyword: token(TokenType::This, "this"), distance: None })
}

fn array(values: Vec<Expr>) -> Expr {
    Expr::Array(Box::new(Array { values }))
}

fn bracket() -> Token {
    token_at(TokenType::RightSquare, "]", 4)
}

fn index(object: Expr, at: Expr) -> Expr {
    Expr::Index(Box::new(Index { object, bracket: bracket(), index: at }))
}

fn assign_index(object: Expr, at: Expr, value: Expr) -> Expr {
    Expr::AssignIndex(Box::new(AssignIndex { object, bracket: bracket(), index: at, value }))
}

fn grouping(expression: Expr) -> Expr {
    Expr::Grouping(Box::new(Grouping { expression }))
}

fn var(lexeme: &str, initializer: Option<Expr>) -> Stmt {
    Stmt::Variable(jasn::statements::Variable { name: name(lexeme), initializer })
}

fn print(expression: Expr) -> Stmt {
    Stmt::Print(Print { expression })
}

fn expression(expression: Expr) -> Stmt {
    Stmt::Expression(Expression { expression })
}

fn block(statements: Vec<Stmt>) -> Stmt {
    Stmt::Block(Box::new(Block { statements }))
}

fn function(lexeme: &str, params: Vec<&str>, body: Vec<Stmt>) -> Function {
    Function { name: name(lexeme), params: params.into_iter().map(name).collect(), body }
}

fn funk(lexeme: &str, params: Vec<&str>, body: Vec<Stmt>) -> Stmt {
    Stmt::Function(function(lexeme, params, body))
}

fn class(lexeme: &str, methods: Vec<Function>) -> Stmt {
    Stmt::Class(Class { name: name(lexeme), methods })
}

fn give(value: Option<Expr>) -> Stmt {
    Stmt::Return(Return { keyword: token(TokenType::Return, "return"), value })
}

fn when(condition: Expr, then_branch: Stmt, else_branch: Option<Stmt>) -> Stmt {
    Stmt::If(Box::new(If { condition, then_branch, else_branch }))
}

fn repeat(condition: Expr, body: Stmt) -> Stmt {
    Stmt::While(Box::new(While { condition, body }))
}

/// What a run leaves behind: the lines printed and the failures reported.
struct Outcome {
    printed: Vec<String>,
    reported: Vec<Error>,
    steps: usize,
}

fn compute(operator: ArithmeticOperator, left: u64, right: u64) -> u64 {
    let left = f64::from_bits(left);
    let right = f64::from_bits(right);
    let result = match operator {
        ArithmeticOperator::Add => left + right,
        ArithmeticOperator::Subtract => left - right,
        ArithmeticOperator::Multiply => left * right,
        ArithmeticOperator::Divide => left / right,
        ArithmeticOperator::Remainder => left % right,
    };
    result.to_bits()
}

fn native(machine: &Interpreter, function: usize, arguments: &Vec<LiteralType>) -> Result<LiteralType, Error> {
    if function == CLOCK {
        Ok(LiteralType::Number(1234.5f64.to_bits()))
    } else if function == INPUT {
        Ok(LiteralType::String("typed".to_string()))
    } else if function == LEN {
        match NativeFunctions::measure(machine, &arguments[0]) {
            Some(measure) => Ok(LiteralType::Number((measure as f64).to_bits())),
            None => Ok(LiteralType::Null),
        }
    } else if function == PRINT {
        Ok(LiteralType::Null)
    } else if function == SLEEP {
        NativeFunctions::sleep_duration(&arguments[0]).map(|_| LiteralType::Null)
    } else {
        Err(Error::Unknown)
    }
}

fn drive(machine: &mut Interpreter, outcome: &mut Outcome) {
    let mut response = Response::Nothing;
    loop {
        outcome.steps += 1;
        assert!(outcome.steps < 1_000_000, "the program does not end");
        let action = machine.step(response);
        response = Response::Nothing;
        match action {
            Action::Continue => {}
            Action::Print(line) => outcome.printed.push(line),
            Action::Report(error) => outcome.reported.push(error),
            Action::Arithmetic { operator, left, right } => {
                response = Response::Number(compute(operator, left, right));
            }
            Action::Format(numbers) => {
                response = Response::Texts(
                    numbers.iter().map(|bits| f64::from_bits(*bits).to_string()).collect(),
                );
            }
            Action::Native { function, arguments } => {
                response = Response::Native(native(machine, function, &arguments));
            }
            Action::Finished => break,
        }
    }
}

fn run(program: Vec<Stmt>) -> Outcome {
    let resolved = match Resolver::resolve(program) {
        Ok(resolved) => resolved,
        Err(errors) => panic!("the program does not resolve: {:?}", errors),
    };
    let mut machine = Interpreter::new();
    let mut outcome = Outcome { printed: Vec::new(), reported: Vec::new(), steps: 0 };
    assert!(machine.interpret(&resolved));
    drive(&mut machine, &mut outcome);
    assert!(!machine.is_running());
    outcome
}

fn printed(program: Vec<Stmt>) -> Vec<String> {
    let outcome = run(program);
    assert!(outcome.reported.is_empty(), "reported: {:?}", outcome.reported);
    outcome.printed
}

fn runtime_error(error: &Error) -> (u32, String) {
    match error {
        Error::RuntimeError(line, message) => (*line, message.clone()),
        other => panic!("not an error of the running program: {:?}", other),
    }
}

#[test]
fn inner_declaration_shadows_and_outer_returns() {
    // var a = 1; { var a = 2; print a; } print a;
    let program = vec![
        var("a", Some(number(1.0))),
        block(vec![var("a", Some(number(2.0))), print(variable("a"))]),
        print(variable("a")),
    ];
    assert_eq!(printed(program), vec!["2", "1"]);
}

#[test]
fn counter_closure_keeps_its_variable() {
    // funk counter() { var i = 0; funk count() { i = i + 1; print i; } return count; }
    // var c = counter(); c(); c();
    let program = vec![
        funk(
            "counter",
            vec![],
            vec![
                var("i", Some(number(0.0))),
                funk(
                    "count",
                    vec![],
                    vec![
                        expression(assign(
                            "i",
                            binary(variable("i"), TokenType::Plus, "+", number(1.0)),
                        )),
                        print(variable("i")),
                    ],
                ),
                give(Some(variable("count"))),
            ],
        ),
        var("c", Some(call(variable("counter"), vec![]))),
        expression(call(variable("c"), vec![])),
        expression(call(variable("c"), vec![])),
    ];
    assert_eq!(printed(program), vec!["1", "2"]);
}

#[test]
fn number_joins_string_as_text() {
    // print 1 + "x";
    let program = vec![print(binary(number(1.0), TokenType::Plus, "+", text("x")))];
    assert_eq!(printed(program), vec!["1x"]);
}

#[test]
fn string_joins_number_as_text() {
    let program = vec![print(binary(text("x"), TokenType::Plus, "+", number(2.5)))];
    assert_eq!(printed(program), vec!["x2.5"]);
}

#[test]
fn wrong_arity_is_reported_and_the_program_goes_on() {
    // funk f(x) { print "inside"; } f(1, 2); print "after";
    let program = vec![
        funk("f", vec!["x"], vec![print(text("inside"))]),
        expression(call_at(variable("f"), 7, vec![number(1.0), number(2.0)])),
        print(text("after")),
    ];
    let outcome = run(program);
    assert_eq!(outcome.printed, vec!["after"]);
    assert_eq!(outcome.reported.len(), 1);
    assert_eq!(
        runtime_error(&outcome.reported[0]),
        (7, "Expected 1 arguments but found 2.".to_string())
    );
}

#[test]
fn too_few_arguments_fail_too() {
    let program = vec![
        funk("f", vec!["x", "y"], vec![print(text("inside"))]),
        expression(call_at(variable("f"), 3, vec![])),
    ];
    let outcome = run(program);
    assert!(outcome.printed.is_empty());
    assert_eq!(
        runtime_error(&outcome.reported[0]),
        (3, "Expected 2 arguments but found 0.".to_string())
    );
}

#[test]
fn closures_of_one_frame_see_each_other() {
    // funk pair() { var n = 0; funk up() { n = n + 1; } funk show() { print n; }
    //               up(); show(); up(); show(); }
    // pair();
    let program = vec![
        funk(
            "pair",
            vec![],
            vec![
                var("n", Some(number(0.0))),
                funk(
                    "up",
                    vec![],
                    vec![expression(assign(
                        "n",
                        binary(variable("n"), TokenType::Plus, "+", number(1.0)),
                    ))],
                ),
                funk("show", vec![], vec![print(variable("n"))]),
                expression(call(variable("up"), vec![])),
                expression(call(variable("show"), vec![])),
                expression(call(variable("up"), vec![])),
                expression(call(variable("show"), vec![])),
            ],
        ),
        expression(call(variable("pair"), vec![])),
    ];
    assert_eq!(printed(program), vec!["1", "2"]);
}

#[test]
fn division_by_zero_is_an_error() {
    let program = vec![
        print(binary_at(number(1.0), TokenType::Slash, "/", 4, number(0.0))),
        print(text("next")),
    ];
    let outcome = run(program);
    assert_eq!(outcome.printed, vec!["next"]);
    assert_eq!(runtime_error(&outcome.reported[0]), (4, "Division by zero.".to_string()));
}

#[test]
fn division_by_negative_zero_is_an_error() {
    let program = vec![print(binary_at(number(1.0), TokenType::Slash, "/", 2, number(-0.0)))];
    let outcome = run(program);
    assert_eq!(runtime_error(&outcome.reported[0]), (2, "Division by zero.".to_string()));
}

#[test]
fn arithmetic_is_computed_by_the_host() {
    let program = vec![
        print(binary(number(7.0), TokenType::Minus, "-", number(2.0))),
        print(binary(number(7.0), TokenType::Star, "*", number(2.0))),
        print(binary(number(7.0), TokenType::Slash, "/", number(2.0))),
        print(binary(number(7.0), TokenType::Modulo, "%", number(2.0))),
        print(binary(number(7.0), TokenType::Plus, "+", number(2.0))),
    ];
    assert_eq!(printed(program), vec!["5", "14", "3.5", "1", "9"]);
}

#[test]
fn comparisons_and_equality() {
    let program = vec![
        print(binary(number(1.0), TokenType::Less, "<", number(2.0))),
        print(binary(number(2.0), TokenType::LessEqual, "<=", number(2.0))),
        print(binary(number(1.0), TokenType::Greater, ">", number(2.0))),
        print(binary(number(2.0), TokenType::GreaterEqual, ">=", number(3.0))),
        print(binary(number(2.0), TokenType::EqualEqual, "==", number(2.0))),
        print(binary(text("a"), TokenType::BangEqual, "!=", text("a"))),
        print(binary(null(), TokenType::EqualEqual, "==", null())),
        print(binary(number(1.0), TokenType::EqualEqual, "==", text("1"))),
    ];
    assert_eq!(
        printed(program),
        vec!["yeah", "yeah", "nah", "nah", "yeah", "nah", "yeah", "nah"]
    );
}

#[test]
fn comparison_of_a_string_fails() {
    let program = vec![print(binary_at(text("a"), TokenType::Less, "<", 9, number(1.0)))];
    let outcome = run(program);
    assert_eq!(runtime_error(&outcome.reported[0]), (9, "Cannot convert to decimal".to_string()));
}

#[test]
fn adding_a_boolean_to_null_fails() {
    let program = vec![print(binary_at(boolean(true), TokenType::Plus, "+", 5, null()))];
    let outcome = run(program);
    assert_eq!(runtime_error(&outcome.reported[0]), (5, "Invalid Operands.".to_string()));
}

#[test]
fn an_unknown_binary_operator_fails() {
    let program = vec![print(binary_at(number(1.0), TokenType::Comma, ",", 6, number(2.0)))];
    let outcome = run(program);
    assert_eq!(runtime_error(&outcome.reported[0]), (6, "Invalid binary operator.".to_string()));
}

#[test]
fn unary_operators() {
    let program = vec![
        print(unary(TokenType::Minus, "-", number(3.0))),
        print(unary(TokenType::Bang, "!", boolean(true))),
        print(unary(TokenType::Bang, "!", null())),
        print(unary(TokenType::Bang, "!", number(0.0))),
    ];
    assert_eq!(printed(program), vec!["-3", "nah", "yeah", "nah"]);
}

#[test]
fn negating_a_string_fails() {
    let program = vec![print(unary(TokenType::Minus, "-", text("a")))];
    let outcome = run(program);
    assert_eq!(runtime_error(&outcome.reported[0]), (1, "Cannot convert to decimal".to_string()));
}

#[test]
fn logical_operators_short_circuit() {
    // The right operand would fail if it were evaluated.
    let program = vec![
        print(logical(boolean(false), TokenType::And, "and", variable("missing"))),
        print(logical(number(1.0), TokenType::Or, "or", variable("missing"))),
        print(logical(boolean(true), TokenType::And, "and", text("right"))),
        print(logical(null(), TokenType::Or, "or", text("right"))),
    ];
    assert_eq!(printed(program), vec!["nah", "1", "right", "right"]);
}

#[test]
fn if_picks_a_branch_by_truthiness() {
    let program = vec![
        when(number(0.0), print(text("then")), Some(print(text("else")))),
        when(null(), print(text("then")), Some(print(text("else")))),
        when(boolean(false), print(text("then")), None),
        when(text(""), print(text("then")), None),
    ];
    assert_eq!(printed(program), vec!["then", "else", "then"]);
}

#[test]
fn while_runs_until_the_condition_fails() {
    // var i = 0; while (i < 3) { print i; i = i + 1; }
    let program = vec![
        var("i", Some(number(0.0))),
        repeat(
            binary(variable("i"), TokenType::Less, "<", number(3.0)),
            block(vec![
                print(variable("i")),
                expression(assign("i", binary(variable("i"), TokenType::Plus, "+", number(1.0)))),
            ]),
        ),
    ];
    assert_eq!(printed(program), vec!["0", "1", "2"]);
}

#[test]
fn arrays_print_their_items() {
    let program = vec![
        print(array(vec![])),
        print(array(vec![number(1.0), text("two"), boolean(true), null()])),
        print(array(vec![array(vec![number(1.0)]), number(2.0)])),
    ];
    assert_eq!(printed(program), vec!["[]", "[1, two, yeah, null]", "[[1], 2]"]);
}

#[test]
fn indexing_selects_an_item() {
    let program = vec![
        var("a", Some(array(vec![number(10.0), number(20.0), number(30.0)]))),
        print(index(variable("a"), number(0.0))),
        print(index(variable("a"), number(2.0))),
        print(index(variable("a"), number(1.9))),
    ];
    assert_eq!(printed(program), vec!["10", "30", "20"]);
}

#[test]
fn indexing_out_of_bounds_fails() {
    let program = vec![
        var("a", Some(array(vec![number(10.0)]))),
        print(index(variable("a"), number(1.0))),
        print(index(variable("a"), text("x"))),
        print(index(number(1.0), number(0.0))),
        print(text("done")),
    ];
    let outcome = run(program);
    assert_eq!(outcome.printed, vec!["done"]);
    assert_eq!(outcome.reported.len(), 3);
    assert_eq!(runtime_error(&outcome.reported[0]), (4, "Array index out of bounds.".to_string()));
    assert_eq!(
        runtime_error(&outcome.reported[1]),
        (4, "Array index must be a number.".to_string())
    );
    assert_eq!(
        runtime_error(&outcome.reported[2]),
        (4, "Attempted to index a non-array value.".to_string())
    );
}

#[test]
fn a_negative_index_is_out_of_bounds() {
    for at in [-1.0, -3.0, -1.5, f64::NEG_INFINITY, f64::NAN] {
        let program = vec![
            var("a", Some(array(vec![number(10.0), number(20.0), number(30.0)]))),
            print(index(variable("a"), number(at))),
            print(text("done")),
        ];
        let outcome = run(program);
        assert_eq!(outcome.printed, vec!["done"], "index {:?}", at);
        assert_eq!(outcome.reported.len(), 1);
        assert_eq!(
            runtime_error(&outcome.reported[0]),
            (4, "Array index out of bounds.".to_string())
        );
    }
}

#[test]
fn an_index_is_rounded_toward_zero() {
    for (at, found) in [(-0.0, "10"), (-0.5, "10"), (0.9, "10"), (1.2, "20"), (2.999, "30")] {
        let program = vec![
            var("a", Some(array(vec![number(10.0), number(20.0), number(30.0)]))),
            print(index(variable("a"), number(at))),
        ];
        assert_eq!(printed(program), vec![found], "index {:?}", at);
    }
}

#[test]
fn assignment_through_an_index_leaves_the_binding() {
    let program = vec![
        var("a", Some(array(vec![number(1.0), number(2.0)]))),
        print(assign_index(variable("a"), number(0.0), number(9.0))),
        print(variable("a")),
    ];
    assert_eq!(printed(program), vec!["9", "[1, 2]"]);
}

#[test]
fn assignment_through_an_index_checks_the_bounds() {
    let program = vec![
        var("a", Some(array(vec![number(1.0)]))),
        print(assign_index(variable("a"), number(5.0), number(9.0))),
    ];
    let outcome = run(program);
    assert_eq!(runtime_error(&outcome.reported[0]), (4, "Array index out of bounds.".to_string()));
}

#[test]
fn instances_keep_their_fields_apart() {
    // class Point {} var p = Point(); var q = Point(); p.x = 1; q.x = 2; print p.x; print q.x;
    let program = vec![
        class("Point", vec![]),
        var("p", Some(call(variable("Point"), vec![]))),
        var("q", Some(call(variable("Point"), vec![]))),
        expression(set(variable("p"), "x", number(1.0))),
        expression(set(variable("q"), "x", number(2.0))),
        print(get(variable("p"), "x")),
        print(get(variable("q"), "x")),
        expression(set(variable("p"), "x", number(3.0))),
        print(get(variable("p"), "x")),
        print(get(variable("q"), "x")),
    ];
    assert_eq!(printed(program), vec!["1", "2", "3", "2"]);
}

#[test]
fn an_instance_is_shared_by_its_holders() {
    let program = vec![
        class("Box", vec![]),
        var("a", Some(call(variable("Box"), vec![]))),
        var("b", Some(variable("a"))),
        expression(set(variable("a"), "v", number(7.0))),
        print(get(variable("b"), "v")),
        print(binary(variable("a"), TokenType::EqualEqual, "==", variable("b"))),
        print(binary(
            variable("a"),
            TokenType::EqualEqual,
            "==",
            call(variable("Box"), vec![]),
        )),
    ];
    assert_eq!(printed(program), vec!["7", "yeah", "nah"]);
}

#[test]
fn a_missing_property_fails() {
    let program = vec![
        class("Point", vec![]),
        var("p", Some(call(variable("Point"), vec![]))),
        print(get(variable("p"), "x")),
    ];
    let outcome = run(program);
    assert_eq!(runtime_error(&outcome.reported[0]), (1, "Undefined property 'x'".to_string()));
}

#[test]
fn only_instances_have_properties() {
    let program = vec![
        class("Point", vec![]),
        print(get(number(1.0), "x")),
        print(get(variable("Point"), "x")),
        expression(set(text("s"), "x", number(1.0))),
    ];
    let outcome = run(program);
    assert_eq!(
        runtime_error(&outcome.reported[0]),
        (1, "Only class instances have properties.".to_string())
    );
    assert_eq!(
        runtime_error(&outcome.reported[1]),
        (1, "Only instances have properties.".to_string())
    );
    assert_eq!(
        runtime_error(&outcome.reported[2]),
        (1, "Only instances have fields.".to_string())
    );
}

#[test]
fn a_method_is_bound_to_its_instance() {
    // class Counter { bump() { this.n = this.n + 1; return this.n; } }
    // var c = Counter(); c.n = 0; var d = Counter(); d.n = 10;
    // print c.bump(); print c.bump(); print d.bump();
    let program = vec![
        class(
            "Counter",
            vec![function(
                "bump",
                vec![],
                vec![
                    expression(set(
                        this(),
                        "n",
                        binary(get(this(), "n"), TokenType::Plus, "+", number(1.0)),
                    )),
                    give(Some(get(this(), "n"))),
                ],
            )],
        ),
        var("c", Some(call(variable("Counter"), vec![]))),
        expression(set(variable("c"), "n", number(0.0))),
        var("d", Some(call(variable("Counter"), vec![]))),
        expression(set(variable("d"), "n", number(10.0))),
        print(call(get(variable("c"), "bump"), vec![])),
        print(call(get(variable("c"), "bump"), vec![])),
        print(call(get(variable("d"), "bump"), vec![])),
    ];
    assert_eq!(printed(program), vec!["1", "2", "11"]);
}

#[test]
fn a_field_hides_a_method_of_the_same_name() {
    let program = vec![
        class("Thing", vec![function("what", vec![], vec![give(Some(text("method")))])]),
        var("t", Some(call(variable("Thing"), vec![]))),
        print(call(get(variable("t"), "what"), vec![])),
        expression(set(variable("t"), "what", text("field"))),
        print(get(variable("t"), "what")),
    ];
    assert_eq!(printed(program), vec!["method", "field"]);
}

#[test]
fn a_class_takes_no_arguments() {
    let program = vec![
        class("Point", vec![]),
        expression(call_at(variable("Point"), 2, vec![number(1.0)])),
    ];
    let outcome = run(program);
    assert_eq!(
        runtime_error(&outcome.reported[0]),
        (2, "Expected 0 arguments but found 1.".to_string())
    );
}

#[test]
fn calling_what_is_not_callable_fails() {
    let program = vec![
        class("Point", vec![]),
        var("p", Some(call(variable("Point"), vec![]))),
        expression(call_at(number(1.0), 3, vec![])),
        expression(call_at(variable("p"), 4, vec![])),
    ];
    let outcome = run(program);
    assert_eq!(
        runtime_error(&outcome.reported[0]),
        (3, "Can only call functions and classes.".to_string())
    );
    assert_eq!(
        runtime_error(&outcome.reported[1]),
        (4, "Can only call functions and classes.".to_string())
    );
}

#[test]
fn callables_print_by_name() {
    let program = vec![
        funk("f", vec![], vec![]),
        class("Point", vec![]),
        print(variable("f")),
        print(variable("Point")),
        print(call(variable("Point"), vec![])),
        print(variable("clock")),
    ];
    assert_eq!(
        printed(program),
        vec!["<fn \"f\">", "<class \"Point\">", "<\"Point\" instance>", "<fn native>"]
    );
}

#[test]
fn a_function_without_return_gives_null() {
    let program = vec![
        funk("f", vec![], vec![]),
        print(call(variable("f"), vec![])),
        funk("g", vec![], vec![give(None)]),
        print(call(variable("g"), vec![])),
    ];
    assert_eq!(printed(program), vec!["null", "null"]);
}

#[test]
fn return_leaves_the_blocks_of_a_function() {
    // funk f(n) { while (true) { if (n > 2) { return n; } n = n + 1; } }
    let program = vec![
        funk(
            "f",
            vec!["n"],
            vec![repeat(
                boolean(true),
                block(vec![
                    when(
                        binary(variable("n"), TokenType::Greater, ">", number(2.0)),
                        block(vec![give(Some(variable("n")))]),
                        None,
                    ),
                    expression(assign(
                        "n",
                        binary(variable("n"), TokenType::Plus, "+", number(1.0)),
                    )),
                ]),
            )],
        ),
        print(call(variable("f"), vec![number(0.0)])),
        print(text("after")),
    ];
    assert_eq!(printed(program), vec!["3", "after"]);
}

#[test]
fn recursion_uses_a_fresh_frame_for_every_call() {
    // funk fib(n) { if (n < 2) return n; return fib(n - 1) + fib(n - 2); }
    let program = vec![
        funk(
            "fib",
            vec!["n"],
            vec![
                when(
                    binary(variable("n"), TokenType::Less, "<", number(2.0)),
                    give(Some(variable("n"))),
                    None,
                ),
                give(Some(binary(
                    call(
                        variable("fib"),
                        vec![binary(variable("n"), TokenType::Minus, "-", number(1.0))],
                    ),
                    TokenType::Plus,
                    "+",
                    call(
                        variable("fib"),
                        vec![binary(variable("n"), TokenType::Minus, "-", number(2.0))],
                    ),
                ))),
            ],
        ),
        print(call(variable("fib"), vec![number(10.0)])),
    ];
    assert_eq!(printed(program), vec!["55"]);
}

#[test]
fn a_function_sees_the_frame_it_was_declared_in() {
    // var a = "global"; { funk show() { print a; } show(); var a = "block"; show(); }
    let program = vec![
        var("a", Some(text("global"))),
        block(vec![
            funk("show", vec![], vec![print(variable("a"))]),
            expression(call(variable("show"), vec![])),
            var("a", Some(text("block"))),
            expression(call(variable("show"), vec![])),
        ]),
    ];
    assert_eq!(printed(program), vec!["global", "global"]);
}

#[test]
fn a_failure_in_a_block_ends_the_block_and_restores_the_frame() {
    // var a = "outer"; { var a = "inner"; print missing; print "skipped"; } print a;
    let program = vec![
        var("a", Some(text("outer"))),
        block(vec![
            var("a", Some(text("inner"))),
            print(variable("missing")),
            print(text("skipped")),
        ]),
        print(variable("a")),
    ];
    let outcome = run(program);
    assert_eq!(outcome.printed, vec!["outer"]);
    assert_eq!(outcome.reported.len(), 1);
    assert_eq!(
        runtime_error(&outcome.reported[0]),
        (1, "Undefined variable 'missing'".to_string())
    );
}

#[test]
fn a_failure_in_a_function_ends_the_call() {
    let program = vec![
        funk("f", vec![], vec![print(variable("missing")), print(text("skipped"))]),
        expression(call(variable("f"), vec![])),
        print(text("after")),
    ];
    let outcome = run(program);
    assert_eq!(outcome.printed, vec!["after"]);
    assert_eq!(outcome.reported.len(), 1);
}

#[test]
fn assignment_to_an_undefined_global_fails() {
    let program = vec![expression(assign("nowhere", number(1.0))), print(text("after"))];
    let outcome = run(program);
    assert_eq!(outcome.printed, vec!["after"]);
    assert_eq!(
        runtime_error(&outcome.reported[0]),
        (1, "Undefined variable 'nowhere'".to_string())
    );
}

#[test]
fn assignment_gives_the_assigned_value() {
    let program = vec![
        var("a", None),
        print(variable("a")),
        print(assign("a", number(4.0))),
        print(variable("a")),
    ];
    assert_eq!(printed(program), vec!["null", "4", "4"]);
}

#[test]
fn grouping_evaluates_its_expression() {
    let program = vec![print(binary(
        grouping(binary(number(1.0), TokenType::Plus, "+", number(2.0))),
        TokenType::Star,
        "*",
        number(3.0),
    ))];
    assert_eq!(printed(program), vec!["9"]);
}

#[test]
fn super_fails_without_a_superclass() {
    let program = vec![print(Expr::Super(Super {
        keyword: token_at(TokenType::Super, "super", 8),
        method: name("m"),
    }))];
    let outcome = run(program);
    assert_eq!(
        runtime_error(&outcome.reported[0]),
        (8, "Can't use 'super' in a class with no superclass.".to_string())
    );
}

#[test]
fn this_outside_a_class_is_undefined() {
    let program = vec![print(this())];
    let outcome = run(program);
    assert_eq!(runtime_error(&outcome.reported[0]), (1, "Undefined variable 'this'".to_string()));
}

#[test]
fn native_functions_are_called_through_the_host() {
    let program = vec![
        print(call(variable("len"), vec![text("four")])),
        print(call(variable("len"), vec![array(vec![number(1.0), number(2.0)])])),
        print(call(variable("len"), vec![variable("len")])),
        print(call(variable("len"), vec![number(1.0)])),
        print(call(variable("clock"), vec![])),
        print(call(variable("input"), vec![])),
        print(call(variable("sleep"), vec![number(0.0)])),
    ];
    assert_eq!(printed(program), vec!["4", "2", "1", "null", "1234.5", "typed", "null"]);
}

#[test]
fn a_failing_native_function_fails_the_call() {
    let program = vec![print(call(variable("sleep"), vec![text("long")])), print(text("after"))];
    let outcome = run(program);
    assert_eq!(outcome.printed, vec!["after"]);
    assert_eq!(
        runtime_error(&outcome.reported[0]),
        (0, "sleep only accepts a number as an argument".to_string())
    );
}

#[test]
fn a_native_function_checks_its_arity() {
    let program = vec![expression(call_at(variable("len"), 2, vec![]))];
    let outcome = run(program);
    assert_eq!(
        runtime_error(&outcome.reported[0]),
        (2, "Expected 1 arguments but found 0.".to_string())
    );
}

#[test]
fn a_registered_function_is_known_to_programs() {
    let program = Resolver::resolve(vec![print(call(variable("seven"), vec![]))]).unwrap();
    let mut machine = Interpreter::new();
    machine.register("seven".to_string(), 0, 77);
    assert!(machine.interpret(&program));
    let mut printed = Vec::new();
    let mut response = Response::Nothing;
    loop {
        match machine.step(response) {
            Action::Native { function, arguments } => {
                assert_eq!(function, 77);
                assert!(arguments.is_empty());
                response = Response::Native(Ok(LiteralType::Number(7f64.to_bits())));
                continue;
            }
            Action::Format(numbers) => {
                assert_eq!(numbers, vec![7f64.to_bits()]);
                response = Response::Texts(vec!["7".to_string()]);
                continue;
            }
            Action::Print(line) => printed.push(line),
            Action::Finished => break,
            _ => {}
        }
        response = Response::Nothing;
    }
    assert_eq!(printed, vec!["7"]);
}

#[test]
fn an_answer_of_the_wrong_kind_is_asked_again() {
    let program =
        Resolver::resolve(vec![print(binary(number(1.0), TokenType::Plus, "+", number(2.0)))])
            .unwrap();
    let mut machine = Interpreter::new();
    assert!(machine.interpret(&program));
    let mut action = machine.step(Response::Nothing);
    while matches!(action, Action::Continue) {
        action = machine.step(Response::Nothing);
    }
    assert!(matches!(action, Action::Arithmetic { operator: ArithmeticOperator::Add, .. }));
    // Texts do not answer arithmetic: the machine asks again.
    let again = machine.step(Response::Texts(vec![]));
    match again {
        Action::Arithmetic { operator, left, right } => {
            assert_eq!(operator, ArithmeticOperator::Add);
            assert_eq!(f64::from_bits(left), 1.0);
            assert_eq!(f64::from_bits(right), 2.0);
        }
        other => panic!("unexpected action: {:?}", other),
    }
    let mut next = machine.step(Response::Number(3f64.to_bits()));
    while matches!(next, Action::Continue) {
        next = machine.step(Response::Nothing);
    }
    // Too few texts do not answer a formatting either.
    assert!(matches!(next, Action::Format(_)));
    let repeated = machine.step(Response::Texts(vec![]));
    assert!(matches!(repeated, Action::Format(_)));
    let mut last = machine.step(Response::Texts(vec!["3".to_string()]));
    while matches!(last, Action::Continue) {
        last = machine.step(Response::Nothing);
    }
    match last {
        Action::Print(line) => assert_eq!(line, "3"),
        other => panic!("unexpected action: {:?}", other),
    }
}

#[test]
fn nothing_is_loaded_while_a_program_runs() {
    let first = Resolver::resolve(vec![print(text("one"))]).unwrap();
    let second = Resolver::resolve(vec![print(text("two"))]).unwrap();
    let mut machine = Interpreter::new();
    assert!(!machine.is_running());
    assert!(machine.interpret(&first));
    assert!(machine.is_running());
    assert!(!machine.interpret(&second));
    let mut outcome = Outcome { printed: Vec::new(), reported: Vec::new(), steps: 0 };
    drive(&mut machine, &mut outcome);
    assert_eq!(outcome.printed, vec!["one"]);
    assert!(machine.interpret(&second));
    drive(&mut machine, &mut outcome);
    assert_eq!(outcome.printed, vec!["one", "two"]);
}

#[test]
fn globals_outlive_a_program() {
    let first = Resolver::resolve(vec![
        var("kept", Some(number(5.0))),
        funk("twice", vec!["n"], vec![give(Some(binary(
            variable("n"),
            TokenType::Star,
            "*",
            number(2.0),
        )))]),
    ])
    .unwrap();
    let second =
        Resolver::resolve(vec![print(call(variable("twice"), vec![variable("kept")]))]).unwrap();
    let mut machine = Interpreter::new();
    let mut outcome = Outcome { printed: Vec::new(), reported: Vec::new(), steps: 0 };
    assert!(machine.interpret(&first));
    drive(&mut machine, &mut outcome);
    assert!(machine.interpret(&second));
    drive(&mut machine, &mut outcome);
    assert_eq!(outcome.printed, vec!["10"]);
    match machine.global(&"kept".to_string()) {
        Some(LiteralType::Number(bits)) => assert_eq!(f64::from_bits(bits), 5.0),
        other => panic!("unexpected value: {:?}", other),
    }
    assert!(machine.global(&"missing".to_string()).is_none());
    assert!(matches!(
        machine.global(&"twice".to_string()),
        Some(LiteralType::Callable(Callable::Function(0)))
    ));
}

#[test]
fn a_failure_at_the_top_level_is_noted_in_the_record() {
    let program = Resolver::resolve(vec![print(variable("missing"))]).unwrap();
    let mut machine = Interpreter::new();
    assert!(!machine.error_handler.had_runtime_error);
    assert!(machine.interpret(&program));
    let mut outcome = Outcome { printed: Vec::new(), reported: Vec::new(), steps: 0 };
    drive(&mut machine, &mut outcome);
    assert_eq!(outcome.reported.len(), 1);
    assert!(machine.error_handler.had_runtime_error);
    assert!(!machine.error_handler.had_error);
}

#[test]
fn a_return_at_the_top_level_ends_its_statement_silently() {
    // Such a program does not resolve; the evaluator is given it as it is.
    let program = vec![
        block(vec![give(Some(number(1.0))), print(text("skipped"))]),
        print(text("after")),
    ];
    let mut machine = Interpreter::new();
    assert!(machine.interpret(&program));
    let mut outcome = Outcome { printed: Vec::new(), reported: Vec::new(), steps: 0 };
    drive(&mut machine, &mut outcome);
    assert_eq!(outcome.printed, vec!["after"]);
    assert!(outcome.reported.is_empty());
}

#[test]
fn a_declaration_as_a_branch_may_leave_its_name_unbound() {
    // { if (false) var a = 1; print a; } -- no text spells this tree: a declaration is no
    // branch. Resolution counts on the declaration, the run skips it, and the reference
    // finds its frame without the name.
    let reference = Expr::Variable(Variable {
        name: token_at(TokenType::Identifier, "a", 6),
        distance: None,
    });
    let program = vec![block(vec![
        when(boolean(false), var("a", Some(number(1.0))), None),
        print(reference),
    ])];
    let outcome = run(program);
    assert!(outcome.printed.is_empty());
    assert_eq!(runtime_error(&outcome.reported[0]), (6, "Variable not found 'a'".to_string()));
    // Where the branch is taken, the name is bound.
    let program = vec![block(vec![
        when(boolean(true), var("a", Some(number(1.0))), None),
        print(variable("a")),
    ])];
    assert_eq!(printed(program), vec!["1"]);
}

#[test]
fn callables_are_called_directly() {
    let program = Resolver::resolve(vec![
        class("Point", vec![]),
        funk("f", vec!["a", "b"], vec![print(variable("b"))]),
    ])
    .unwrap();
    let mut machine = Interpreter::new();
    let mut outcome = Outcome { printed: Vec::new(), reported: Vec::new(), steps: 0 };
    assert!(machine.interpret(&program));
    drive(&mut machine, &mut outcome);
    let class = match machine.global(&"Point".to_string()) {
        Some(LiteralType::Callable(callable)) => callable,
        other => panic!("not a class: {:?}", other),
    };
    let function = match machine.global(&"f".to_string()) {
        Some(LiteralType::Callable(callable)) => callable,
        other => panic!("not a function: {:?}", other),
    };
    let length = match machine.global(&"len".to_string()) {
        Some(LiteralType::Callable(callable)) => callable,
        other => panic!("not a native function: {:?}", other),
    };
    assert_eq!(class.arity(&machine), Some(0));
    assert_eq!(function.arity(&machine), Some(2));
    assert_eq!(length.arity(&machine), Some(1));
    assert_eq!(Callable::Instance(0).arity(&machine), None);
    assert_eq!(Callable::Function(99).arity(&machine), None);
    assert_eq!(Callable::Class(99).arity(&machine), None);
    assert_eq!(machine.label_of(&class), "<class \"Point\">");
    assert_eq!(machine.label_of(&function), "<fn \"f\">");
    assert_eq!(machine.label_of(&Callable::Function(99)), "<unknown>");
    assert_eq!(machine.label_of(&Callable::Instance(99)), "<unknown>");

    // A class makes an instance, which is the result at once.
    assert!(matches!(class.call(&mut machine, vec![]), Action::Continue));
    assert!(matches!(machine.step(Response::Nothing), Action::Continue));
    assert_eq!(machine.label_of(&Callable::Instance(0)), "<\"Point\" instance>");

    // A native function is handed to the host with its arguments.
    match length.call(&mut machine, vec![LiteralType::String("abc".to_string())]) {
        Action::Native { function, arguments } => {
            assert_eq!(function, LEN);
            assert!(arguments[0].equals(&LiteralType::String("abc".to_string())));
        }
        other => panic!("unexpected action: {:?}", other),
    }
    assert!(matches!(
        machine.step(Response::Native(Ok(LiteralType::Null))),
        Action::Continue
    ));
    drive(&mut machine, &mut outcome);

    // A user function runs its body with the parameters bound to the arguments.
    let arguments = vec![LiteralType::Number(1f64.to_bits()), LiteralType::String("second".to_string())];
    assert!(matches!(function.call(&mut machine, arguments), Action::Continue));
    drive(&mut machine, &mut outcome);
    assert_eq!(outcome.printed, vec!["second"]);
}

#[test]
fn values_are_rendered_with_the_texts_of_their_numbers() {
    let machine = Interpreter::new();
    let value = LiteralType::Array(vec![
        LiteralType::Number(1f64.to_bits()),
        LiteralType::String("s".to_string()),
        LiteralType::Array(vec![LiteralType::Number(2f64.to_bits()), LiteralType::Bool(false)]),
        LiteralType::Number(3f64.to_bits()),
    ]);
    let found = jasn::interpreter::rendering::numbers(&value);
    assert_eq!(found, vec![1f64.to_bits(), 2f64.to_bits(), 3f64.to_bits()]);
    let texts = vec!["one".to_string(), "two".to_string(), "three".to_string()];
    assert_eq!(machine.render(&value, &texts), "[one, s, [two, nah], three]");
    assert_eq!(machine.render(&LiteralType::Null, &vec![]), "null");
    assert_eq!(machine.render(&LiteralType::Bool(true), &vec![]), "yeah");
    assert_eq!(jasn::interpreter::rendering::function_label("\"f\""), "<fn \"f\">");
    assert_eq!(jasn::interpreter::rendering::class_label("\"C\""), "<class \"C\">");
    assert_eq!(jasn::interpreter::rendering::instance_label("\"C\""), "<\"C\" instance>");
}

#[test]
fn names_are_quoted_with_escapes() {
    let mut machine = Interpreter::new();
    let odd = Function { name: name("q\"uote"), params: vec![], body: vec![] };
    let program = vec![Stmt::Function(odd), print(variable("q\"uote"))];
    let mut outcome = Outcome { printed: Vec::new(), reported: Vec::new(), steps: 0 };
    assert!(machine.interpret(&program));
    drive(&mut machine, &mut outcome);
    assert_eq!(outcome.printed, vec!["<fn \"q\\\"uote\">"]);
}
