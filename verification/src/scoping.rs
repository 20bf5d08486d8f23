//! The scoping rules of the language, stated over the syntax tree.
//!
//! Three things are defined here, each by recursion over the tree: when a program breaks
//! no scoping rule; what the tree looks like once every reference carries its scope
//! distance; and how the stack of scopes changes from one statement to the next.

use vstd::prelude::*;
use crate::callable::FunctionType;
use crate::expressions::Expr;
use crate::statements::{Function, Stmt};
use crate::token::Token;

verus! {

/// A stack of scopes, outermost first. Each scope maps the names declared in it to whether
/// their initializer has finished.
pub type Scopes = Seq<Map<Seq<char>, bool>>;

/// The stack after `name` has been declared in the innermost scope. With no scope on the
/// stack the name is global and nothing is recorded.
pub open spec fn declare_in(scopes: Scopes, name: Seq<char>) -> Scopes {
    if scopes.len() == 0 {
        scopes
    } else {
        scopes.update(scopes.len() - 1, scopes.last().insert(name, false))
    }
}

/// The stack after `name` has been marked ready in the innermost scope.
pub open spec fn define_in(scopes: Scopes, name: Seq<char>) -> Scopes {
    if scopes.len() == 0 {
        scopes
    } else {
        scopes.update(scopes.len() - 1, scopes.last().insert(name, true))
    }
}

/// A name may be declared unless the innermost scope already declares it.
pub open spec fn declarable(scopes: Scopes, name: Seq<char>) -> bool {
    scopes.len() == 0 || !scopes.last().contains_key(name)
}

/// A name may be read unless the innermost scope declares it and its initializer has not
/// finished.
pub open spec fn readable(scopes: Scopes, name: Seq<char>) -> bool {
    scopes.len() == 0 || !scopes.last().contains_key(name) || scopes.last()[name]
}

/// The number of scopes between the innermost scope and the nearest scope that declares
/// `name`; nothing where no scope on the stack declares it.
pub open spec fn innermost(scopes: Scopes, name: Seq<char>) -> Option<nat>
    decreases scopes.len(),
{
    if scopes.len() == 0 {
        None
    } else if scopes.last().contains_key(name) {
        Some(0)
    } else {
        match innermost(scopes.drop_last(), name) {
            Some(distance) => Some(distance + 1),
            None => None,
        }
    }
}

/// The distance that a reference to `name` is given.
pub open spec fn distance_of(scopes: Scopes, name: Seq<char>) -> Option<u64> {
    match innermost(scopes, name) {
        Some(distance) => Some(distance as u64),
        None => None,
    }
}

/// The scope that a function's parameters form.
pub open spec fn parameter_scope(params: Seq<Token>) -> Map<Seq<char>, bool>
    decreases params.len(),
{
    if params.len() == 0 {
        Map::empty()
    } else {
        parameter_scope(params.drop_last()).insert(params.last().lexeme@, true)
    }
}

/// No two parameters share a name.
pub open spec fn parameters_distinct(params: Seq<Token>) -> bool {
    forall|i: int, j: int|
        0 <= i < j < params.len() ==> (#[trigger] params[i]).lexeme@ != (
        #[trigger] params[j]).lexeme@
}

/// The scope that surrounds the methods of a class: it holds `this`.
pub open spec fn instance_scope() -> Map<Seq<char>, bool> {
    Map::<Seq<char>, bool>::empty().insert("this"@, true)
}

/// `output` is `input` with the scope distance of every reference filled in, and is
/// otherwise the same tree.
pub open spec fn expr_resolved(input: Expr, output: Expr, scopes: Scopes) -> bool
    decreases input,
{
    match (input, output) {
        (Expr::Assign(a), Expr::Assign(b)) => b.name == a.name && b.distance == distance_of(
            scopes,
            a.name.lexeme@,
        ) && expr_resolved(a.value, b.value, scopes),
        (Expr::Binary(a), Expr::Binary(b)) => b.operator == a.operator && expr_resolved(
            a.left,
            b.left,
            scopes,
        ) && expr_resolved(a.right, b.right, scopes),
        (Expr::Call(a), Expr::Call(b)) => b.paren == a.paren && expr_resolved(
            a.callee,
            b.callee,
            scopes,
        ) && b.arguments.len() == a.arguments.len() && forall|i: int|
            0 <= i < a.arguments.len() ==> expr_resolved(
                #[trigger] a.arguments[i],
                b.arguments[i],
                scopes,
            ),
        (Expr::Get(a), Expr::Get(b)) => b.name == a.name && expr_resolved(
            a.object,
            b.object,
            scopes,
        ),
        (Expr::SetExpr(a), Expr::SetExpr(b)) => b.name == a.name && expr_resolved(
            a.object,
            b.object,
            scopes,
        ) && expr_resolved(a.value, b.value, scopes),
        (Expr::Grouping(a), Expr::Grouping(b)) => expr_resolved(
            a.expression,
            b.expression,
            scopes,
        ),
        (Expr::Array(a), Expr::Array(b)) => b.values.len() == a.values.len() && forall|i: int|
            0 <= i < a.values.len() ==> expr_resolved(#[trigger] a.values[i], b.values[i], scopes),
        (Expr::Index(a), Expr::Index(b)) => b.bracket == a.bracket && expr_resolved(
            a.object,
            b.object,
            scopes,
        ) && expr_resolved(a.index, b.index, scopes),
        (Expr::AssignIndex(a), Expr::AssignIndex(b)) => b.bracket == a.bracket && expr_resolved(
            a.object,
            b.object,
            scopes,
        ) && expr_resolved(a.index, b.index, scopes) && expr_resolved(
            a.value,
            b.value,
            scopes,
        ),
        (Expr::Literal(a), Expr::Literal(b)) => b == a,
        (Expr::Logical(a), Expr::Logical(b)) => b.operator == a.operator && expr_resolved(
            a.left,
            b.left,
            scopes,
        ) && expr_resolved(a.right, b.right, scopes),
        (Expr::Super(a), Expr::Super(b)) => b == a,
        (Expr::This(a), Expr::This(b)) => b.keyword == a.keyword && b.distance == distance_of(
            scopes,
            a.keyword.lexeme@,
        ),
        (Expr::Unary(a), Expr::Unary(b)) => b.operator == a.operator && expr_resolved(
            a.right,
            b.right,
            scopes,
        ),
        (Expr::Variable(a), Expr::Variable(b)) => b.name == a.name && b.distance == distance_of(
            scopes,
            a.name.lexeme@,
        ),
        _ => false,
    }
}

/// The stack of scopes after a statement, given the stack before it. Declarations add
/// their name to the innermost scope; a block leaves the stack as it found it.
pub open spec fn scopes_after(stmt: Stmt, scopes: Scopes) -> Scopes
    decreases stmt,
{
    match stmt {
        Stmt::Class(s) => define_in(scopes, s.name.lexeme@),
        Stmt::Function(s) => define_in(scopes, s.name.lexeme@),
        Stmt::Variable(s) => define_in(scopes, s.name.lexeme@),
        Stmt::If(s) => match s.else_branch {
            Some(otherwise) => scopes_after(otherwise, scopes_after(s.then_branch, scopes)),
            None => scopes_after(s.then_branch, scopes),
        },
        Stmt::While(s) => scopes_after(s.body, scopes),
        _ => scopes,
    }
}

/// The stack of scopes before statement `at` of a sequence, given the stack before the
/// first.
pub open spec fn scopes_before(statements: Seq<Stmt>, at: int, scopes: Scopes) -> Scopes
    decreases at,
{
    if at <= 0 || at > statements.len() {
        scopes
    } else {
        scopes_after(statements[at - 1], scopes_before(statements, at - 1, scopes))
    }
}

/// `output` is the statement `input` with the scope distance of every reference filled
/// in, and is otherwise the same tree.
pub open spec fn stmt_resolved(input: Stmt, output: Stmt, scopes: Scopes) -> bool
    decreases input, 0nat,
{
    match (input, output) {
        (Stmt::Block(a), Stmt::Block(b)) => block_resolved(
            a.statements@,
            b.statements@,
            scopes.push(Map::empty()),
        ),
        (Stmt::Class(a), Stmt::Class(b)) => b.name == a.name && methods_resolved(
            a.methods@,
            b.methods@,
            define_in(scopes, a.name.lexeme@).push(instance_scope()),
        ),
        (Stmt::Expression(a), Stmt::Expression(b)) => expr_resolved(
            a.expression,
            b.expression,
            scopes,
        ),
        (Stmt::Function(a), Stmt::Function(b)) => function_resolved(
            a,
            b,
            define_in(scopes, a.name.lexeme@),
        ),
        (Stmt::If(a), Stmt::If(b)) => expr_resolved(a.condition, b.condition, scopes)
            && stmt_resolved(a.then_branch, b.then_branch, scopes) && match (
            a.else_branch,
            b.else_branch,
        ) {
            (Some(x), Some(y)) => stmt_resolved(x, y, scopes_after(a.then_branch, scopes)),
            (None, None) => true,
            _ => false,
        },
        (Stmt::Print(a), Stmt::Print(b)) => expr_resolved(a.expression, b.expression, scopes),
        (Stmt::Return(a), Stmt::Return(b)) => b.keyword == a.keyword && match (a.value, b.value) {
            (Some(x), Some(y)) => expr_resolved(x, y, scopes),
            (None, None) => true,
            _ => false,
        },
        (Stmt::Variable(a), Stmt::Variable(b)) => b.name == a.name && match (
            a.initializer,
            b.initializer,
        ) {
            (Some(x), Some(y)) => expr_resolved(x, y, declare_in(scopes, a.name.lexeme@)),
            (None, None) => true,
            _ => false,
        },
        (Stmt::While(a), Stmt::While(b)) => expr_resolved(a.condition, b.condition, scopes)
            && stmt_resolved(a.body, b.body, scopes),
        _ => false,
    }
}

/// `outputs` is the sequence `inputs` with every statement resolved, each with the scopes
/// that the statements before it leave.
pub open spec fn block_resolved(inputs: Seq<Stmt>, outputs: Seq<Stmt>, scopes: Scopes) -> bool
    decreases inputs, 0nat,
{
    outputs.len() == inputs.len() && forall|at: int|
        0 <= at < inputs.len() ==> stmt_resolved(
            #[trigger] inputs[at],
            outputs[at],
            scopes_before(inputs, at, scopes),
        )
}

/// `output` is the function `input` with its body resolved in a scope that holds the
/// parameters.
pub open spec fn function_resolved(input: Function, output: Function, scopes: Scopes) -> bool
    decreases input, 0nat,
{
    output.name == input.name && output.params == input.params && block_resolved(
        input.body@,
        output.body@,
        scopes.push(parameter_scope(input.params@)),
    )
}

/// `outputs` is the method list `inputs` with every method resolved.
pub open spec fn methods_resolved(inputs: Seq<Function>, outputs: Seq<Function>, scopes: Scopes) -> bool
    decreases inputs, 0nat,
{
    outputs.len() == inputs.len() && forall|i: int|
        0 <= i < inputs.len() ==> function_resolved(#[trigger] inputs[i], outputs[i], scopes)
}

/// The names of the parameter scope are the names of the parameters.
pub proof fn lemma_parameter_scope(params: Seq<Token>, name: Seq<char>)
    ensures
        parameter_scope(params).contains_key(name) <==> exists|i: int|
            0 <= i < params.len() && (#[trigger] params[i]).lexeme@ == name,
        parameter_scope(params).contains_key(name) ==> parameter_scope(params)[name],
    decreases params.len(),
{
    if params.len() > 0 {
        lemma_parameter_scope(params.drop_last(), name);
        if parameter_scope(params).contains_key(name) {
            if params.last().lexeme@ == name {
                assert(params[params.len() - 1].lexeme@ == name);
            } else {
                let i = choose|i: int|
                    0 <= i < params.drop_last().len() && (#[trigger] params.drop_last()[i]).lexeme@
                        == name;
                assert(params[i].lexeme@ == name);
            }
        }
        if exists|i: int| 0 <= i < params.len() && (#[trigger] params[i]).lexeme@ == name {
            let i = choose|i: int| 0 <= i < params.len() && (#[trigger] params[i]).lexeme@ == name;
            if i < params.len() - 1 {
                assert(params.drop_last()[i].lexeme@ == name);
            }
        }
    }
}

/// A broken scoping rule: the token that breaks it, by its text and its line, and the
/// message of the rule.
pub struct Violation {
    pub lexeme: Seq<char>,
    pub line: u32,
    pub message: Seq<char>,
}

/// The message for a name declared twice in one scope.
pub open spec fn duplicate_declaration_message() -> Seq<char> {
    "There's already a variable with this name in this scope."@
}

/// The message for a variable read inside its own initializer.
pub open spec fn self_reference_message() -> Seq<char> {
    "Can't read local variables in its own initializer."@
}

/// The message for a `return` outside every function.
pub open spec fn top_level_return_message() -> Seq<char> {
    "Can't return from top-level code."@
}

/// The violation of declaring `name` a second time in its scope.
pub open spec fn duplicate(name: Token) -> Violation {
    Violation { lexeme: name.lexeme@, line: name.line, message: duplicate_declaration_message() }
}

/// The violation of reading `name` inside the initializer of the variable it names.
pub open spec fn self_reference(name: Token) -> Violation {
    Violation { lexeme: name.lexeme@, line: name.line, message: self_reference_message() }
}

/// The first violation of two that come in order.
pub open spec fn first_of(first: Option<Violation>, second: Option<Violation>) -> Option<Violation> {
    match first {
        Some(violation) => Some(violation),
        None => second,
    }
}

/// The first violation in an expression, in the order in which its parts are resolved:
/// operands from left to right, the callee before the arguments, the value of an
/// assignment before its target.
pub open spec fn expr_violation(expr: Expr, scopes: Scopes) -> Option<Violation>
    decreases expr, 0nat,
{
    match expr {
        Expr::Assign(e) => expr_violation(e.value, scopes),
        Expr::Binary(e) => first_of(
            expr_violation(e.left, scopes),
            expr_violation(e.right, scopes),
        ),
        Expr::Call(e) => first_of(
            expr_violation(e.callee, scopes),
            exprs_violation(e.arguments@, 0, scopes),
        ),
        Expr::Get(e) => expr_violation(e.object, scopes),
        Expr::SetExpr(e) => first_of(
            expr_violation(e.object, scopes),
            expr_violation(e.value, scopes),
        ),
        Expr::Grouping(e) => expr_violation(e.expression, scopes),
        Expr::Array(e) => exprs_violation(e.values@, 0, scopes),
        Expr::Index(e) => first_of(
            expr_violation(e.object, scopes),
            expr_violation(e.index, scopes),
        ),
        Expr::AssignIndex(e) => first_of(
            expr_violation(e.object, scopes),
            first_of(expr_violation(e.index, scopes), expr_violation(e.value, scopes)),
        ),
        Expr::Literal(_) => None,
        Expr::Logical(e) => first_of(
            expr_violation(e.left, scopes),
            expr_violation(e.right, scopes),
        ),
        Expr::Super(_) => None,
        Expr::This(e) => if readable(scopes, e.keyword.lexeme@) {
            None
        } else {
            Some(self_reference(e.keyword))
        },
        Expr::Unary(e) => expr_violation(e.right, scopes),
        Expr::Variable(e) => if readable(scopes, e.name.lexeme@) {
            None
        } else {
            Some(self_reference(e.name))
        },
    }
}

/// The first violation in the expressions of a list from `from` on.
pub open spec fn exprs_violation(exprs: Seq<Expr>, from: int, scopes: Scopes) -> Option<Violation>
    decreases exprs, exprs.len() - from,
{
    if from < 0 || from >= exprs.len() {
        None
    } else {
        first_of(expr_violation(exprs[from], scopes), exprs_violation(exprs, from + 1, scopes))
    }
}

/// The first parameter from `from` on that has the name of an earlier one.
pub open spec fn parameter_violation(params: Seq<Token>, from: int) -> Option<Violation>
    decreases params.len() - from,
{
    if from < 0 || from >= params.len() {
        None
    } else if parameter_scope(params.take(from)).contains_key(params[from].lexeme@) {
        Some(duplicate(params[from]))
    } else {
        parameter_violation(params, from + 1)
    }
}

/// The first violation in a statement, in the order in which its parts are resolved.
pub open spec fn stmt_violation(stmt: Stmt, scopes: Scopes, kind: FunctionType) -> Option<Violation>
    decreases stmt, 0nat,
{
    match stmt {
        Stmt::Block(s) => block_violation(s.statements@, 0, scopes.push(Map::empty()), kind),
        Stmt::Class(s) => if !declarable(scopes, s.name.lexeme@) {
            Some(duplicate(s.name))
        } else {
            methods_violation(
                s.methods@,
                0,
                define_in(scopes, s.name.lexeme@).push(instance_scope()),
            )
        },
        Stmt::Expression(s) => expr_violation(s.expression, scopes),
        Stmt::Function(s) => if !declarable(scopes, s.name.lexeme@) {
            Some(duplicate(s.name))
        } else {
            function_violation(s, define_in(scopes, s.name.lexeme@), FunctionType::Function)
        },
        Stmt::If(s) => first_of(
            expr_violation(s.condition, scopes),
            first_of(
                stmt_violation(s.then_branch, scopes, kind),
                match s.else_branch {
                    Some(otherwise) => stmt_violation(
                        otherwise,
                        scopes_after(s.then_branch, scopes),
                        kind,
                    ),
                    None => None,
                },
            ),
        ),
        Stmt::Print(s) => expr_violation(s.expression, scopes),
        Stmt::Return(s) => if kind == FunctionType::NoFunction {
            Some(
                Violation {
                    lexeme: s.keyword.lexeme@,
                    line: s.keyword.line,
                    message: top_level_return_message(),
                },
            )
        } else {
            match s.value {
                Some(value) => expr_violation(value, scopes),
                None => None,
            }
        },
        Stmt::Variable(s) => if !declarable(scopes, s.name.lexeme@) {
            Some(duplicate(s.name))
        } else {
            match s.initializer {
                Some(initializer) => expr_violation(
                    initializer,
                    declare_in(scopes, s.name.lexeme@),
                ),
                None => None,
            }
        },
        Stmt::While(s) => first_of(
            expr_violation(s.condition, scopes),
            stmt_violation(s.body, scopes, kind),
        ),
    }
}

/// The first violation in the statements of a sequence from `from` on, where the
/// statements before it break no rule.
pub open spec fn block_violation(statements: Seq<Stmt>, from: int, scopes: Scopes, kind: FunctionType) -> Option<
    Violation,
>
    decreases statements, statements.len() - from,
{
    if from < 0 || from >= statements.len() {
        None
    } else {
        first_of(
            stmt_violation(statements[from], scopes, kind),
            block_violation(statements, from + 1, scopes_after(statements[from], scopes), kind),
        )
    }
}

/// The first violation in a function: in its parameters, or else in its body.
pub open spec fn function_violation(function: Function, scopes: Scopes, kind: FunctionType) -> Option<
    Violation,
>
    decreases function, 0nat,
{
    first_of(
        parameter_violation(function.params@, 0),
        block_violation(
            function.body@,
            0,
            scopes.push(parameter_scope(function.params@)),
            kind,
        ),
    )
}

/// The first violation in the methods of a class from `from` on.
pub open spec fn methods_violation(methods: Seq<Function>, from: int, scopes: Scopes) -> Option<
    Violation,
>
    decreases methods, methods.len() - from,
{
    if from < 0 || from >= methods.len() {
        None
    } else {
        first_of(
            function_violation(methods[from], scopes, FunctionType::Method),
            methods_violation(methods, from + 1, scopes),
        )
    }
}

/// An expression breaks no scoping rule: no name is read inside the initializer of the
/// variable that declares it.
pub open spec fn expr_valid(expr: Expr, scopes: Scopes) -> bool {
    expr_violation(expr, scopes) is None
}

/// A statement breaks no scoping rule. The rules: a name is declared at most once in a
/// scope; a variable is not read inside its own initializer; `return` stands inside a
/// function.
pub open spec fn stmt_valid(stmt: Stmt, scopes: Scopes, kind: FunctionType) -> bool {
    stmt_violation(stmt, scopes, kind) is None
}

/// Every statement of a sequence breaks no scoping rule, each taken with the scopes that
/// the statements before it leave.
pub open spec fn block_valid(statements: Seq<Stmt>, scopes: Scopes, kind: FunctionType) -> bool {
    block_violation(statements, 0, scopes, kind) is None
}

/// A function breaks no scoping rule: its parameters have distinct names, and its body is
/// valid in a scope of its own that holds the parameters.
pub open spec fn function_valid(function: Function, scopes: Scopes, kind: FunctionType) -> bool {
    function_violation(function, scopes, kind) is None
}

/// A variable whose initializer reads the variable itself is rejected wherever it is
/// declared in a local scope that does not declare the name yet: the statement is not
/// valid, whatever the scopes hold and whatever function it stands in, and its violation
/// is the read of the name inside its own initializer. Where the scope declares the name
/// already, the statement is rejected as a second declaration.
pub proof fn lemma_self_reference_is_invalid(stmt: Stmt, scopes: Scopes, kind: FunctionType)
    requires
        scopes.len() > 0,
        stmt matches Stmt::Variable(declaration) && (declaration.initializer matches Some(
            Expr::Variable(reference),
        ) && reference.name.lexeme@ == declaration.name.lexeme@),
    ensures
        !stmt_valid(stmt, scopes, kind),
        stmt_violation(stmt, scopes, kind) is Some,
        stmt matches Stmt::Variable(declaration) && (declaration.initializer matches Some(
            Expr::Variable(reference),
        ) && stmt_violation(stmt, scopes, kind) == Some(
            if declarable(scopes, declaration.name.lexeme@) {
                self_reference(reference.name)
            } else {
                duplicate(declaration.name)
            },
        )),
{
}

} // verus!
