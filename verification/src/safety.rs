//! When a resolved program can run without a reference missing its frame.
//!
//! A reference with scope distance `d` is safe under a stack of name sets when the set `d`
//! places from the innermost holds the name. The stack stands for the chain of frames that
//! is current when the reference is evaluated. Safety only asks for names to be present,
//! so it survives every growth of the frames.

use vstd::prelude::*;
use crate::environment::Environment;
use crate::expressions::Expr;
use crate::scoping::{
    Scopes, declare_in, define_in, innermost, instance_scope, lemma_parameter_scope,
    parameter_scope, scopes_after,
};
use crate::statements::{Function, Stmt};
use crate::token::Token;

verus! {

/// A stack of scopes, outermost first, each given by the names it holds.
pub type Names = Seq<Set<Seq<char>>>;

/// A reference is safe where it has no distance, or where its distance leads to a scope
/// that holds its name.
pub open spec fn reference_safe(distance: Option<u64>, name: Seq<char>, names: Names) -> bool {
    match distance {
        Some(d) => d < names.len() && names[names.len() - 1 - d].contains(name),
        None => true,
    }
}

/// The target of an assignment is safe where it has no distance, or where its distance
/// leads to a scope of the stack: assignment binds the name where it is not bound yet.
pub open spec fn target_safe(distance: Option<u64>, names: Names) -> bool {
    match distance {
        Some(d) => d < names.len(),
        None => true,
    }
}

/// Every reference in the expression is safe.
pub open spec fn expr_safe(expr: Expr, names: Names) -> bool
    decreases expr,
{
    match expr {
        Expr::Assign(e) => target_safe(e.distance, names) && expr_safe(e.value, names),
        Expr::Binary(e) => expr_safe(e.left, names) && expr_safe(e.right, names),
        Expr::Call(e) => expr_safe(e.callee, names) && forall|i: int|
            0 <= i < e.arguments.len() ==> expr_safe(#[trigger] e.arguments[i], names),
        Expr::Get(e) => expr_safe(e.object, names),
        Expr::SetExpr(e) => expr_safe(e.object, names) && expr_safe(e.value, names),
        Expr::Grouping(e) => expr_safe(e.expression, names),
        Expr::Array(e) => forall|i: int|
            0 <= i < e.values.len() ==> expr_safe(#[trigger] e.values[i], names),
        Expr::Index(e) => expr_safe(e.object, names) && expr_safe(e.index, names),
        Expr::AssignIndex(e) => expr_safe(e.object, names) && expr_safe(e.index, names)
            && expr_safe(e.value, names),
        Expr::Literal(_) => true,
        Expr::Logical(e) => expr_safe(e.left, names) && expr_safe(e.right, names),
        Expr::Super(_) => true,
        Expr::This(e) => reference_safe(e.distance, e.keyword.lexeme@, names),
        Expr::Unary(e) => expr_safe(e.right, names),
        Expr::Variable(e) => reference_safe(e.distance, e.name.lexeme@, names),
    }
}

/// A statement that declares no name in the scope it stands in.
pub open spec fn simple(stmt: Stmt) -> bool {
    !(stmt is Variable) && !(stmt is Function) && !(stmt is Class)
}

/// The stack with `name` added to the innermost scope. With no scope on the stack the
/// name is global and the stack stays empty.
pub open spec fn add_name(names: Names, name: Seq<char>) -> Names {
    if names.len() == 0 {
        names
    } else {
        names.update(names.len() - 1, names.last().insert(name))
    }
}

/// The stack after a statement that stands directly in a sequence.
pub open spec fn add_declared(names: Names, stmt: Stmt) -> Names {
    match stmt {
        Stmt::Class(s) => add_name(names, s.name.lexeme@),
        Stmt::Function(s) => add_name(names, s.name.lexeme@),
        Stmt::Variable(s) => add_name(names, s.name.lexeme@),
        _ => names,
    }
}

/// The names of the first `count` parameters.
pub open spec fn parameter_names(params: Seq<Token>, count: int) -> Set<Seq<char>>
    decreases count,
{
    if count <= 0 || count > params.len() {
        Set::empty()
    } else {
        parameter_names(params, count - 1).insert(params[count - 1].lexeme@)
    }
}

/// The scope that surrounds a method: it holds `this`.
pub open spec fn instance_names() -> Set<Seq<char>> {
    Set::<Seq<char>>::empty().insert("this"@)
}

/// Every reference in the statement is safe, and declarations stand only where a sequence
/// of statements holds them: the branch of an `if` and the body of a `while` are simple.
pub open spec fn stmt_safe(stmt: Stmt, names: Names) -> bool
    decreases stmt, 0nat,
{
    match stmt {
        Stmt::Block(s) => block_safe(s.statements@, 0, names.push(Set::empty())),
        Stmt::Class(s) => forall|i: int|
            0 <= i < s.methods.len() ==> function_safe(
                #[trigger] s.methods[i],
                add_name(names, s.name.lexeme@).push(instance_names()),
            ),
        Stmt::Expression(s) => expr_safe(s.expression, names),
        Stmt::Function(s) => function_safe(s, add_name(names, s.name.lexeme@)),
        Stmt::If(s) => expr_safe(s.condition, names) && simple(s.then_branch) && stmt_safe(
            s.then_branch,
            names,
        ) && match s.else_branch {
            Some(otherwise) => simple(otherwise) && stmt_safe(otherwise, names),
            None => true,
        },
        Stmt::Print(s) => expr_safe(s.expression, names),
        Stmt::Return(s) => match s.value {
            Some(value) => expr_safe(value, names),
            None => true,
        },
        Stmt::Variable(s) => match s.initializer {
            Some(initializer) => expr_safe(initializer, names),
            None => true,
        },
        Stmt::While(s) => expr_safe(s.condition, names) && simple(s.body) && stmt_safe(
            s.body,
            names,
        ),
    }
}

/// The statements of a sequence from `from` on are safe, each under the names that the
/// statements before it have added.
pub open spec fn block_safe(statements: Seq<Stmt>, from: int, names: Names) -> bool
    decreases statements, statements.len() - from,
{
    if from < 0 || from >= statements.len() {
        true
    } else {
        stmt_safe(statements[from], names) && block_safe(
            statements,
            from + 1,
            add_declared(names, statements[from]),
        )
    }
}

/// The body of the function is safe in a scope of its own that holds the parameters.
pub open spec fn function_safe(function: Function, names: Names) -> bool
    decreases function, 0nat,
{
    block_safe(
        function.body@,
        0,
        names.push(parameter_names(function.params@, function.params@.len() as int)),
    )
}

/// The second stack has the depth of the first, and each of its scopes holds at least the
/// names of the scope below it in the first.
pub open spec fn names_grow(before: Names, after: Names) -> bool {
    after.len() == before.len() && forall|i: int|
        0 <= i < before.len() ==> (#[trigger] before[i]).subset_of(after[i])
}

/// Safety of an expression survives the growth of the scopes.
pub proof fn lemma_expr_safe_grows(expr: Expr, before: Names, after: Names)
    requires
        expr_safe(expr, before),
        names_grow(before, after),
    ensures
        expr_safe(expr, after),
    decreases expr,
{
    match expr {
        Expr::Assign(e) => {
            lemma_expr_safe_grows(e.value, before, after);
        },
        Expr::Binary(e) => {
            lemma_expr_safe_grows(e.left, before, after);
            lemma_expr_safe_grows(e.right, before, after);
        },
        Expr::Call(e) => {
            lemma_expr_safe_grows(e.callee, before, after);
            assert forall|i: int| 0 <= i < e.arguments.len() implies expr_safe(
                #[trigger] e.arguments[i],
                after,
            ) by {
                lemma_expr_safe_grows(e.arguments[i], before, after);
            }
        },
        Expr::Get(e) => {
            lemma_expr_safe_grows(e.object, before, after);
        },
        Expr::SetExpr(e) => {
            lemma_expr_safe_grows(e.object, before, after);
            lemma_expr_safe_grows(e.value, before, after);
        },
        Expr::Grouping(e) => {
            lemma_expr_safe_grows(e.expression, before, after);
        },
        Expr::Array(e) => {
            assert forall|i: int| 0 <= i < e.values.len() implies expr_safe(
                #[trigger] e.values[i],
                after,
            ) by {
                lemma_expr_safe_grows(e.values[i], before, after);
            }
        },
        Expr::Index(e) => {
            lemma_expr_safe_grows(e.object, before, after);
            lemma_expr_safe_grows(e.index, before, after);
        },
        Expr::AssignIndex(e) => {
            lemma_expr_safe_grows(e.object, before, after);
            lemma_expr_safe_grows(e.index, before, after);
            lemma_expr_safe_grows(e.value, before, after);
        },
        Expr::Literal(_) => {},
        Expr::Logical(e) => {
            lemma_expr_safe_grows(e.left, before, after);
            lemma_expr_safe_grows(e.right, before, after);
        },
        Expr::Super(_) => {},
        Expr::This(e) => {
            lemma_reference_safe_grows(e.distance, e.keyword.lexeme@, before, after);
        },
        Expr::Unary(e) => {
            lemma_expr_safe_grows(e.right, before, after);
        },
        Expr::Variable(e) => {
            lemma_reference_safe_grows(e.distance, e.name.lexeme@, before, after);
        },
    }
}

/// Safety of a reference survives the growth of the scopes.
pub proof fn lemma_reference_safe_grows(
    distance: Option<u64>,
    name: Seq<char>,
    before: Names,
    after: Names,
)
    requires
        reference_safe(distance, name, before),
        names_grow(before, after),
    ensures
        reference_safe(distance, name, after),
{
    match distance {
        Some(d) => {
            let at = before.len() - 1 - d;
            assert(before[at].subset_of(after[at]));
        },
        None => {},
    }
}

/// Growth survives a declaration made on both sides.
pub proof fn lemma_add_name_grows(before: Names, after: Names, name: Seq<char>)
    requires
        names_grow(before, after),
    ensures
        names_grow(add_name(before, name), add_name(after, name)),
{
    if before.len() > 0 {
        let last = before.len() - 1;
        assert(before[last].subset_of(after[last]));
        assert forall|i: int| 0 <= i < before.len() implies (#[trigger] add_name(
            before,
            name,
        )[i]).subset_of(add_name(after, name)[i]) by {
            assert(before[i].subset_of(after[i]));
        }
    }
}

/// Growth survives a scope pushed on both sides.
pub proof fn lemma_push_grows(before: Names, after: Names, scope: Set<Seq<char>>)
    requires
        names_grow(before, after),
    ensures
        names_grow(before.push(scope), after.push(scope)),
{
    assert forall|i: int| 0 <= i < before.push(scope).len() implies (#[trigger] before.push(
        scope,
    )[i]).subset_of(after.push(scope)[i]) by {
        if i < before.len() {
            assert(before[i].subset_of(after[i]));
        }
    }
}

/// Safety of a statement survives the growth of the scopes.
pub proof fn lemma_stmt_safe_grows(stmt: Stmt, before: Names, after: Names)
    requires
        stmt_safe(stmt, before),
        names_grow(before, after),
    ensures
        stmt_safe(stmt, after),
    decreases stmt, 0nat,
{
    match stmt {
        Stmt::Block(s) => {
            lemma_push_grows(before, after, Set::empty());
            lemma_block_safe_grows(s.statements@, 0, before.push(Set::empty()), after.push(Set::empty()));
        },
        Stmt::Class(s) => {
            lemma_add_name_grows(before, after, s.name.lexeme@);
            lemma_push_grows(
                add_name(before, s.name.lexeme@),
                add_name(after, s.name.lexeme@),
                instance_names(),
            );
            assert forall|i: int| 0 <= i < s.methods.len() implies function_safe(
                #[trigger] s.methods[i],
                add_name(after, s.name.lexeme@).push(instance_names()),
            ) by {
                lemma_function_safe_grows(
                    s.methods[i],
                    add_name(before, s.name.lexeme@).push(instance_names()),
                    add_name(after, s.name.lexeme@).push(instance_names()),
                );
            }
        },
        Stmt::Expression(s) => {
            lemma_expr_safe_grows(s.expression, before, after);
        },
        Stmt::Function(s) => {
            lemma_add_name_grows(before, after, s.name.lexeme@);
            lemma_function_safe_grows(
                s,
                add_name(before, s.name.lexeme@),
                add_name(after, s.name.lexeme@),
            );
        },
        Stmt::If(s) => {
            lemma_expr_safe_grows(s.condition, before, after);
            lemma_stmt_safe_grows(s.then_branch, before, after);
            match s.else_branch {
                Some(otherwise) => {
                    lemma_stmt_safe_grows(otherwise, before, after);
                },
                None => {},
            }
        },
        Stmt::Print(s) => {
            lemma_expr_safe_grows(s.expression, before, after);
        },
        Stmt::Return(s) => {
            match s.value {
                Some(value) => {
                    lemma_expr_safe_grows(value, before, after);
                },
                None => {},
            }
        },
        Stmt::Variable(s) => {
            match s.initializer {
                Some(initializer) => {
                    lemma_expr_safe_grows(initializer, before, after);
                },
                None => {},
            }
        },
        Stmt::While(s) => {
            lemma_expr_safe_grows(s.condition, before, after);
            lemma_stmt_safe_grows(s.body, before, after);
        },
    }
}

/// Safety of a sequence of statements survives the growth of the scopes.
pub proof fn lemma_block_safe_grows(statements: Seq<Stmt>, from: int, before: Names, after: Names)
    requires
        block_safe(statements, from, before),
        names_grow(before, after),
    ensures
        block_safe(statements, from, after),
    decreases statements, statements.len() - from,
{
    if 0 <= from < statements.len() {
        let stmt = statements[from];
        lemma_stmt_safe_grows(stmt, before, after);
        match stmt {
            Stmt::Class(s) => {
                lemma_add_name_grows(before, after, s.name.lexeme@);
            },
            Stmt::Function(s) => {
                lemma_add_name_grows(before, after, s.name.lexeme@);
            },
            Stmt::Variable(s) => {
                lemma_add_name_grows(before, after, s.name.lexeme@);
            },
            _ => {},
        }
        lemma_block_safe_grows(
            statements,
            from + 1,
            add_declared(before, stmt),
            add_declared(after, stmt),
        );
    }
}

/// Safety of a function survives the growth of the scopes.
pub proof fn lemma_function_safe_grows(function: Function, before: Names, after: Names)
    requires
        function_safe(function, before),
        names_grow(before, after),
    ensures
        function_safe(function, after),
    decreases function, 0nat,
{
    let params = parameter_names(function.params@, function.params@.len() as int);
    lemma_push_grows(before, after, params);
    lemma_block_safe_grows(function.body@, 0, before.push(params), after.push(params));
}

/// Declarations stand only where a sequence of statements holds them: in a block, in the
/// body of a function, or at the top level. The branch of an `if` and the body of a `while`
/// are simple statements.
pub open spec fn stmt_structured(stmt: Stmt) -> bool
    decreases stmt, 0nat,
{
    match stmt {
        Stmt::Block(s) => block_structured(s.statements@),
        Stmt::Class(s) => forall|i: int|
            0 <= i < s.methods.len() ==> block_structured((#[trigger] s.methods[i]).body@),
        Stmt::Function(s) => block_structured(s.body@),
        Stmt::If(s) => simple(s.then_branch) && stmt_structured(s.then_branch) && match s.else_branch {
            Some(otherwise) => simple(otherwise) && stmt_structured(otherwise),
            None => true,
        },
        Stmt::While(s) => simple(s.body) && stmt_structured(s.body),
        _ => true,
    }
}

/// Every statement of the sequence is structured.
pub open spec fn block_structured(statements: Seq<Stmt>) -> bool
    decreases statements, 0nat,
{
    forall|i: int| 0 <= i < statements.len() ==> stmt_structured(#[trigger] statements[i])
}

/// Whether a statement declares no name in the scope it stands in.
pub fn is_simple(stmt: &Stmt) -> (r: bool)
    ensures
        r == simple(*stmt),
{
    match stmt {
        Stmt::Variable(_) => false,
        Stmt::Function(_) => false,
        Stmt::Class(_) => false,
        _ => true,
    }
}

/// Whether declarations stand only where a sequence of statements holds them, in this
/// statement and in everything inside it.
pub fn is_structured(stmt: &Stmt) -> (r: bool)
    ensures
        r == stmt_structured(*stmt),
    decreases stmt, 0nat,
{
    match stmt {
        Stmt::Block(s) => are_structured(&s.statements),
        Stmt::Class(s) => {
            let mut i: usize = 0;
            while i < s.methods.len()
                invariant
                    i <= s.methods.len(),
                    decreases_to!(stmt => s.methods),
                    *stmt == Stmt::Class(*s),
                    forall|j: int| 0 <= j < i ==> block_structured((#[trigger] s.methods[j]).body@),
                decreases s.methods.len() - i,
            {
                if !are_structured(&s.methods[i].body) {
                    return false;
                }
                i += 1;
            }
            true
        },
        Stmt::Function(s) => are_structured(&s.body),
        Stmt::If(s) => {
            if !is_simple(&s.then_branch) || !is_structured(&s.then_branch) {
                return false;
            }
            match &s.else_branch {
                Some(otherwise) => is_simple(otherwise) && is_structured(otherwise),
                None => true,
            }
        },
        Stmt::While(s) => is_simple(&s.body) && is_structured(&s.body),
        _ => true,
    }
}

/// Whether every statement of a sequence is structured; see [`is_structured`].
pub fn are_structured(statements: &Vec<Stmt>) -> (r: bool)
    ensures
        r == block_structured(statements@),
    decreases statements, 1nat,
{
    let mut i: usize = 0;
    while i < statements.len()
        invariant
            i <= statements.len(),
            forall|j: int| 0 <= j < i ==> stmt_structured(#[trigger] statements@[j]),
        decreases statements.len() - i,
    {
        if !is_structured(&statements[i]) {
            return false;
        }
        i += 1;
    }
    true
}

/// The names of each scope that are ready for use.
pub open spec fn ready_names(scopes: Scopes) -> Names {
    Seq::new(
        scopes.len(),
        |i: int| Set::new(|name: Seq<char>| scopes[i].contains_key(name) && scopes[i][name]),
    )
}

/// Every name of every scope but the innermost is ready for use.
pub open spec fn outer_ready(scopes: Scopes) -> bool {
    forall|i: int, name: Seq<char>|
        0 <= i < scopes.len() - 1 && (#[trigger] scopes[i]).contains_key(name) ==> #[trigger] scopes[i][name]
}

/// Every name of every scope is ready for use.
pub open spec fn all_ready(scopes: Scopes) -> bool {
    forall|i: int, name: Seq<char>|
        0 <= i < scopes.len() && (#[trigger] scopes[i]).contains_key(name) ==> #[trigger] scopes[i][name]
}

/// Readiness survives a scope pushed on the stack whose names are all ready.
pub proof fn lemma_all_ready_pushed(scopes: Scopes, scope: Map<Seq<char>, bool>)
    requires
        all_ready(scopes),
        forall|name: Seq<char>| scope.contains_key(name) ==> #[trigger] scope[name],
    ensures
        all_ready(scopes.push(scope)),
{
    let after = scopes.push(scope);
    assert forall|i: int, name: Seq<char>|
        0 <= i < after.len() && (#[trigger] after[i]).contains_key(name) implies #[trigger] after[i][name] by {
        if i < scopes.len() {
            assert(after[i] == scopes[i]);
        }
    }
}

/// Readiness survives a name made ready.
pub proof fn lemma_all_ready_defined(scopes: Scopes, name: Seq<char>)
    requires
        all_ready(scopes),
    ensures
        all_ready(define_in(scopes, name)),
{
    let after = define_in(scopes, name);
    assert forall|i: int, other: Seq<char>|
        0 <= i < after.len() && (#[trigger] after[i]).contains_key(other) implies #[trigger] after[i][other] by {
        if i < scopes.len() - 1 {
            assert(after[i] == scopes[i]);
        } else {
            if other != name {
                assert(scopes[i].contains_key(other));
            }
        }
    }
}

/// A declaration touches the innermost scope only.
pub proof fn lemma_outer_ready_declared(scopes: Scopes, name: Seq<char>)
    requires
        all_ready(scopes),
    ensures
        outer_ready(declare_in(scopes, name)),
        outer_ready(scopes),
{
    let after = declare_in(scopes, name);
    assert forall|i: int, other: Seq<char>|
        0 <= i < after.len() - 1 && (#[trigger] after[i]).contains_key(other) implies #[trigger] after[i][other] by {
        assert(after[i] == scopes[i]);
    }
}

/// The ready names of the scope that surrounds a method.
pub proof fn lemma_instance_names()
    ensures
        Set::new(
            |name: Seq<char>| instance_scope().contains_key(name) && instance_scope()[name],
        ) == instance_names(),
        forall|name: Seq<char>| instance_scope().contains_key(name) ==> #[trigger] instance_scope()[name],
{
    assert(Set::new(
        |name: Seq<char>| instance_scope().contains_key(name) && instance_scope()[name],
    ) =~= instance_names());
}

/// The ready names of an empty scope.
pub proof fn lemma_empty_names()
    ensures
        Set::new(
            |name: Seq<char>|
                Map::<Seq<char>, bool>::empty().contains_key(name) && Map::<
                    Seq<char>,
                    bool,
                >::empty()[name],
        ) == Set::<Seq<char>>::empty(),
{
    assert(Set::new(
        |name: Seq<char>|
            Map::<Seq<char>, bool>::empty().contains_key(name) && Map::<
                Seq<char>,
                bool,
            >::empty()[name],
    ) =~= Set::<Seq<char>>::empty());
}

/// The scope that a distance leads to declares the name.
pub proof fn lemma_innermost_declares(scopes: Scopes, name: Seq<char>)
    ensures
        innermost(scopes, name) matches Some(d) ==> d < scopes.len() && scopes[scopes.len() - 1
            - d].contains_key(name),
    decreases scopes.len(),
{
    if scopes.len() > 0 && !scopes.last().contains_key(name) {
        lemma_innermost_declares(scopes.drop_last(), name);
    }
}

/// A name that is declared and not yet ready adds nothing to the ready names.
pub proof fn lemma_ready_names_declared(scopes: Scopes, name: Seq<char>)
    requires
        scopes.len() == 0 || !scopes.last().contains_key(name),
    ensures
        ready_names(declare_in(scopes, name)) == ready_names(scopes),
{
    let after = declare_in(scopes, name);
    assert forall|i: int| 0 <= i < scopes.len() implies ready_names(after)[i] == ready_names(
        scopes,
    )[i] by {
        assert(ready_names(after)[i] =~= ready_names(scopes)[i]);
    }
    assert(ready_names(after) =~= ready_names(scopes));
}

/// A name that is made ready joins the ready names of the innermost scope.
pub proof fn lemma_ready_names_defined(scopes: Scopes, name: Seq<char>)
    ensures
        ready_names(define_in(scopes, name)) == add_name(ready_names(scopes), name),
{
    let after = define_in(scopes, name);
    assert forall|i: int| 0 <= i < scopes.len() implies ready_names(after)[i] == add_name(
        ready_names(scopes),
        name,
    )[i] by {
        assert(ready_names(after)[i] =~= add_name(ready_names(scopes), name)[i]);
    }
    assert(ready_names(after) =~= add_name(ready_names(scopes), name));
}

/// The ready names of a stack with one more scope.
pub proof fn lemma_ready_names_pushed(scopes: Scopes, scope: Map<Seq<char>, bool>)
    ensures
        ready_names(scopes.push(scope)) == ready_names(scopes).push(
            Set::new(|name: Seq<char>| scope.contains_key(name) && scope[name]),
        ),
{
    assert(ready_names(scopes.push(scope)) =~= ready_names(scopes).push(
        Set::new(|name: Seq<char>| scope.contains_key(name) && scope[name]),
    ));
}

/// The names of a parameter scope are the parameter names, and all of them are ready.
pub proof fn lemma_parameter_names(params: Seq<Token>, count: int)
    requires
        0 <= count <= params.len(),
    ensures
        Set::new(
            |name: Seq<char>|
                parameter_scope(params.take(count)).contains_key(name) && parameter_scope(
                    params.take(count),
                )[name],
        ) == parameter_names(params, count),
    decreases count,
{
    let scope = parameter_scope(params.take(count));
    let ready = Set::new(|name: Seq<char>| scope.contains_key(name) && scope[name]);
    if count > 0 {
        lemma_parameter_names(params, count - 1);
        assert(params.take(count).drop_last() =~= params.take(count - 1));
        assert(params.take(count).last() == params[count - 1]);
        assert forall|name: Seq<char>| ready.contains(name) == parameter_names(
            params,
            count,
        ).contains(name) by {
            lemma_parameter_scope(params.take(count), name);
            lemma_parameter_scope(params.take(count - 1), name);
        }
    }
    assert(ready =~= parameter_names(params, count));
}

/// A simple, structured statement leaves the scopes as it found them.
pub proof fn lemma_simple_keeps_scopes(stmt: Stmt, scopes: Scopes)
    requires
        simple(stmt),
        stmt_structured(stmt),
    ensures
        scopes_after(stmt, scopes) == scopes,
    decreases stmt,
{
    match stmt {
        Stmt::If(s) => {
            lemma_simple_keeps_scopes(s.then_branch, scopes);
            match s.else_branch {
                Some(otherwise) => {
                    lemma_simple_keeps_scopes(otherwise, scopes);
                },
                None => {},
            }
        },
        Stmt::While(s) => {
            lemma_simple_keeps_scopes(s.body, scopes);
        },
        _ => {},
    }
}

/// A sequence is safe where each of its statements is safe under the names that the
/// statements before it have added.
pub proof fn lemma_block_safe_stepwise(statements: Seq<Stmt>, from: int, stages: Seq<Names>)
    requires
        0 <= from <= statements.len(),
        stages.len() == statements.len() + 1,
        forall|at: int|
            from <= at < statements.len() ==> stmt_safe(
                #[trigger] statements[at],
                stages[at],
            ) && stages[at + 1] == add_declared(stages[at], statements[at]),
    ensures
        block_safe(statements, from, stages[from]),
    decreases statements.len() - from,
{
    if from < statements.len() {
        assert(stmt_safe(statements[from], stages[from]));
        lemma_block_safe_stepwise(statements, from + 1, stages);
    }
}

/// The names that the frames around `frame` hold, outermost first: the chain of frames
/// seen as a stack of scopes. The global frame is not a scope of the stack.
pub open spec fn static_view(heap: Environment, frame: int) -> Names
    decreases frame,
    when heap.wf() && heap.contains(frame)
{
    match heap.enclosing(frame) {
        Some(parent) => static_view(heap, parent).push(heap.bindings(frame).dom()),
        None => Seq::empty(),
    }
}

/// The later store has every frame of the earlier one, enclosed as before and holding at
/// least the names it held.
pub open spec fn heap_grows(before: Environment, after: Environment) -> bool {
    &&& before.len() <= after.len()
    &&& forall|i: int| 0 <= i < before.len() ==> after.enclosing(i) == before.enclosing(i)
    &&& forall|i: int|
        0 <= i < before.len() ==> (#[trigger] before.bindings(i)).dom().subset_of(
            after.bindings(i).dom(),
        )
}

/// The chain of a frame, seen as scopes, grows with the store.
pub proof fn lemma_static_view_grows(before: Environment, after: Environment, frame: int)
    requires
        before.wf(),
        after.wf(),
        before.contains(frame),
        heap_grows(before, after),
    ensures
        names_grow(static_view(before, frame), static_view(after, frame)),
    decreases frame,
{
    match before.enclosing(frame) {
        Some(parent) => {
            lemma_static_view_grows(before, after, parent);
            let below = static_view(before, parent);
            let above = static_view(after, parent);
            assert(before.bindings(frame).dom().subset_of(after.bindings(frame).dom()));
            assert forall|i: int| 0 <= i < static_view(before, frame).len() implies (
            #[trigger] static_view(before, frame)[i]).subset_of(static_view(after, frame)[i]) by {
                if i < below.len() {
                    assert(below[i].subset_of(above[i]));
                }
            }
        },
        None => {},
    }
}

/// A store with a name bound in one frame has grown.
pub proof fn lemma_rebinds_grows(
    before: Environment,
    after: Environment,
    frame: int,
    name: Seq<char>,
    value: crate::token::Value,
)
    requires
        before.contains(frame),
        after.rebinds(before, frame, name, value),
    ensures
        heap_grows(before, after),
{
    assert forall|i: int| 0 <= i < before.len() implies (#[trigger] before.bindings(
        i,
    )).dom().subset_of(after.bindings(i).dom()) by {
        if i != frame {
            assert(after.bindings(i) == before.bindings(i));
        }
    }
}

/// A store with one more frame has grown.
pub proof fn lemma_extends_grows(before: Environment, after: Environment, parent: int)
    requires
        after.extends(before, parent),
    ensures
        heap_grows(before, after),
{
    assert forall|i: int| 0 <= i < before.len() implies (#[trigger] before.bindings(
        i,
    )).dom().subset_of(after.bindings(i).dom()) by {
        assert(after.bindings(i) == before.bindings(i));
    }
}

/// The chain of a fresh frame is the chain of the frame around it and one empty scope.
pub proof fn lemma_static_view_nested(before: Environment, after: Environment, parent: int)
    requires
        before.wf(),
        after.wf(),
        before.contains(parent),
        after.extends(before, parent),
    ensures
        names_grow(
            static_view(before, parent).push(Set::empty()),
            static_view(after, before.len() as int),
        ),
{
    lemma_extends_grows(before, after, parent);
    lemma_static_view_grows(before, after, parent);
    lemma_push_grows(static_view(before, parent), static_view(after, parent), Set::empty());
    assert(after.bindings(before.len() as int).dom() =~= Set::<Seq<char>>::empty());
}

/// After a name is bound in a frame, the chain of that frame holds the name in its
/// innermost scope.
pub proof fn lemma_static_view_rebound(
    before: Environment,
    after: Environment,
    frame: int,
    name: Seq<char>,
    value: crate::token::Value,
)
    requires
        before.wf(),
        after.wf(),
        before.contains(frame),
        after.rebinds(before, frame, name, value),
    ensures
        names_grow(add_name(static_view(before, frame), name), static_view(after, frame)),
{
    lemma_rebinds_grows(before, after, frame, name, value);
    lemma_static_view_grows(before, after, frame);
    match before.enclosing(frame) {
        Some(parent) => {
            lemma_static_view_grows(before, after, parent);
            let old_view = static_view(before, frame);
            let new_view = static_view(after, frame);
            assert(after.bindings(frame).dom() =~= before.bindings(frame).dom().insert(name));
            assert forall|i: int| 0 <= i < old_view.len() implies (#[trigger] add_name(
                old_view,
                name,
            )[i]).subset_of(new_view[i]) by {
                if i < old_view.len() - 1 {
                    assert(old_view[i].subset_of(new_view[i]));
                }
            }
        },
        None => {},
    }
}

/// A safe reference reaches a frame that binds its name: walking as many frames outward
/// as its distance says arrives at a frame of the chain, and that frame holds the name.
pub proof fn lemma_reference_reaches(heap: Environment, frame: int, distance: u64, name: Seq<char>)
    requires
        heap.wf(),
        heap.contains(frame),
        reference_safe(Some(distance), name, static_view(heap, frame)),
    ensures
        heap.ancestor(frame, distance as nat) matches Some(found) && heap.contains(found)
            && heap.bindings(found).contains_key(name),
    decreases distance,
{
    match heap.enclosing(frame) {
        Some(parent) => {
            if distance > 0 {
                let below = static_view(heap, parent);
                let whole = static_view(heap, frame);
                assert(whole[whole.len() - 1 - distance] == below[below.len() - 1 - (distance
                    - 1)]);
                lemma_reference_reaches(heap, parent, (distance - 1) as u64, name);
            }
        },
        None => {},
    }
}

/// A safe target reaches a frame: walking as many frames outward as its distance says
/// arrives at a frame of the chain.
pub proof fn lemma_target_reaches(heap: Environment, frame: int, distance: u64)
    requires
        heap.wf(),
        heap.contains(frame),
        target_safe(Some(distance), static_view(heap, frame)),
    ensures
        heap.ancestor(frame, distance as nat) matches Some(found) && heap.contains(found),
    decreases distance,
{
    match heap.enclosing(frame) {
        Some(parent) => {
            if distance > 0 {
                lemma_target_reaches(heap, parent, (distance - 1) as u64);
            }
        },
        None => {},
    }
}

} // verus!
