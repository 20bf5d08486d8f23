//! The static pass that checks the scoping rules and gives every reference to a variable
//! its scope distance, before anything runs.

use vstd::prelude::*;
use vstd::string::*;
use crate::bindings::Bindings;
use crate::callable::FunctionType;
use crate::error_handler::Error;
use crate::expressions::{
    Array, Assign, AssignIndex, Binary, Call, Expr, Get, Grouping, Index, Logical, SetExpr, This,
    Unary, Variable,
};
use crate::safety::{
    add_declared, add_name, all_ready, block_safe, block_structured, expr_safe, function_safe,
    instance_names, lemma_all_ready_defined, lemma_all_ready_pushed, lemma_block_safe_stepwise,
    lemma_empty_names, lemma_innermost_declares, lemma_instance_names, lemma_outer_ready_declared,
    lemma_parameter_names, lemma_ready_names_declared, lemma_ready_names_defined,
    lemma_ready_names_pushed, lemma_simple_keeps_scopes, outer_ready, ready_names, stmt_safe,
    stmt_structured,
};
use crate::scoping::{
    Scopes, Violation, block_resolved, block_valid, block_violation, declarable, declare_in,
    define_in, distance_of, duplicate, duplicate_declaration_message, expr_resolved, expr_valid,
    expr_violation, exprs_violation, function_resolved, function_valid, function_violation,
    innermost, instance_scope, lemma_parameter_scope, methods_resolved, methods_violation,
    parameter_scope, parameter_violation, parameters_distinct, readable, scopes_after,
    scopes_before, self_reference_message, stmt_resolved, stmt_valid, stmt_violation,
    top_level_return_message,
};
use crate::statements::{Block, Class, Expression, Function, If, Print, Return, Stmt, While};
use crate::token::{LiteralType, Token, Value};

verus! {

/// Whether an error reports a violation: it points at the token of the violation and
/// carries its message.
pub open spec fn reports(error: Error, violation: Violation) -> bool {
    error matches Error::ResolverError(token, text) && token.lexeme@ == violation.lexeme
        && token.line == violation.line && text@ == violation.message
}

/// The first error that a step of resolution gives: the first that it records, or else
/// the one that it returns.
pub open spec fn first_error(before: Seq<Error>, after: Seq<Error>, returned: Option<Error>) -> Option<
    Error,
> {
    if after.len() > before.len() {
        Some(after[before.len() as int])
    } else {
        returned
    }
}

/// The error that a result carries.
pub open spec fn error_of<T>(result: Result<T, Error>) -> Option<Error> {
    match result {
        Ok(_) => None,
        Err(error) => Some(error),
    }
}

/// Whether the first error is the report of the first violation, where there is one, and
/// there is no error where there is none.
pub open spec fn reported(first: Option<Error>, violation: Option<Violation>) -> bool {
    match violation {
        Some(found) => first matches Some(error) && reports(error, found),
        None => first is None,
    }
}

/// An error of the resolver with the given message.
pub open spec fn has_message(error: Error, message: Seq<char>) -> bool {
    error matches Error::ResolverError(_, text) && text@ == message
}

/// An error that the resolver gives: it names a token and carries the message of one of
/// the three scoping rules.
pub open spec fn is_static_error(error: Error) -> bool {
    has_message(error, duplicate_declaration_message()) || has_message(
        error,
        self_reference_message(),
    ) || has_message(error, top_level_return_message())
}

/// The scope that a map from names to boolean values stands for.
pub open spec fn flags_of(bindings: Map<Seq<char>, Value>) -> Map<Seq<char>, bool> {
    Map::new(
        |name: Seq<char>| bindings.contains_key(name),
        |name: Seq<char>| bindings[name] == Value::Bool(true),
    )
}

/// The later list of errors starts with the earlier one.
pub open spec fn errors_extend(before: Seq<Error>, after: Seq<Error>) -> bool {
    before.len() <= after.len() && forall|i: int| 0 <= i < before.len() ==> after[i] == before[i]
}

/// The later stack has the depth of the earlier one and differs from it in the innermost
/// scope at most.
pub open spec fn outer_kept(before: Scopes, after: Scopes) -> bool {
    after.len() == before.len() && forall|i: int| 0 <= i < before.len() - 1 ==> after[i] == before[i]
}

/// Marking a name ready after declaring it leaves what marking it ready alone leaves.
pub proof fn lemma_define_after_declare(scopes: Scopes, name: Seq<char>)
    ensures
        define_in(declare_in(scopes, name), name) == define_in(scopes, name),
{
    if scopes.len() > 0 {
        assert(scopes.last().insert(name, false).insert(name, true) =~= scopes.last().insert(
            name,
            true,
        ));
        assert(define_in(declare_in(scopes, name), name) =~= define_in(scopes, name));
    }
}

/// A statement that holds no other statement: an expression statement, a `print`, a
/// `return` or the declaration of a variable.
pub open spec fn flat(stmt: Stmt) -> bool {
    stmt is Expression || stmt is Print || stmt is Return || stmt is Variable
}

/// A distance shifted outward by a number of scopes.
pub open spec fn shifted(distance: Option<nat>, by: nat) -> Option<nat> {
    match distance {
        Some(d) => Some(d + by),
        None => None,
    }
}

/// The resolver: the stack of scopes at the point that resolution has reached, the kind
/// of function it is inside of, and the errors found so far.
#[derive(Debug)]
pub struct Resolver {
    scopes: Vec<Bindings>,
    current_function: FunctionType,
    errors: Vec<Error>,
}

impl Resolver {
    /// The stack of scopes, outermost first.
    pub closed spec fn scopes(&self) -> Scopes {
        Seq::new(self.scopes@.len(), |i: int| flags_of(self.scopes@[i]@))
    }

    /// The kind of function that resolution is inside of.
    pub closed spec fn kind(&self) -> FunctionType {
        self.current_function
    }

    /// The errors found so far, oldest first.
    pub closed spec fn errors(&self) -> Seq<Error> {
        self.errors@
    }

    pub closed spec fn wf(&self) -> bool {
        forall|i: int| 0 <= i < self.scopes@.len() ==> (#[trigger] self.scopes@[i]).wf()
    }

    /// Every error found so far is an error of a scoping rule.
    pub open spec fn errors_static(&self) -> bool {
        forall|i: int| 0 <= i < self.errors().len() ==> is_static_error(#[trigger] self.errors()[i])
    }

    /// This resolver differs from `before` in its scopes at most.
    pub open spec fn same_but_scopes(&self, before: Resolver) -> bool {
        self.kind() == before.kind() && self.errors() == before.errors()
    }

    /// A resolver at the top level: no scope, no function, no error.
    pub fn new() -> (resolver: Resolver)
        ensures
            resolver.wf(),
            resolver.scopes() == Seq::<Map<Seq<char>, bool>>::empty(),
            resolver.kind() == FunctionType::NoFunction,
            resolver.errors() == Seq::<Error>::empty(),
    {
        let resolver = Resolver {
            scopes: Vec::new(),
            current_function: FunctionType::NoFunction,
            errors: Vec::new(),
        };
        assert(resolver.scopes() =~= Seq::<Map<Seq<char>, bool>>::empty());
        resolver
    }

    /// Opens a scope.
    pub fn begin_scope(&mut self)
        requires
            old(self).wf(),
        ensures
            final(self).wf(),
            final(self).same_but_scopes(*old(self)),
            final(self).scopes() == old(self).scopes().push(Map::<Seq<char>, bool>::empty()),
    {
        self.scopes.push(Bindings::new());
        proof {
            assert(flags_of(Map::<Seq<char>, Value>::empty()) =~= Map::<
                Seq<char>,
                bool,
            >::empty());
            assert(self.scopes() =~= old(self).scopes().push(Map::<Seq<char>, bool>::empty()));
        }
    }

    /// Closes the innermost scope.
    pub fn end_scope(&mut self)
        requires
            old(self).wf(),
        ensures
            final(self).wf(),
            final(self).same_but_scopes(*old(self)),
            final(self).scopes() == (if old(self).scopes().len() == 0 {
                old(self).scopes()
            } else {
                old(self).scopes().drop_last()
            }),
    {
        let _ = self.scopes.pop();
        proof {
            if old(self).scopes().len() == 0 {
                assert(self.scopes() =~= old(self).scopes());
            } else {
                assert(self.scopes() =~= old(self).scopes().drop_last());
            }
        }
    }

    /// Records `name` in the innermost scope with the given readiness.
    fn record(&mut self, name: &str, ready: bool)
        requires
            old(self).wf(),
        ensures
            final(self).wf(),
            final(self).same_but_scopes(*old(self)),
            final(self).scopes() == (if ready {
                define_in(old(self).scopes(), name@)
            } else {
                declare_in(old(self).scopes(), name@)
            }),
    {
        let depth = self.scopes.len();
        if depth == 0 {
            return ;
        }
        let key: String = String::from_str(name);
        self.scopes[depth - 1].insert(key, LiteralType::Bool(ready));
        proof {
            let before = old(self).scopes();
            assert forall|i: int| 0 <= i < self.scopes@.len() implies (
            #[trigger] self.scopes@[i]).wf() by {
                if i != depth - 1 {
                    assert(self.scopes@[i] == old(self).scopes@[i]);
                }
            }
            assert(flags_of(self.scopes@[depth - 1]@) =~= before.last().insert(name@, ready));
            assert forall|i: int| 0 <= i < depth - 1 implies self.scopes()[i] == before[i] by {
                assert(self.scopes@[i] == old(self).scopes@[i]);
            }
            assert(self.scopes() =~= before.update(depth - 1, before.last().insert(name@, ready)));
        }
    }

    /// Declares `name` in the innermost scope, not yet ready for use. Fails, changing
    /// nothing, where that scope already declares the name. At the top level, where there
    /// is no scope, nothing is recorded.
    pub fn declare(&mut self, name: &Token) -> (result: Result<(), Error>)
        requires
            old(self).wf(),
        ensures
            final(self).wf(),
            final(self).same_but_scopes(*old(self)),
            if declarable(old(self).scopes(), name.lexeme@) {
                result is Ok && final(self).scopes() == declare_in(
                    old(self).scopes(),
                    name.lexeme@,
                )
            } else {
                final(self).scopes() == old(self).scopes() && (result matches Err(error)
                    && reports(error, duplicate(*name)))
            },
    {
        let depth = self.scopes.len();
        if depth > 0 && self.scopes[depth - 1].contains(&name.lexeme) {
            return Err(
                Error::ResolverError(
                    name.duplicate(),
                    String::from_str("There's already a variable with this name in this scope."),
                ),
            );
        }
        self.record(name.lexeme.as_str(), false);
        Ok(())
    }

    /// Marks `name` in the innermost scope as ready for use.
    pub fn define(&mut self, name: &Token)
        requires
            old(self).wf(),
        ensures
            final(self).wf(),
            final(self).same_but_scopes(*old(self)),
            final(self).scopes() == define_in(old(self).scopes(), name.lexeme@),
    {
        self.record(name.lexeme.as_str(), true);
    }

    /// Whether `name` may be read at this point.
    fn may_read(&self, name: &Token) -> (r: bool)
        requires
            self.wf(),
        ensures
            r == readable(self.scopes(), name.lexeme@),
    {
        let depth = self.scopes.len();
        if depth == 0 {
            return true;
        }
        match self.scopes[depth - 1].get(&name.lexeme) {
            Some(LiteralType::Bool(ready)) => ready,
            Some(_) => false,
            None => true,
        }
    }

    /// The scope distance of a reference to `name` at this point: the number of scopes
    /// between the innermost scope and the nearest scope that declares the name, or
    /// nothing where no scope declares it.
    pub fn resolve_local(&self, name: &Token) -> (distance: Option<u64>)
        requires
            self.wf(),
        ensures
            distance == distance_of(self.scopes(), name.lexeme@),
            distance matches Some(d) ==> d < self.scopes().len() && self.scopes()[self.scopes().len()
                - 1 - d].contains_key(name.lexeme@),
    {
        proof {
            lemma_innermost_declares(self.scopes(), name.lexeme@);
        }
        let depth = self.scopes.len();
        let mut remaining: usize = depth;
        assert(self.scopes().take(depth as int) =~= self.scopes());
        while remaining > 0
            invariant
                self.wf(),
                depth == self.scopes@.len(),
                remaining <= depth,
                innermost(self.scopes(), name.lexeme@) == shifted(
                    innermost(self.scopes().take(remaining as int), name.lexeme@),
                    (depth - remaining) as nat,
                ),
            decreases remaining,
        {
            let ghost part = self.scopes().take(remaining as int);
            assert(part.last() == flags_of(self.scopes@[remaining - 1]@));
            assert(part.drop_last() =~= self.scopes().take(remaining - 1));
            if self.scopes[remaining - 1].contains(&name.lexeme) {
                return Some((depth - remaining) as u64);
            }
            remaining -= 1;
        }
        None
    }

    /// Resolves an expression: gives every reference in it its scope distance. Fails where
    /// the expression reads a variable inside that variable's own initializer.
    pub fn resolve_expr(&self, expr: Expr) -> (result: Result<Expr, Error>)
        requires
            self.wf(),
        ensures
            result is Ok <==> expr_valid(expr, self.scopes()),
            result matches Ok(output) ==> expr_resolved(expr, output, self.scopes()),
            result matches Ok(output) ==> (outer_ready(self.scopes()) ==> expr_safe(
                output,
                ready_names(self.scopes()),
            )),
            reported(error_of(result), expr_violation(expr, self.scopes())),
            result matches Err(error) ==> has_message(error, self_reference_message()),
        decreases expr, 0nat,
    {
        match expr {
            Expr::Assign(e) => {
                let Assign { name, value, distance: _ } = *e;
                let value = self.resolve_expr(value)?;
                let distance = self.resolve_local(&name);
                Ok(Expr::Assign(Box::new(Assign { name, value, distance })))
            },
            Expr::Binary(e) => {
                let Binary { left, operator, right } = *e;
                let left = self.resolve_expr(left)?;
                let right = self.resolve_expr(right)?;
                Ok(Expr::Binary(Box::new(Binary { left, operator, right })))
            },
            Expr::Call(e) => {
                let Call { callee, paren, arguments } = *e;
                let callee = self.resolve_expr(callee)?;
                let arguments = self.resolve_exprs(arguments)?;
                Ok(Expr::Call(Box::new(Call { callee, paren, arguments })))
            },
            Expr::Get(e) => {
                let Get { object, name } = *e;
                let object = self.resolve_expr(object)?;
                Ok(Expr::Get(Box::new(Get { object, name })))
            },
            Expr::SetExpr(e) => {
                let SetExpr { object, name, value } = *e;
                let object = self.resolve_expr(object)?;
                let value = self.resolve_expr(value)?;
                Ok(Expr::SetExpr(Box::new(SetExpr { object, name, value })))
            },
            Expr::Grouping(e) => {
                let Grouping { expression } = *e;
                let expression = self.resolve_expr(expression)?;
                Ok(Expr::Grouping(Box::new(Grouping { expression })))
            },
            Expr::Array(e) => {
                let Array { values } = *e;
                let values = self.resolve_exprs(values)?;
                Ok(Expr::Array(Box::new(Array { values })))
            },
            Expr::Index(e) => {
                let Index { object, bracket, index } = *e;
                let object = self.resolve_expr(object)?;
                let index = self.resolve_expr(index)?;
                Ok(Expr::Index(Box::new(Index { object, bracket, index })))
            },
            Expr::AssignIndex(e) => {
                let AssignIndex { object, bracket, index, value } = *e;
                let object = self.resolve_expr(object)?;
                let index = self.resolve_expr(index)?;
                let value = self.resolve_expr(value)?;
                Ok(Expr::AssignIndex(Box::new(AssignIndex { object, bracket, index, value })))
            },
            Expr::Literal(e) => Ok(Expr::Literal(e)),
            Expr::Logical(e) => {
                let Logical { left, operator, right } = *e;
                let left = self.resolve_expr(left)?;
                let right = self.resolve_expr(right)?;
                Ok(Expr::Logical(Box::new(Logical { left, operator, right })))
            },
            Expr::Super(e) => Ok(Expr::Super(e)),
            Expr::This(e) => {
                let This { keyword, distance: _ } = e;
                if !self.may_read(&keyword) {
                    return Err(
                        Error::ResolverError(
                            keyword,
                            String::from_str("Can't read local variables in its own initializer."),
                        ),
                    );
                }
                let distance = self.resolve_local(&keyword);
                Ok(Expr::This(This { keyword, distance }))
            },
            Expr::Unary(e) => {
                let Unary { operator, right } = *e;
                let right = self.resolve_expr(right)?;
                Ok(Expr::Unary(Box::new(Unary { operator, right })))
            },
            Expr::Variable(e) => {
                let Variable { name, distance: _ } = e;
                if !self.may_read(&name) {
                    return Err(
                        Error::ResolverError(
                            name,
                            String::from_str("Can't read local variables in its own initializer."),
                        ),
                    );
                }
                let distance = self.resolve_local(&name);
                Ok(Expr::Variable(Variable { name, distance }))
            },
        }
    }

    /// Resolves a list of expressions, each as [`Resolver::resolve_expr`] does.
    pub fn resolve_exprs(&self, exprs: Vec<Expr>) -> (result: Result<Vec<Expr>, Error>)
        requires
            self.wf(),
        ensures
            result is Ok <==> exprs_violation(exprs@, 0, self.scopes()) is None,
            result matches Ok(outputs) ==> outputs.len() == exprs.len() && forall|i: int|
                0 <= i < exprs.len() ==> expr_resolved(
                    #[trigger] exprs[i],
                    outputs[i],
                    self.scopes(),
                ),
            result matches Ok(outputs) ==> (outer_ready(self.scopes()) ==> forall|i: int|
                0 <= i < outputs.len() ==> expr_safe(
                    #[trigger] outputs[i],
                    ready_names(self.scopes()),
                )),
            reported(error_of(result), exprs_violation(exprs@, 0, self.scopes())),
            result matches Err(error) ==> has_message(error, self_reference_message()),
        decreases exprs, 1nat,
    {
        let ghost all = exprs@;
        let mut outputs: Vec<Expr> = Vec::new();
        let mut failure: Option<Error> = None;
        for expr in it: exprs
            invariant
                self.wf(),
                it.seq() == all,
                all == exprs@,
                failure is None ==> exprs_violation(all, 0, self.scopes()) == exprs_violation(
                    all,
                    it.index() as int,
                    self.scopes(),
                ),
                failure is Some ==> reported(failure, exprs_violation(all, 0, self.scopes())),
                failure matches Some(error) ==> has_message(error, self_reference_message()),
                failure is None ==> outputs.len() == it.index() && forall|i: int|
                    0 <= i < it.index() ==> expr_resolved(
                        #[trigger] all[i],
                        outputs[i],
                        self.scopes(),
                    ),
                (failure is None && outer_ready(self.scopes())) ==> forall|i: int|
                    0 <= i < outputs.len() ==> expr_safe(
                        #[trigger] outputs[i],
                        ready_names(self.scopes()),
                    ),
        {
            let ghost at = it.index();
            match self.resolve_expr(expr) {
                Ok(output) => {
                    if failure.is_none() {
                        outputs.push(output);
                    }
                },
                Err(error) => {
                    if failure.is_none() {
                        failure = Some(error);
                    }
                },
            }
        }
        match failure {
            Some(error) => Err(error),
            None => Ok(outputs),
        }
    }

    /// Resolves a statement. An error inside a nested block or a function body is recorded
    /// and resolution goes on with the statement after it; any other error ends the
    /// statement and is returned. The statement is valid exactly when neither happens. A
    /// statement that holds no other statement records nothing: its error, a `return`
    /// outside a function among them, is the one returned.
    pub fn resolve_stmt(&mut self, stmt: Stmt) -> (result: Result<Stmt, Error>)
        requires
            old(self).wf(),
        ensures
            final(self).wf(),
            final(self).kind() == old(self).kind(),
            outer_kept(old(self).scopes(), final(self).scopes()),
            errors_extend(old(self).errors(), final(self).errors()),
            stmt_valid(stmt, old(self).scopes(), old(self).kind()) <==> (result is Ok
                && final(self).errors().len() == old(self).errors().len()),
            flat(stmt) ==> final(self).errors() == old(self).errors(),
            stmt_valid(stmt, old(self).scopes(), old(self).kind()) ==> (result matches Ok(output)
                && stmt_resolved(stmt, output, old(self).scopes()) && final(self).scopes()
                == scopes_after(stmt, old(self).scopes())),
            (stmt_valid(stmt, old(self).scopes(), old(self).kind()) && stmt_structured(stmt)
                && all_ready(old(self).scopes())) ==> (result matches Ok(output) && stmt_safe(
                output,
                ready_names(old(self).scopes()),
            ) && all_ready(final(self).scopes()) && ready_names(final(self).scopes())
                == add_declared(ready_names(old(self).scopes()), output)),
            reported(
                first_error(old(self).errors(), final(self).errors(), error_of(result)),
                stmt_violation(stmt, old(self).scopes(), old(self).kind()),
            ),
            result matches Err(error) ==> is_static_error(error),
            old(self).errors_static() ==> final(self).errors_static(),
        decreases stmt, 0nat,
    {
        let ghost before = self.scopes();
        let ghost good = stmt_structured(stmt) && all_ready(before);
        proof {
            if all_ready(before) {
                lemma_outer_ready_declared(before, Seq::<char>::empty());
            }
        }
        match stmt {
            Stmt::Block(s) => {
                let Block { statements } = *s;
                self.begin_scope();
                proof {
                    if all_ready(before) {
                        lemma_all_ready_pushed(before, Map::empty());
                    }
                    lemma_ready_names_pushed(before, Map::empty());
                    lemma_empty_names();
                }
                let statements = self.resolve_block(statements);
                self.end_scope();
                assert(self.scopes() =~= before);
                Ok(Stmt::Block(Box::new(Block { statements })))
            },
            Stmt::Class(s) => {
                let Class { name, methods } = s;
                match self.declare(&name) {
                    Err(error) => {
                        return Err(error);
                    },
                    Ok(_) => {},
                }
                self.define(&name);
                proof {
                    lemma_define_after_declare(before, name.lexeme@);
                }
                let ghost declared = self.scopes();
                self.begin_scope();
                self.record("this", true);
                assert(self.scopes() =~= declared.push(instance_scope()));
                proof {
                    lemma_instance_names();
                    lemma_ready_names_defined(before, name.lexeme@);
                    lemma_ready_names_pushed(declared, instance_scope());
                    if all_ready(before) {
                        lemma_all_ready_defined(before, name.lexeme@);
                        lemma_all_ready_pushed(declared, instance_scope());
                    }
                }
                let ghost inner = self.scopes();
                let ghost all = methods@;
                let ghost count = self.errors().len();
                let mut outputs: Vec<Function> = Vec::new();
                for method in it: methods
                    invariant
                        self.wf(),
                        self.kind() == old(self).kind(),
                        self.scopes() == inner,
                        errors_extend(old(self).errors(), self.errors()),
                        count == old(self).errors().len(),
                        it.seq() == all,
                        all == methods@,
                        decreases_to!(stmt => methods),
                        stmt matches Stmt::Class(class) && class.name == name && class.methods@
                            == all,
                        before == old(self).scopes(),
                        declared == define_in(before, name.lexeme@),
                        inner == declared.push(instance_scope()),
                        declarable(before, name.lexeme@),
                        old(self).errors_static() ==> self.errors_static(),
                        self.errors().len() != count ==> reported(
                            Some(self.errors()[count as int]),
                            methods_violation(all, 0, inner),
                        ) && methods_violation(all, 0, inner) is Some,
                        self.errors().len() == count ==> outputs.len() == it.index()
                            && methods_violation(all, 0, inner) == methods_violation(
                            all,
                            it.index() as int,
                            inner,
                        ) && forall|i: int|
                            0 <= i < it.index() ==> function_resolved(
                                #[trigger] all[i],
                                outputs[i],
                                inner,
                            ),
                        good == (stmt_structured(stmt) && all_ready(before)),
                        good ==> all_ready(inner),
                        ready_names(inner) == add_name(ready_names(before), name.lexeme@).push(
                            instance_names(),
                        ),
                        (good && self.errors().len() == count) ==> forall|i: int|
                            0 <= i < it.index() ==> function_safe(
                                #[trigger] outputs[i],
                                ready_names(inner),
                            ),
                {
                    let ghost at = it.index();
                    match self.resolve_function(method, FunctionType::Method) {
                        Ok(output) => {
                            outputs.push(output);
                        },
                        Err(error) => {
                            self.end_scope();
                            assert(self.scopes() =~= declared);
                            return Err(error);
                        },
                    }
                }
                assert(self.errors().len() == count ==> methods_resolved(all, outputs@, inner));
                proof {
                    lemma_ready_names_defined(before, name.lexeme@);
                    if all_ready(before) {
                        lemma_all_ready_defined(before, name.lexeme@);
                    }
                }
                self.end_scope();
                assert(self.scopes() =~= declared);
                Ok(Stmt::Class(Class { name, methods: outputs }))
            },
            Stmt::Expression(s) => {
                let Expression { expression } = s;
                let expression = self.resolve_expr(expression)?;
                Ok(Stmt::Expression(Expression { expression }))
            },
            Stmt::Function(s) => {
                match self.declare(&s.name) {
                    Err(error) => {
                        return Err(error);
                    },
                    Ok(_) => {},
                }
                self.define(&s.name);
                proof {
                    lemma_define_after_declare(before, s.name.lexeme@);
                    lemma_ready_names_defined(before, s.name.lexeme@);
                    if all_ready(before) {
                        lemma_all_ready_defined(before, s.name.lexeme@);
                    }
                }
                let output = self.resolve_function(s, FunctionType::Function)?;
                Ok(Stmt::Function(output))
            },
            Stmt::If(s) => {
                let If { condition, then_branch, else_branch } = *s;
                proof {
                    if good {
                        lemma_simple_keeps_scopes(then_branch, before);
                    }
                }
                let condition = self.resolve_expr(condition)?;
                let then_branch = self.resolve_stmt(then_branch)?;
                let else_branch = match else_branch {
                    Some(otherwise) => Some(self.resolve_stmt(otherwise)?),
                    None => None,
                };
                Ok(Stmt::If(Box::new(If { condition, then_branch, else_branch })))
            },
            Stmt::Print(s) => {
                let Print { expression } = s;
                let expression = self.resolve_expr(expression)?;
                Ok(Stmt::Print(Print { expression }))
            },
            Stmt::Return(s) => {
                let Return { keyword, value } = s;
                if self.current_function == FunctionType::NoFunction {
                    return Err(
                        Error::ResolverError(
                            keyword,
                            String::from_str("Can't return from top-level code."),
                        ),
                    );
                }
                let value = match value {
                    Some(value) => Some(self.resolve_expr(value)?),
                    None => None,
                };
                Ok(Stmt::Return(Return { keyword, value }))
            },
            Stmt::Variable(s) => {
                let crate::statements::Variable { name, initializer } = s;
                match self.declare(&name) {
                    Err(error) => {
                        return Err(error);
                    },
                    Ok(_) => {},
                }
                proof {
                    lemma_ready_names_declared(before, name.lexeme@);
                    if all_ready(before) {
                        lemma_outer_ready_declared(before, name.lexeme@);
                    }
                }
                let initializer = match initializer {
                    Some(initializer) => Some(self.resolve_expr(initializer)?),
                    None => None,
                };
                self.define(&name);
                proof {
                    lemma_define_after_declare(before, name.lexeme@);
                    lemma_ready_names_defined(before, name.lexeme@);
                    if all_ready(before) {
                        lemma_all_ready_defined(before, name.lexeme@);
                    }
                }
                Ok(Stmt::Variable(crate::statements::Variable { name, initializer }))
            },
            Stmt::While(s) => {
                let While { condition, body } = *s;
                proof {
                    if good {
                        lemma_simple_keeps_scopes(body, before);
                    }
                }
                let condition = self.resolve_expr(condition)?;
                let body = self.resolve_stmt(body)?;
                Ok(Stmt::While(Box::new(While { condition, body })))
            },
        }
    }

    /// Resolves the statements of a sequence in order. Where one fails, its error is
    /// recorded and resolution goes on with the next. The sequence is valid exactly when
    /// no error was recorded.
    pub fn resolve_block(&mut self, statements: Vec<Stmt>) -> (outputs: Vec<Stmt>)
        requires
            old(self).wf(),
        ensures
            final(self).wf(),
            final(self).kind() == old(self).kind(),
            outer_kept(old(self).scopes(), final(self).scopes()),
            errors_extend(old(self).errors(), final(self).errors()),
            old(self).errors_static() ==> final(self).errors_static(),
            reported(
                first_error(old(self).errors(), final(self).errors(), None),
                block_violation(statements@, 0, old(self).scopes(), old(self).kind()),
            ),
            block_valid(statements@, old(self).scopes(), old(self).kind()) <==> final(self).errors().len() == old(self).errors().len(),
            block_valid(statements@, old(self).scopes(), old(self).kind()) ==> block_resolved(
                statements@,
                outputs@,
                old(self).scopes(),
            ) && final(self).scopes() == scopes_before(
                statements@,
                statements@.len() as int,
                old(self).scopes(),
            ),
            (block_valid(statements@, old(self).scopes(), old(self).kind()) && block_structured(
                statements@,
            ) && all_ready(old(self).scopes())) ==> block_safe(
                outputs@,
                0,
                ready_names(old(self).scopes()),
            ) && all_ready(final(self).scopes()),
        decreases statements, 1nat,
    {
        let ghost all = statements@;
        let ghost first = self.scopes();
        let ghost kind = self.kind();
        let ghost count = self.errors().len();
        let ghost good = block_structured(all) && all_ready(first);
        let mut outputs: Vec<Stmt> = Vec::new();
        for stmt in it: statements
            invariant
                self.wf(),
                self.kind() == kind,
                outer_kept(first, self.scopes()),
                errors_extend(old(self).errors(), self.errors()),
                old(self).errors_static() ==> self.errors_static(),
                count == old(self).errors().len(),
                it.seq() == all,
                all == statements@,
                self.errors().len() == count ==> outputs.len() == it.index() && self.scopes()
                    == scopes_before(all, it.index() as int, first) && forall|i: int|
                    0 <= i < it.index() ==> stmt_resolved(
                        #[trigger] all[i],
                        outputs[i],
                        scopes_before(all, i, first),
                    ),
                self.errors().len() == count ==> block_violation(all, 0, first, kind)
                    == block_violation(all, it.index() as int, self.scopes(), kind),
                self.errors().len() != count ==> reported(
                    Some(self.errors()[count as int]),
                    block_violation(all, 0, first, kind),
                ) && block_violation(all, 0, first, kind) is Some,
                good == (block_structured(all) && all_ready(first)),
                (good && self.errors().len() == count) ==> all_ready(self.scopes()) && forall|i: int|
                    0 <= i < it.index() ==> stmt_safe(
                        #[trigger] outputs[i],
                        ready_names(scopes_before(all, i, first)),
                    ) && ready_names(scopes_before(all, i + 1, first)) == add_declared(
                        ready_names(scopes_before(all, i, first)),
                        outputs[i],
                    ),
        {
            let ghost at = it.index() as int;
            let ghost clean = self.errors().len() == count;
            let ghost current = self.scopes();
            match self.resolve_stmt(stmt) {
                Ok(output) => {
                    outputs.push(output);
                },
                Err(error) => {
                    self.errors.push(error);
                },
            }
            proof {
                if good && self.errors().len() == count {
                    assert(stmt_structured(all[at]));
                    assert(scopes_before(all, at + 1, first) == scopes_after(
                        all[at],
                        scopes_before(all, at, first),
                    ));
                }
            }
        }
        proof {
            if good && self.errors().len() == count {
                let stages = Seq::new(
                    (all.len() + 1) as nat,
                    |i: int| ready_names(scopes_before(all, i, first)),
                );
                assert forall|at: int| 0 <= at < outputs@.len() implies stmt_safe(
                    #[trigger] outputs@[at],
                    stages[at],
                ) && stages[at + 1] == add_declared(stages[at], outputs@[at]) by {
                    assert(stmt_safe(outputs[at], ready_names(scopes_before(all, at, first))));
                }
                lemma_block_safe_stepwise(outputs@, 0, stages);
            }
        }
        outputs
    }

    /// Resolves a function of the given kind: its parameters are declared in a scope of
    /// their own, in which the body is resolved. Two parameters of one name fail the
    /// function; an error in the body is recorded. The scopes are left as they were found.
    pub fn resolve_function(&mut self, function: Function, kind: FunctionType) -> (result: Result<
        Function,
        Error,
    >)
        requires
            old(self).wf(),
        ensures
            final(self).wf(),
            final(self).kind() == old(self).kind(),
            final(self).scopes() == old(self).scopes(),
            errors_extend(old(self).errors(), final(self).errors()),
            function_valid(function, old(self).scopes(), kind) <==> (result is Ok && final(self).errors().len() == old(self).errors().len()),
            function_valid(function, old(self).scopes(), kind) ==> (result matches Ok(output)
                && function_resolved(function, output, old(self).scopes())),
            (function_valid(function, old(self).scopes(), kind) && block_structured(
                function.body@,
            ) && all_ready(old(self).scopes())) ==> (result matches Ok(output) && function_safe(
                output,
                ready_names(old(self).scopes()),
            )),
            reported(
                first_error(old(self).errors(), final(self).errors(), error_of(result)),
                function_violation(function, old(self).scopes(), kind),
            ),
            result matches Err(error) ==> is_static_error(error),
            old(self).errors_static() ==> final(self).errors_static(),
        decreases function, 0nat,
    {
        let ghost before = self.scopes();
        let Function { name, params, body } = function;
        let enclosing_function = self.current_function;
        self.current_function = kind;
        self.begin_scope();
        let mut i: usize = 0;
        assert(params@.take(0) =~= Seq::<Token>::empty());
        while i < params.len()
            invariant
                self.wf(),
                i <= params.len(),
                self.kind() == kind,
                self.errors() == old(self).errors(),
                self.scopes() == before.push(parameter_scope(params@.take(i as int))),
                parameters_distinct(params@.take(i as int)),
                before == old(self).scopes(),
                enclosing_function == old(self).kind(),
                function.params == params,
                parameter_violation(params@, 0) == parameter_violation(params@, i as int),
            decreases params.len() - i,
        {
            let ghost part = params@.take(i as int);
            let ghost next = params@.take(i + 1);
            proof {
                assert(next.drop_last() =~= part);
                assert(next.last() == params@[i as int]);
                lemma_parameter_scope(part, params@[i as int].lexeme@);
            }
            match self.declare(&params[i]) {
                Err(error) => {
                    self.end_scope();
                    self.current_function = enclosing_function;
                    proof {
                        assert(self.scopes() =~= before);
                        let j = choose|j: int|
                            0 <= j < part.len() && (#[trigger] part[j]).lexeme@ == params@[i as int].lexeme@;
                        assert(params@[j].lexeme@ == params@[i as int].lexeme@);
                        assert(!parameters_distinct(params@));
                    }
                    return Err(error);
                },
                Ok(_) => {},
            }
            self.define(&params[i]);
            proof {
                lemma_define_after_declare(
                    before.push(parameter_scope(part)),
                    params@[i as int].lexeme@,
                );
                let top = parameter_scope(part);
                assert(self.scopes() =~= before.push(
                    top.insert(params@[i as int].lexeme@, true),
                ));
                assert forall|a: int, b: int| 0 <= a < b < next.len() implies (
                #[trigger] next[a]).lexeme@ != (#[trigger] next[b]).lexeme@ by {
                    if b < i {
                        assert(part[a].lexeme@ != part[b].lexeme@);
                    } else {
                        assert(part[a].lexeme@ == next[a].lexeme@);
                    }
                }
            }
            i += 1;
        }
        assert(params@.take(i as int) =~= params@);
        proof {
            lemma_parameter_names(params@, params@.len() as int);
            lemma_ready_names_pushed(before, parameter_scope(params@));
            if all_ready(before) {
                assert forall|name: Seq<char>|
                    parameter_scope(params@).contains_key(name) implies #[trigger] parameter_scope(
                    params@,
                )[name] by {
                    lemma_parameter_scope(params@, name);
                }
                lemma_all_ready_pushed(before, parameter_scope(params@));
            }
        }
        let body = self.resolve_block(body);
        self.end_scope();
        self.current_function = enclosing_function;
        assert(self.scopes() =~= before);
        Ok(Function { name, params, body })
    }

    /// Resolves a program: its statements are resolved at the top level. Returns the
    /// program with every reference carrying its scope distance where the program breaks
    /// no scoping rule, and otherwise the errors that were found, of which there is at
    /// least one.
    pub fn resolve(statements: Vec<Stmt>) -> (result: Result<Vec<Stmt>, Vec<Error>>)
        ensures
            match result {
                Ok(outputs) => block_valid(
                    statements@,
                    Seq::<Map<Seq<char>, bool>>::empty(),
                    FunctionType::NoFunction,
                ) && block_resolved(
                    statements@,
                    outputs@,
                    Seq::<Map<Seq<char>, bool>>::empty(),
                ) && (block_structured(statements@) ==> block_safe(
                    outputs@,
                    0,
                    Seq::<Set<Seq<char>>>::empty(),
                )),
                Err(errors) => !block_valid(
                    statements@,
                    Seq::<Map<Seq<char>, bool>>::empty(),
                    FunctionType::NoFunction,
                ) && errors@.len() > 0 && (forall|i: int|
                    0 <= i < errors@.len() ==> is_static_error(#[trigger] errors@[i])) && (
                block_violation(
                    statements@,
                    0,
                    Seq::<Map<Seq<char>, bool>>::empty(),
                    FunctionType::NoFunction,
                ) matches Some(violation) && reports(errors@[0], violation)),
            },
    {
        let mut resolver = Resolver::new();
        assert(ready_names(Seq::<Map<Seq<char>, bool>>::empty()) =~= Seq::<
            Set<Seq<char>>,
        >::empty());
        let outputs = resolver.resolve_block(statements);
        if resolver.errors.len() == 0 {
            Ok(outputs)
        } else {
            Err(resolver.errors)
        }
    }
}

} // verus!
