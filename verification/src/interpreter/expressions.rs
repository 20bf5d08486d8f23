//! The moves of expressions: reading and assigning variables, and what operators,
//! indexes and arrays do with the values of their operands.

use vstd::prelude::*;
use vstd::string::*;
use crate::callable::Property;
use crate::environment::{
    missing_environment_message, missing_variable_message, undefined_variable_message,
};
use crate::error_handler::Error;
use crate::evaluation::{
    BinaryOutcome, BinaryStep, assign_index_value, binary_operation, binary_outcome, index_outcome,
    index_value, unary_operation, unary_outcome,
};
use crate::expressions::Expr;
use crate::machine::{Action, Focus, Frame, Pending, Request, fits, pending_safe};
use crate::safety::{expr_safe, lemma_rebinds_grows, static_view};
use crate::token::{LiteralType, Token, TokenType, Value, lemma_array_view, truthy, values_of};
use super::GLOBAL;
use super::Interpreter;

verus! {

/// An error of the running program, moved to a line; any other error as it is.
fn on_line(line: u32, error: Error) -> (moved: Error)
    ensures
        match error {
            Error::RuntimeError(_, message) => moved == Error::RuntimeError(line, message),
            _ => moved == error,
        },
{
    match error {
        Error::RuntimeError(_, message) => Error::RuntimeError(line, message),
        other => other,
    }
}

impl<'a> Interpreter<'a> {
    /// The machine is about to do what reading `name` comes to: the value found by
    /// walking `distance` frames outward from the current frame, or, where the reference
    /// has no distance, the value that the global frame binds. A failure is on the line
    /// of the name.
    pub open spec fn reads(&self, before: Self, name: &Token, distance: Option<u64>) -> bool {
        match distance {
            Some(d) => match before.heap().ancestor(before.environment() as int, d as nat) {
                Some(found) => if before.heap().bindings(found).contains_key(name.lexeme@) {
                    self.produces(before.heap().bindings(found)[name.lexeme@])
                } else {
                    self.fails_with(name.line, missing_variable_message(name.lexeme@))
                },
                None => self.fails_with(name.line, missing_environment_message()),
            },
            None => match before.heap().lookup(GLOBAL as int, name.lexeme@) {
                Some(value) => self.produces(value),
                None => self.fails_with(name.line, undefined_variable_message(name.lexeme@)),
            },
        }
    }

    /// What one move does to the machine `before` when it is about to evaluate `expr`.
    ///
    /// An expression with operands puts itself off and turns to its first operand. A
    /// literal produces its value, an empty array produces the empty array, a variable
    /// produces what it is bound to, and `super` fails: no class has a superclass.
    pub open spec fn evaluated(&self, before: Self, expr: &'a Expr) -> bool {
        &&& self.same_stores(before)
        &&& self.environment() == before.environment()
        &&& match *expr {
            Expr::Assign(e) => self.pushed(
                before,
                Pending::Assign(&*e),
                before.environment(),
                Seq::empty(),
            ) && self.focus() == Focus::Evaluate(&e.value),
            Expr::Binary(e) => self.pushed(
                before,
                Pending::BinaryLeft(&*e),
                before.environment(),
                Seq::empty(),
            ) && self.focus() == Focus::Evaluate(&e.left),
            Expr::Call(e) => self.pushed(
                before,
                Pending::Callee(&*e),
                before.environment(),
                Seq::empty(),
            ) && self.focus() == Focus::Evaluate(&e.callee),
            Expr::Get(e) => self.pushed(
                before,
                Pending::Property(&*e),
                before.environment(),
                Seq::empty(),
            ) && self.focus() == Focus::Evaluate(&e.object),
            Expr::SetExpr(e) => self.pushed(
                before,
                Pending::SetObject(&*e),
                before.environment(),
                Seq::empty(),
            ) && self.focus() == Focus::Evaluate(&e.object),
            Expr::Grouping(e) => self.frames() == before.frames() && self.focus()
                == Focus::Evaluate(&e.expression),
            Expr::Array(e) => if e.values.len() == 0 {
                self.frames() == before.frames() && self.produces(Value::Array(Seq::empty()))
            } else {
                self.pushed(before, Pending::Elements(&*e), before.environment(), Seq::empty())
                    && self.focus() == Focus::Evaluate(&e.values[0])
            },
            Expr::Index(e) => self.pushed(
                before,
                Pending::IndexObject(&*e),
                before.environment(),
                Seq::empty(),
            ) && self.focus() == Focus::Evaluate(&e.object),
            Expr::AssignIndex(e) => self.pushed(
                before,
                Pending::AssignIndexObject(&*e),
                before.environment(),
                Seq::empty(),
            ) && self.focus() == Focus::Evaluate(&e.object),
            Expr::Literal(e) => self.frames() == before.frames() && self.produces(e.value@),
            Expr::Logical(e) => self.pushed(
                before,
                Pending::Logical(&*e),
                before.environment(),
                Seq::empty(),
            ) && self.focus() == Focus::Evaluate(&e.left),
            Expr::Super(e) => self.frames() == before.frames() && self.fails_with(
                e.keyword.line,
                "Can't use 'super' in a class with no superclass."@,
            ),
            Expr::This(e) => self.frames() == before.frames() && self.reads(
                before,
                &e.keyword,
                e.distance,
            ),
            Expr::Unary(e) => self.pushed(
                before,
                Pending::Unary(&*e),
                before.environment(),
                Seq::empty(),
            ) && self.focus() == Focus::Evaluate(&e.right),
            Expr::Variable(e) => self.frames() == before.frames() && self.reads(
                before,
                &e.name,
                e.distance,
            ),
        }
    }

    /// Turns to what reading a variable comes to.
    pub(super) fn read(&mut self, name: &Token, distance: Option<u64>)
        requires
            old(self).wf(),
        ensures
            final(self).wf(),
            final(self).same_stores(*old(self)),
            final(self).environment() == old(self).environment(),
            final(self).frames() == old(self).frames(),
            final(self).reads(*old(self), name, distance),
            (old(self).tables_resolved() && old(self).frames_resolved()) ==> final(self).resolved(),
    {
        let result = match distance {
            Some(d) => self.heap.get_at(self.environment, d, &name.lexeme),
            None => self.heap.get(GLOBAL, name),
        };
        match result {
            Ok(value) => {
                self.focus = Focus::Produced(value);
            },
            Err(error) => {
                self.focus = Focus::Failing(on_line(name.line, error));
            },
        }
    }

    /// One move of a machine that is about to evaluate `expr`; see
    /// [`Interpreter::evaluated`].
    pub(super) fn evaluate(&mut self, expr: &'a Expr)
        requires
            old(self).wf(),
        ensures
            final(self).wf(),
            final(self).evaluated(*old(self), expr),
            (old(self).tables_resolved() && old(self).frames_resolved() && expr_safe(
                *expr,
                static_view(old(self).heap(), old(self).environment() as int),
            )) ==> final(self).resolved(),
    {
        match expr {
            Expr::Assign(e) => {
                self.suspend(Pending::Assign(e), &e.value);
            },
            Expr::Binary(e) => {
                self.suspend(Pending::BinaryLeft(e), &e.left);
            },
            Expr::Call(e) => {
                self.suspend(Pending::Callee(e), &e.callee);
            },
            Expr::Get(e) => {
                self.suspend(Pending::Property(e), &e.object);
            },
            Expr::SetExpr(e) => {
                self.suspend(Pending::SetObject(e), &e.object);
            },
            Expr::Grouping(e) => {
                self.focus = Focus::Evaluate(&e.expression);
            },
            Expr::Array(e) => {
                if e.values.len() == 0 {
                    let items: Vec<LiteralType> = Vec::new();
                    proof {
                        crate::token::lemma_array_view(items);
                        assert(values_of(items@) =~= Seq::<Value>::empty());
                    }
                    self.focus = Focus::Produced(LiteralType::Array(items));
                } else {
                    self.suspend(Pending::Elements(e), &e.values[0]);
                }
            },
            Expr::Index(e) => {
                self.suspend(Pending::IndexObject(e), &e.object);
            },
            Expr::AssignIndex(e) => {
                self.suspend(Pending::AssignIndexObject(e), &e.object);
            },
            Expr::Literal(e) => {
                self.focus = Focus::Produced(e.value.duplicate());
            },
            Expr::Logical(e) => {
                self.suspend(Pending::Logical(e), &e.left);
            },
            Expr::Super(e) => {
                self.focus = Focus::Failing(
                    Error::RuntimeError(
                        e.keyword.line,
                        String::from_str("Can't use 'super' in a class with no superclass."),
                    ),
                );
            },
            Expr::This(e) => {
                self.read(&e.keyword, e.distance);
            },
            Expr::Unary(e) => {
                self.suspend(Pending::Unary(e), &e.right);
            },
            Expr::Variable(e) => {
                self.read(&e.name, e.distance);
            },
        }
    }

    /// The machine is `before` with `value` assigned to `name`: in the frame `distance`
    /// frames outward from the current one, or, where the reference has no distance, in
    /// the nearest frame from the global one outward that binds the name. It fails on
    /// the line of the name, changing nothing, where there is no such frame.
    pub open spec fn assigned(&self, before: Self, name: &Token, distance: Option<u64>, value: Value) -> bool {
        match distance {
            Some(d) => match before.heap().ancestor(before.environment() as int, d as nat) {
                Some(found) => self.heap().rebinds(before.heap(), found, name.lexeme@, value)
                    && self.produces(value),
                None => self.heap() == before.heap() && self.fails_with(
                    name.line,
                    missing_environment_message(),
                ),
            },
            None => match before.heap().holder(GLOBAL as int, name.lexeme@) {
                Some(found) => self.heap().rebinds(before.heap(), found, name.lexeme@, value)
                    && self.produces(value),
                None => self.heap() == before.heap() && self.fails_with(
                    name.line,
                    undefined_variable_message(name.lexeme@),
                ),
            },
        }
    }

    /// Assigns a value to a variable; see [`Interpreter::assigned`].
    pub(super) fn assign(&mut self, name: &Token, distance: Option<u64>, value: LiteralType)
        requires
            old(self).wf(),
            !(old(self).focus() is Awaiting),
        ensures
            final(self).wf(),
            final(self).same_tables(*old(self)),
            final(self).frames() == old(self).frames(),
            final(self).environment() == old(self).environment(),
            final(self).assigned(*old(self), name, distance, value@),
            (old(self).tables_resolved() && old(self).frames_resolved()) ==> final(self).resolved(),
    {
        let copy = value.duplicate();
        let ghost before = *self;
        let result = match distance {
            Some(d) => self.heap.assign_at(self.environment, d, name, copy),
            None => self.heap.assign(GLOBAL, name, copy),
        };
        proof {
            if result is Ok {
                let found = match distance {
                    Some(d) => before.heap().ancestor(before.environment() as int, d as nat).unwrap(),
                    None => before.heap().holder(GLOBAL as int, name.lexeme@).unwrap(),
                };
                match distance {
                    Some(d) => {
                        crate::environment::lemma_ancestor_contained(
                            before.heap(),
                            before.environment() as int,
                            d as nat,
                        );
                    },
                    None => {
                        crate::environment::lemma_holder_binds(
                            before.heap(),
                            GLOBAL as int,
                            name.lexeme@,
                        );
                    },
                }
                lemma_rebinds_grows(before.heap(), self.heap(), found, name.lexeme@, value@);
                if before.tables_resolved() {
                    Self::lemma_tables_survive(before, *self);
                }
                if before.frames_resolved() {
                    Self::lemma_frames_survive(before, *self);
                }
            }
        }
        match result {
            Ok(_) => {
                self.focus = Focus::Produced(value);
            },
            Err(error) => {
                self.focus = Focus::Failing(on_line(name.line, error));
            },
        }
    }

    /// What a value does to pending work of an operator. `before` is the machine with
    /// that work taken off: its pending work is `base`, the frame of the work is current,
    /// and `held` are the values that the work held on to.
    ///
    /// An assignment binds the value. A binary operator turns to its right operand, and
    /// then comes to what [`binary_outcome`] says. `and` and `or` produce the left operand
    /// where it decides, and turn to the right one where it does not. A unary operator
    /// comes to what [`unary_outcome`] says. Indexing turns to the index and then selects
    /// the item. An array turns to its next item, and after the last produces the items.
    pub open spec fn settled_operator(
        &self,
        before: Self,
        base: Seq<Frame<'a>>,
        pending: Pending<'a>,
        held: Seq<Value>,
        value: Value,
        action: Action,
    ) -> bool {
        let environment = before.environment();
        &&& self.same_tables(before)
        &&& self.environment() == environment
        &&& match pending {
            Pending::Assign(e) => self.frames() == base && self.assigned(
                before,
                &e.name,
                e.distance,
                value,
            ) && action is Continue,
            Pending::BinaryLeft(e) => self.heap() == before.heap() && self.stacked(
                base,
                Pending::BinaryRight(e),
                environment,
                seq![value],
            ) && self.focus() == Focus::Evaluate(&e.right) && action is Continue,
            Pending::BinaryRight(e) => self.heap() == before.heap() && match binary_outcome(
                e.operator.token_type,
                e.operator.line,
                held[0],
                value,
            ) {
                BinaryOutcome::Value(result) => self.frames() == base && self.produces(result)
                    && action is Continue,
                BinaryOutcome::Arithmetic { operator, left, right } => self.frames() == base
                    && self.focus() == Focus::Awaiting(
                    Request::Arithmetic { operator, left, right },
                ) && action == (Action::Arithmetic { operator, left, right }),
                BinaryOutcome::Concatenate { text, other, text_first } => self.stacked(
                    base,
                    Pending::Concatenate { text_first },
                    environment,
                    seq![Value::String(text)],
                ) && (self.focus() matches Focus::Rendering(found) && found@ == other)
                    && action is Continue,
                BinaryOutcome::Failure { line, message } => self.frames() == base
                    && self.fails_with(line, message) && action is Continue,
            },
            Pending::Logical(e) => self.heap() == before.heap() && self.frames() == base
                && action is Continue && if (e.operator.token_type == TokenType::Or) == truthy(
                value,
            ) {
                self.produces(value)
            } else {
                self.focus() == Focus::Evaluate(&e.right)
            },
            Pending::Unary(e) => self.heap() == before.heap() && self.frames() == base
                && action is Continue && match unary_outcome(e.operator.token_type, value) {
                Ok(result) => self.produces(result),
                Err(message) => self.fails_with(e.operator.line, message),
            },
            Pending::IndexObject(e) => self.heap() == before.heap() && self.stacked(
                base,
                Pending::IndexIndex(e),
                environment,
                seq![value],
            ) && self.focus() == Focus::Evaluate(&e.index) && action is Continue,
            Pending::IndexIndex(e) => self.heap() == before.heap() && self.frames() == base
                && action is Continue && match index_outcome(held[0], value) {
                Ok(at) => held[0] matches Value::Array(items) && self.produces(items[at as int]),
                Err(message) => self.fails_with(e.bracket.line, message),
            },
            Pending::AssignIndexObject(e) => self.heap() == before.heap() && self.stacked(
                base,
                Pending::AssignIndexIndex(e),
                environment,
                seq![value],
            ) && self.focus() == Focus::Evaluate(&e.index) && action is Continue,
            Pending::AssignIndexIndex(e) => self.heap() == before.heap() && self.stacked(
                base,
                Pending::AssignIndexValue(e),
                environment,
                seq![held[0], value],
            ) && self.focus() == Focus::Evaluate(&e.value) && action is Continue,
            Pending::AssignIndexValue(e) => self.heap() == before.heap() && self.frames() == base
                && action is Continue && match index_outcome(held[0], held[1]) {
                Ok(_) => self.produces(value),
                Err(message) => self.fails_with(e.bracket.line, message),
            },
            Pending::Elements(e) => self.heap() == before.heap() && action is Continue && if held.len()
                + 1 == e.values.len() {
                self.frames() == base && self.produces(Value::Array(held.push(value)))
            } else {
                self.stacked(base, Pending::Elements(e), environment, held.push(value))
                    && self.focus() == Focus::Evaluate(&e.values[held.len() as int + 1])
            },
            _ => true,
        }
    }

    /// Hands a value to pending work of an operator; see
    /// [`Interpreter::settled_operator`].
    pub(super) fn settle_operator(&mut self, pending: Pending<'a>, held: Vec<LiteralType>, value: LiteralType) -> (action:
        Action)
        requires
            old(self).wf(),
            !(old(self).focus() is Awaiting),
            fits(pending, old(self).environment(), held@.len()),
        ensures
            final(self).wf(),
            final(self).settled_operator(
                *old(self),
                old(self).frames(),
                pending,
                values_of(held@),
                value@,
                action,
            ),
            (old(self).tables_resolved() && old(self).frames_resolved() && pending_safe(
                pending,
                static_view(old(self).heap(), old(self).environment() as int),
            )) ==> final(self).resolved(),
    {
        let environment = self.environment;
        let mut held = held;
        let ghost kept = values_of(held@);
        self.focus = Focus::Idle;
        match pending {
            Pending::Assign(e) => {
                self.assign(&e.name, e.distance, value);
                Action::Continue
            },
            Pending::BinaryLeft(e) => {
                held.push(value);
                assert(values_of(held@) =~= seq![value@]);
                self.push(Pending::BinaryRight(e), environment, held);
                self.focus = Focus::Evaluate(&e.right);
                Action::Continue
            },
            Pending::BinaryRight(e) => {
                match held.pop() {
                    Some(left) => {
                        assert(kept[0] == left@);
                        match binary_operation(&e.operator, left, value) {
                            BinaryStep::Value(result) => {
                                self.focus = Focus::Produced(result);
                                Action::Continue
                            },
                            BinaryStep::Arithmetic { operator, left, right } => {
                                self.focus = Focus::Awaiting(
                                    Request::Arithmetic { operator, left, right },
                                );
                                Action::Arithmetic { operator, left, right }
                            },
                            BinaryStep::Concatenate { text, other, text_first } => {
                                let mut texts: Vec<LiteralType> = Vec::new();
                                texts.push(LiteralType::String(text));
                                assert(values_of(texts@) =~= seq![Value::String(text@)]);
                                self.push(Pending::Concatenate { text_first }, environment, texts);
                                self.focus = Focus::Rendering(other);
                                Action::Continue
                            },
                            BinaryStep::Failure(error) => {
                                self.focus = Focus::Failing(error);
                                Action::Continue
                            },
                        }
                    },
                    None => Action::Continue,
                }
            },
            Pending::Logical(e) => {
                let is_or = e.operator.token_type == TokenType::Or;
                if is_or == value.is_truthy() {
                    self.focus = Focus::Produced(value);
                } else {
                    self.focus = Focus::Evaluate(&e.right);
                }
                Action::Continue
            },
            Pending::Unary(e) => {
                match unary_operation(&e.operator, value) {
                    Ok(result) => {
                        self.focus = Focus::Produced(result);
                    },
                    Err(error) => {
                        self.focus = Focus::Failing(error);
                    },
                }
                Action::Continue
            },
            Pending::IndexObject(e) => {
                held.push(value);
                assert(values_of(held@) =~= seq![value@]);
                self.push(Pending::IndexIndex(e), environment, held);
                self.focus = Focus::Evaluate(&e.index);
                Action::Continue
            },
            Pending::IndexIndex(e) => {
                assert(kept[0] == held@[0]@);
                match index_value(e.bracket.line, &held[0], &value) {
                    Ok(result) => {
                        self.focus = Focus::Produced(result);
                    },
                    Err(error) => {
                        self.focus = Focus::Failing(error);
                    },
                }
                Action::Continue
            },
            Pending::AssignIndexObject(e) => {
                held.push(value);
                assert(values_of(held@) =~= seq![value@]);
                self.push(Pending::AssignIndexIndex(e), environment, held);
                self.focus = Focus::Evaluate(&e.index);
                Action::Continue
            },
            Pending::AssignIndexIndex(e) => {
                held.push(value);
                assert(values_of(held@) =~= seq![kept[0], value@]);
                self.push(Pending::AssignIndexValue(e), environment, held);
                self.focus = Focus::Evaluate(&e.value);
                Action::Continue
            },
            Pending::AssignIndexValue(e) => {
                assert(kept[0] == held@[0]@);
                assert(kept[1] == held@[1]@);
                match assign_index_value(e.bracket.line, &held[0], &held[1], value) {
                    Ok(result) => {
                        self.focus = Focus::Produced(result);
                    },
                    Err(error) => {
                        self.focus = Focus::Failing(error);
                    },
                }
                Action::Continue
            },
            Pending::Elements(e) => {
                held.push(value);
                assert(values_of(held@) =~= kept.push(value@));
                if held.len() == e.values.len() {
                    proof {
                        lemma_array_view(held);
                    }
                    self.focus = Focus::Produced(LiteralType::Array(held));
                } else {
                    let next = held.len();
                    self.push(Pending::Elements(e), environment, held);
                    self.focus = Focus::Evaluate(&e.values[next]);
                }
                Action::Continue
            },
            _ => Action::Continue,
        }
    }

}

} // verus!
