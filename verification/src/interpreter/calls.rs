//! Calls: of host functions, of user functions, and of classes.

use vstd::prelude::*;
use vstd::string::*;
use crate::callable::{Callable, JasnFunction, NativeFunction};
use crate::environment::Environment;
use crate::error_handler::Error;
use crate::evaluation::{decimal, decimal_text};
use crate::machine::{Action, Focus, Frame, Pending, Request, fits, pending_safe};
use crate::safety::{
    function_safe, heap_grows, lemma_block_safe_grows, lemma_push_grows, lemma_static_view_grows,
    parameter_names, static_view,
};
use crate::statements::{Class, Function};
use crate::token::{LiteralType, Token, Value, values_of};
use super::Interpreter;

verus! {

/// The bindings of the first `count` parameters to the arguments in the same places.
pub open spec fn argument_bindings(params: Seq<Token>, arguments: Seq<Value>, count: int) -> Map<
    Seq<char>,
    Value,
>
    decreases count,
{
    if count <= 0 || count > params.len() || count > arguments.len() {
        Map::empty()
    } else {
        argument_bindings(params, arguments, count - 1).insert(
            params[count - 1].lexeme@,
            arguments[count - 1],
        )
    }
}

/// The names bound to arguments are the names of the parameters.
pub proof fn lemma_argument_names(params: Seq<Token>, arguments: Seq<Value>, count: int)
    requires
        0 <= count <= params.len(),
        count <= arguments.len(),
    ensures
        argument_bindings(params, arguments, count).dom() == parameter_names(params, count),
    decreases count,
{
    if count > 0 {
        lemma_argument_names(params, arguments, count - 1);
    }
    assert(argument_bindings(params, arguments, count).dom() =~= parameter_names(params, count));
}

/// The store `after` is `before` with one more frame, enclosed by `parent` and holding
/// `bindings`.
pub open spec fn framed(
    after: Environment,
    before: Environment,
    parent: int,
    bindings: Map<Seq<char>, Value>,
) -> bool {
    &&& after.len() == before.len() + 1
    &&& after.enclosing(before.len() as int) == Some(parent)
    &&& after.bindings(before.len() as int) == bindings
    &&& forall|i: int| 0 <= i < before.len() ==> after.enclosing(i) == before.enclosing(i)
    &&& forall|i: int| 0 <= i < before.len() ==> after.bindings(i) == before.bindings(i)
}

/// The message for a call with the wrong number of arguments.
pub open spec fn arity_message(expected: nat, found: nat) -> Seq<char> {
    "Expected "@ + decimal_text(expected) + " arguments but found "@ + decimal_text(found) + "."@
}

/// The message for a call of what cannot be called.
pub open spec fn not_callable_message() -> Seq<char> {
    "Can only call functions and classes."@
}

impl<'a> Interpreter<'a> {
    /// The number of arguments that a callable takes: a host function as many as it
    /// declares, a user function as many as it has parameters, a class none. An instance
    /// cannot be called, nor can a handle that names nothing.
    pub open spec fn arity_of(&self, callable: Callable) -> Option<nat> {
        match callable {
            Callable::NativeFunction(native) => Some(native.arity as nat),
            Callable::Function(f) => if f < self.functions().len() {
                Some(self.functions()[f as int].declaration.params@.len())
            } else {
                None
            },
            Callable::Class(c) => if c < self.classes().len() {
                Some(0)
            } else {
                None
            },
            Callable::Instance(_) => None,
        }
    }

    /// The machine is `before` after the call of a user function: a fresh frame, enclosed
    /// by the frame that the function is closed over and not by the caller's, binds the
    /// parameters to the arguments; the body will run in it, and the end of the call is
    /// pending below the body. `base` is the pending work of the caller.
    pub open spec fn entered(
        &self,
        before: Self,
        base: Seq<Frame<'a>>,
        function: JasnFunction<'a>,
        arguments: Seq<Value>,
    ) -> bool {
        let fresh = before.heap().len() as usize;
        &&& self.same_tables(before)
        &&& framed(
            self.heap(),
            before.heap(),
            function.closure as int,
            argument_bindings(function.declaration.params@, arguments, arguments.len() as int),
        )
        &&& self.environment() == fresh
        &&& self.frames().len() == base.len() + 2
        &&& self.frames().take(base.len() as int) == base
        &&& self.frames()[base.len() as int].pending == Pending::<'a>::Call
        &&& self.frames()[base.len() as int].environment == before.environment()
        &&& self.frames()[base.len() as int + 1].pending == (Pending::Sequence {
            statements: &function.declaration.body,
            next: 0,
            top_level: false,
        })
        &&& self.frames()[base.len() as int + 1].environment == fresh
        &&& self.focus() is Completed
    }

    /// The machine is `before` after a call of `callable` with as many arguments as it
    /// takes. A host function is handed to the host. A user function is entered. A class
    /// makes an instance of itself with no fields, which is the result.
    pub open spec fn called(
        &self,
        before: Self,
        base: Seq<Frame<'a>>,
        callable: Callable,
        arguments: Seq<Value>,
        action: Action,
    ) -> bool {
        match callable {
            Callable::NativeFunction(native) => self.same_stores(before) && self.frames() == base
                && self.environment() == before.environment() && (
            self.focus() matches Focus::Awaiting(Request::Native { function, arguments: kept })
                && function == native.function && values_of(kept@) == arguments) && (
            action matches Action::Native { function, arguments: asked } && function
                == native.function && values_of(asked@) == arguments),
            Callable::Function(f) => self.entered(
                before,
                base,
                before.functions()[f as int],
                arguments,
            ) && action is Continue,
            Callable::Class(c) => self.heap() == before.heap() && self.functions()
                == before.functions() && self.classes() == before.classes() && self.handler()
                == before.handler() && self.frames() == base && self.environment()
                == before.environment() && self.instances().len() == before.instances().len() + 1
                && self.instances().keeps(before.instances()) && self.instances().class_of(
                before.instances().len() as int,
            ) == c && self.instances().fields(before.instances().len() as int) == Map::<
                Seq<char>,
                Value,
            >::empty() && self.produces(
                Value::Callable(Callable::Instance(before.instances().len() as usize)),
            ) && action is Continue,
            Callable::Instance(_) => true,
        }
    }

    /// The machine is `before` after the callee and the arguments of a call are known:
    /// what is not callable fails the call, and so does a number of arguments other than
    /// the callee takes; then nothing of the callee runs and no store changes. Otherwise
    /// the callee is called.
    pub open spec fn invoked(
        &self,
        before: Self,
        base: Seq<Frame<'a>>,
        line: u32,
        callee: Value,
        arguments: Seq<Value>,
        action: Action,
    ) -> bool {
        let arity = match callee {
            Value::Callable(callable) => before.arity_of(callable),
            _ => None,
        };
        match arity {
            Some(expected) => if expected == arguments.len() {
                self.called(before, base, callee->Callable_0, arguments, action)
            } else {
                self.same_stores(before) && self.frames() == base && self.environment()
                    == before.environment() && self.fails_with(
                    line,
                    arity_message(expected, arguments.len()),
                ) && action is Continue
            },
            None => self.same_stores(before) && self.frames() == base && self.environment()
                == before.environment() && self.fails_with(line, not_callable_message())
                && action is Continue,
        }
    }

    /// Enters a user function; see [`Interpreter::entered`].
    pub(super) fn enter_function(&mut self, function: JasnFunction<'a>, arguments: Vec<LiteralType>)
        requires
            old(self).wf(),
            !(old(self).focus() is Awaiting),
            old(self).heap().contains(function.closure as int),
            arguments@.len() == function.declaration.params@.len(),
        ensures
            final(self).wf(),
            final(self).entered(*old(self), old(self).frames(), function, values_of(arguments@)),
            (old(self).tables_resolved() && old(self).frames_resolved() && function_safe(
                *function.declaration,
                static_view(old(self).heap(), function.closure as int),
            )) ==> final(self).resolved(),
    {
        let caller = self.environment;
        let params = &function.declaration.params;
        let ghost given = values_of(arguments@);
        let ghost safe = self.tables_resolved() && self.frames_resolved() && function_safe(
            *function.declaration,
            static_view(self.heap(), function.closure as int),
        );
        self.focus = Focus::Idle;
        let fresh = self.enter(function.closure);
        let ghost entered = *self;
        let mut i: usize = 0;
        for argument in it: arguments
            invariant
                self.wf(),
                i == it.index(),
                i <= arguments@.len(),
                it.seq() == arguments@,
                given == values_of(arguments@),
                arguments@.len() == params@.len(),
                params == &function.declaration.params,
                fresh == old(self).heap().len(),
                caller == old(self).environment(),
                self.same_tables(*old(self)),
                self.frames() == old(self).frames(),
                self.environment() == old(self).environment(),
                self.focus() is Idle,
                heap_grows(old(self).heap(), self.heap()),
                framed(
                    self.heap(),
                    old(self).heap(),
                    function.closure as int,
                    argument_bindings(params@, given, i as int),
                ),
                old(self).tables_resolved() ==> self.tables_resolved(),
                old(self).frames_resolved() ==> self.frames_resolved(),
        {
            let ghost previous = *self;
            assert(i < params.len());
            let name: String = params[i].lexeme.clone();
            self.bind(fresh, name, argument);
            proof {
                assert(given[i as int] == argument@);
                assert forall|k: int| 0 <= k < old(self).heap().len() implies (
                #[trigger] old(self).heap().bindings(k)).dom().subset_of(
                    self.heap().bindings(k).dom(),
                ) by {
                    assert(self.heap().bindings(k) == previous.heap().bindings(k));
                }
            }
            i += 1;
        }
        let held: Vec<LiteralType> = Vec::new();
        let body_held: Vec<LiteralType> = Vec::new();
        assert(values_of(held@) =~= Seq::<Value>::empty());
        proof {
            if safe {
                let names = static_view(old(self).heap(), function.closure as int);
                let scope = parameter_names(params@, params@.len() as int);
                lemma_argument_names(params@, given, params@.len() as int);
                lemma_static_view_grows(old(self).heap(), self.heap(), function.closure as int);
                lemma_push_grows(names, static_view(self.heap(), function.closure as int), scope);
                lemma_block_safe_grows(
                    function.declaration.body@,
                    0,
                    names.push(scope),
                    static_view(self.heap(), fresh as int),
                );
            }
        }
        self.push(Pending::Call, caller, held);
        self.push(
            Pending::Sequence { statements: &function.declaration.body, next: 0, top_level: false },
            fresh,
            body_held,
        );
        self.environment = fresh;
        self.focus = Focus::Completed;
        proof {
            assert(self.frames().take(old(self).frames().len() as int) =~= old(self).frames());
        }
    }

}

impl Callable {
    /// The number of arguments that the callable takes; see [`Interpreter::arity_of`].
    pub fn arity<'a>(&self, interpreter: &Interpreter<'a>) -> (arity: Option<usize>)
        ensures
            match interpreter.arity_of(*self) {
                Some(expected) => arity matches Some(found) && found as nat == expected,
                None => arity is None,
            },
    {
        match self {
            Callable::NativeFunction(native) => {
                let arity: usize = native.arity as usize;
                Some(arity)
            },
            Callable::Function(f) => {
                if *f < interpreter.functions.len() {
                    Some(interpreter.functions[*f].declaration.params.len())
                } else {
                    None
                }
            },
            Callable::Class(c) => {
                if *c < interpreter.classes.len() {
                    Some(0)
                } else {
                    None
                }
            },
            Callable::Instance(_) => None,
        }
    }

    /// Calls the callable with as many arguments as it takes; see
    /// [`Interpreter::called`].
    pub fn call<'a>(&self, interpreter: &mut Interpreter<'a>, arguments: Vec<LiteralType>) -> (action:
        Action)
        requires
            old(interpreter).wf(),
            !(old(interpreter).focus() is Awaiting),
            old(interpreter).arity_of(*self) == Some(arguments@.len()),
        ensures
            final(interpreter).wf(),
            final(interpreter).called(
                *old(interpreter),
                old(interpreter).frames(),
                *self,
                values_of(arguments@),
                action,
            ),
            (old(interpreter).tables_resolved() && old(interpreter).frames_resolved()) ==> final(interpreter).resolved(),
    {
        match self {
            Callable::NativeFunction(native) => {
                let request = Request::Native { function: native.function, arguments };
                let action = Interpreter::issue(&request);
                interpreter.focus = Focus::Awaiting(request);
                action
            },
            Callable::Function(f) => {
                let function: JasnFunction<'a> = interpreter.functions[*f];
                assert(function == interpreter.functions()[*f as int]);
                interpreter.enter_function(function, arguments);
                Action::Continue
            },
            Callable::Class(c) => {
                let instance = interpreter.instances.create(*c);
                interpreter.focus = Focus::Produced(
                    LiteralType::Callable(Callable::Instance(instance)),
                );
                Action::Continue
            },
            Callable::Instance(_) => Action::Continue,
        }
    }

}

impl<'a> Interpreter<'a> {
    /// Calls `callee` with `arguments`, where the callee can be called and takes as many;
    /// see [`Interpreter::invoked`].
    pub(super) fn invoke(&mut self, line: u32, callee: LiteralType, arguments: Vec<LiteralType>) -> (action:
        Action)
        requires
            old(self).wf(),
            !(old(self).focus() is Awaiting),
        ensures
            final(self).wf(),
            final(self).invoked(
                *old(self),
                old(self).frames(),
                line,
                callee@,
                values_of(arguments@),
                action,
            ),
            (old(self).tables_resolved() && old(self).frames_resolved()) ==> final(self).resolved(),
    {
        let arity = match &callee {
            LiteralType::Callable(callable) => callable.arity(self),
            _ => None,
        };
        match arity {
            Some(expected) => {
                if expected == arguments.len() {
                    match callee {
                        LiteralType::Callable(callable) => callable.call(self, arguments),
                        _ => Action::Continue,
                    }
                } else {
                    let message = String::from_str("Expected ").concat(
                        decimal(expected).as_str(),
                    ).concat(" arguments but found ").concat(
                        decimal(arguments.len()).as_str(),
                    ).concat(".");
                    self.focus = Focus::Failing(Error::RuntimeError(line, message));
                    Action::Continue
                }
            },
            None => {
                self.focus = Focus::Failing(
                    Error::RuntimeError(
                        line,
                        String::from_str("Can only call functions and classes."),
                    ),
                );
                Action::Continue
            },
        }
    }

    /// What a value does to a pending call. `before` is the machine with that work taken
    /// off: its pending work is `base`, the frame of the work is current, and `held` are
    /// the callee and the arguments so far.
    ///
    /// The callee is evaluated first, then the arguments from left to right, and then the
    /// call is made; see [`Interpreter::invoked`].
    pub open spec fn settled_call(
        &self,
        before: Self,
        base: Seq<Frame<'a>>,
        pending: Pending<'a>,
        held: Seq<Value>,
        value: Value,
        action: Action,
    ) -> bool {
        let all = held.push(value);
        match pending {
            Pending::Callee(e) => if e.arguments.len() == 0 {
                self.invoked(before, base, e.paren.line, value, Seq::empty(), action)
            } else {
                self.same_stores(before) && self.environment() == before.environment()
                    && self.stacked(base, Pending::Arguments(e), before.environment(), seq![value])
                    && self.focus() == Focus::Evaluate(&e.arguments[0]) && action is Continue
            },
            Pending::Arguments(e) => if all.len() == e.arguments.len() + 1 {
                self.invoked(
                    before,
                    base,
                    e.paren.line,
                    all[0],
                    all.subrange(1, all.len() as int),
                    action,
                )
            } else {
                self.same_stores(before) && self.environment() == before.environment()
                    && self.stacked(base, Pending::Arguments(e), before.environment(), all)
                    && self.focus() == Focus::Evaluate(&e.arguments[all.len() - 1])
                    && action is Continue
            },
            _ => true,
        }
    }

    /// Hands a value to a pending call; see [`Interpreter::settled_call`].
    pub(super) fn settle_call(&mut self, pending: Pending<'a>, held: Vec<LiteralType>, value: LiteralType) -> (action:
        Action)
        requires
            old(self).wf(),
            !(old(self).focus() is Awaiting),
            fits(pending, old(self).environment(), held@.len()),
        ensures
            final(self).wf(),
            final(self).settled_call(
                *old(self),
                old(self).frames(),
                pending,
                values_of(held@),
                value@,
                action,
            ),
            (old(self).tables_resolved() && old(self).frames_resolved() && pending_safe(
                pending,
                static_view(old(self).heap(), old(self).environment() as int),
            )) ==> final(self).resolved(),
    {
        let environment = self.environment;
        let mut held = held;
        let ghost kept = values_of(held@);
        self.focus = Focus::Idle;
        match pending {
            Pending::Callee(e) => {
                if e.arguments.len() == 0 {
                    assert(values_of(held@) =~= Seq::<Value>::empty());
                    self.invoke(e.paren.line, value, held)
                } else {
                    held.push(value);
                    assert(values_of(held@) =~= seq![value@]);
                    self.push(Pending::Arguments(e), environment, held);
                    self.focus = Focus::Evaluate(&e.arguments[0]);
                    Action::Continue
                }
            },
            Pending::Arguments(e) => {
                held.push(value);
                let ghost all = values_of(held@);
                assert(all =~= kept.push(value@));
                if held.len() - 1 == e.arguments.len() {
                    let callee = held.remove(0);
                    assert(values_of(held@) =~= all.subrange(1, all.len() as int));
                    assert(callee@ == all[0]);
                    self.invoke(e.paren.line, callee, held)
                } else {
                    let next = held.len() - 1;
                    self.push(Pending::Arguments(e), environment, held);
                    self.focus = Focus::Evaluate(&e.arguments[next]);
                    Action::Continue
                }
            },
            _ => Action::Continue,
        }
    }

}

} // verus!
