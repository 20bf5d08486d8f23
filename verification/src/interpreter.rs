//! The evaluator: a machine that walks the syntax tree one step at a time.
//!
//! The machine keeps what it is about to do (its focus), the work it has put off (its
//! frames), and the stores of the run: scope frames, user functions, classes and
//! instances. One call of [`Interpreter::step`] makes one move and says what the host is
//! to do before the next: nothing, print a line, report a failure, compute on two
//! numbers, format numbers, or call a host function.

use vstd::prelude::*;
use vstd::string::*;
use crate::callable::{Callable, Instances, JasnClass, JasnFunction, NativeFunction, Property};
use crate::environment::{EnvRef, Environment};
use crate::error_handler::ErrorHandler;
use crate::evaluation::is_runtime_error;
use crate::expressions::Expr;
use crate::interpreter::calls::arity_message;
use crate::interpreter::rendering::{numbers, numbers_of};
use crate::machine::lemma_pending_safe_grows;
use crate::machine::{
    Action, Boundary, Focus, Frame, Group, Pending, Request, Response, asks, fits, focus_safe,
    group_of, holds, lemma_focus_safe_grows, pending_safe, texts_of,
};
use crate::native_functions::{NativeFunctions, native_value, with_natives};
use crate::safety::{
    add_name, block_safe, expr_safe, function_safe, heap_grows, instance_names,
    lemma_extends_grows, lemma_function_safe_grows, lemma_push_grows, lemma_rebinds_grows,
    lemma_reference_reaches, lemma_static_view_grows, lemma_static_view_nested,
    lemma_static_view_rebound, lemma_target_reaches, names_grow, static_view,
};
use crate::statements::Stmt;
use crate::token::{LiteralType, Token, Value, values_of};

pub mod calls;
pub mod expressions;
pub mod host;
pub mod properties;
pub mod rendering;
pub mod sharing;
pub mod statements;

verus! {

/// The global frame.
pub const GLOBAL: EnvRef = 0;

/// The evaluator.
#[derive(Debug)]
pub struct Interpreter<'a> {
    environment: EnvRef,
    heap: Environment,
    functions: Vec<JasnFunction<'a>>,
    classes: Vec<JasnClass<'a>>,
    instances: Instances,
    frames: Vec<Frame<'a>>,
    focus: Focus<'a>,
    pub error_handler: ErrorHandler,
}

impl<'a> Interpreter<'a> {
    /// The store of scope frames.
    pub closed spec fn heap(&self) -> Environment {
        self.heap
    }

    /// The frame that is current.
    pub closed spec fn environment(&self) -> EnvRef {
        self.environment
    }

    /// The pending work, oldest first.
    pub closed spec fn frames(&self) -> Seq<Frame<'a>> {
        self.frames@
    }

    /// What the evaluator does next.
    pub closed spec fn focus(&self) -> Focus<'a> {
        self.focus
    }

    /// The user functions made so far.
    pub closed spec fn functions(&self) -> Seq<JasnFunction<'a>> {
        self.functions@
    }

    /// The classes made so far.
    pub closed spec fn classes(&self) -> Seq<JasnClass<'a>> {
        self.classes@
    }

    /// The instances made so far.
    pub closed spec fn instances(&self) -> Instances {
        self.instances
    }

    /// The record of failures.
    pub closed spec fn handler(&self) -> ErrorHandler {
        self.error_handler
    }

    /// The stores are in order and every handle that the machine holds names something.
    pub open spec fn wf(&self) -> bool {
        &&& self.heap().wf()
        &&& self.instances().wf()
        &&& self.heap().contains(self.environment() as int)
        &&& forall|k: int|
            0 <= k < self.frames().len() ==> holds(#[trigger] self.frames()[k])
                && self.heap().contains(self.frames()[k].environment as int)
        &&& forall|f: int|
            0 <= f < self.functions().len() ==> self.heap().contains(
                (#[trigger] self.functions()[f]).closure as int,
            )
        &&& forall|c: int, m: int|
            0 <= c < self.classes().len() && 0 <= m < self.classes()[c].methods.len()
                ==> self.heap().contains((#[trigger] self.classes()[c].methods[m]).closure as int)
        &&& match self.focus() {
            Focus::Awaiting(Request::Format { value, numbers }) => numbers@ == numbers_of(value@),
            _ => true,
        }
    }

    /// Every user function and every method can run without a reference missing its
    /// frame: the body of each is safe under the chain of frames it is closed over.
    pub open spec fn tables_resolved(&self) -> bool {
        &&& forall|f: int|
            0 <= f < self.functions().len() ==> function_safe(
                *(#[trigger] self.functions()[f]).declaration,
                static_view(self.heap(), self.functions()[f].closure as int),
            )
        &&& forall|c: int, m: int|
            0 <= c < self.classes().len() && 0 <= m < self.classes()[c].methods.len()
                ==> function_safe(
                *(#[trigger] self.classes()[c].methods[m]).declaration,
                static_view(self.heap(), self.classes()[c].methods[m].closure as int).push(
                    instance_names(),
                ),
            )
    }

    /// All pending work can run without a reference missing its frame.
    pub open spec fn frames_resolved(&self) -> bool {
        forall|k: int|
            0 <= k < self.frames().len() ==> pending_safe(
                (#[trigger] self.frames()[k]).pending,
                static_view(self.heap(), self.frames()[k].environment as int),
            )
    }

    /// Everything that the machine holds can run without a reference missing its frame.
    pub open spec fn resolved(&self) -> bool {
        &&& self.tables_resolved()
        &&& self.frames_resolved()
        &&& focus_safe(self.focus(), static_view(self.heap(), self.environment() as int))
    }

    /// The functions, classes, instances and failure record are those of `before`.
    pub open spec fn same_tables(&self, before: Self) -> bool {
        &&& self.functions() == before.functions()
        &&& self.classes() == before.classes()
        &&& self.instances() == before.instances()
        &&& self.handler() == before.handler()
    }

    /// All stores are those of `before`.
    pub open spec fn same_stores(&self, before: Self) -> bool {
        self.same_tables(before) && self.heap() == before.heap()
    }

    /// The pending work is `base` with one more piece on top.
    pub open spec fn stacked(
        &self,
        base: Seq<Frame<'a>>,
        pending: Pending<'a>,
        environment: EnvRef,
        held: Seq<Value>,
    ) -> bool {
        &&& self.frames().len() == base.len() + 1
        &&& self.frames().drop_last() == base
        &&& self.frames().last().pending == pending
        &&& self.frames().last().environment == environment
        &&& values_of(self.frames().last().held@) == held
    }

    /// The pending work is that of `before` with one more piece on top.
    pub open spec fn pushed(
        &self,
        before: Self,
        pending: Pending<'a>,
        environment: EnvRef,
        held: Seq<Value>,
    ) -> bool {
        self.stacked(before.frames(), pending, environment, held)
    }

    /// An evaluator with nothing loaded: the global frame is current and holds the native
    /// functions.
    pub fn new() -> (machine: Self)
        ensures
            machine.wf(),
            machine.resolved(),
            machine.focus() is Idle,
            machine.frames().len() == 0,
            machine.environment() == GLOBAL,
            machine.heap().len() == 1,
            machine.heap().bindings(0) == with_natives(Map::<Seq<char>, Value>::empty()),
            machine.functions().len() == 0,
            machine.classes().len() == 0,
            machine.instances().len() == 0,
            machine.handler() == (ErrorHandler { had_error: false, had_runtime_error: false }),
    {
        let mut heap = Environment::new();
        NativeFunctions::define_native_functions(&mut heap);
        Interpreter {
            environment: GLOBAL,
            heap,
            functions: Vec::new(),
            classes: Vec::new(),
            instances: Instances::new(),
            frames: Vec::new(),
            focus: Focus::Idle,
            error_handler: ErrorHandler::new(),
        }
    }

    /// Whether a program is loaded and has not ended.
    pub fn is_running(&self) -> (running: bool)
        ensures
            running == !(self.focus() is Idle),
    {
        match self.focus {
            Focus::Idle => false,
            _ => true,
        }
    }

    /// Puts a piece of pending work on top.
    fn push(&mut self, pending: Pending<'a>, environment: EnvRef, held: Vec<LiteralType>)
        requires
            old(self).wf(),
            old(self).heap().contains(environment as int),
            fits(pending, environment, held@.len()),
        ensures
            final(self).wf(),
            final(self).same_stores(*old(self)),
            final(self).environment() == old(self).environment(),
            final(self).focus() == old(self).focus(),
            final(self).pushed(*old(self), pending, environment, values_of(held@)),
            (old(self).frames_resolved() && pending_safe(
                pending,
                static_view(old(self).heap(), environment as int),
            )) ==> final(self).frames_resolved(),
    {
        self.frames.push(Frame { pending, environment, held });
        proof {
            assert(self.frames().drop_last() =~= old(self).frames());
            assert forall|k: int| 0 <= k < self.frames().len() implies holds(
                #[trigger] self.frames()[k],
            ) && self.heap().contains(self.frames()[k].environment as int) by {
                if k < old(self).frames().len() {
                    assert(self.frames()[k] == old(self).frames()[k]);
                }
            }
            if old(self).frames_resolved() && pending_safe(
                pending,
                static_view(old(self).heap(), environment as int),
            ) {
                assert forall|k: int| 0 <= k < self.frames().len() implies pending_safe(
                    (#[trigger] self.frames()[k]).pending,
                    static_view(self.heap(), self.frames()[k].environment as int),
                ) by {
                    if k < old(self).frames().len() {
                        assert(self.frames()[k] == old(self).frames()[k]);
                    }
                }
            }
        }
    }

    /// Loads a program: its statements will run in order at the top level, in the global
    /// frame. Nothing is loaded while another program is running.
    pub fn interpret(&mut self, statements: &'a Vec<Stmt>) -> (loaded: bool)
        requires
            old(self).wf(),
        ensures
            final(self).wf(),
            loaded == (old(self).focus() is Idle),
            final(self).same_stores(*old(self)),
            !loaded ==> final(self).frames() == old(self).frames() && final(self).focus()
                == old(self).focus() && final(self).environment() == old(self).environment(),
            loaded ==> final(self).focus() is Completed && final(self).environment() == GLOBAL
                && final(self).pushed(
                *old(self),
                Pending::Sequence { statements, next: 0, top_level: true },
                GLOBAL,
                Seq::empty(),
            ),
            (loaded && old(self).tables_resolved() && old(self).frames_resolved() && block_safe(
                statements@,
                0,
                Seq::empty(),
            )) ==> final(self).resolved(),
    {
        if self.is_running() {
            return false;
        }
        let held: Vec<LiteralType> = Vec::new();
        assert(values_of(held@) =~= Seq::<Value>::empty());
        self.push(Pending::Sequence { statements, next: 0, top_level: true }, GLOBAL, held);
        self.environment = GLOBAL;
        self.focus = Focus::Completed;
        true
    }

    /// The machine is about to hand `value` to the pending work on top.
    pub open spec fn produces(&self, value: Value) -> bool {
        self.focus() matches Focus::Produced(found) && found@ == value
    }

    /// The machine is about to carry a failure with this line and message to the top
    /// level.
    pub open spec fn fails_with(&self, line: u32, message: Seq<char>) -> bool {
        self.focus() matches Focus::Failing(error) && is_runtime_error(error, line, message)
    }

    /// Puts `pending` off in the current frame, holding nothing, and turns to `next`.
    fn suspend(&mut self, pending: Pending<'a>, next: &'a Expr)
        requires
            old(self).wf(),
            fits(pending, old(self).environment(), 0),
        ensures
            final(self).wf(),
            final(self).same_stores(*old(self)),
            final(self).environment() == old(self).environment(),
            final(self).pushed(*old(self), pending, old(self).environment(), Seq::empty()),
            final(self).focus() == Focus::Evaluate(next),
            (old(self).tables_resolved() && old(self).frames_resolved() && pending_safe(
                pending,
                static_view(old(self).heap(), old(self).environment() as int),
            ) && expr_safe(*next, static_view(old(self).heap(), old(self).environment() as int)))
                ==> final(self).resolved(),
    {
        let held: Vec<LiteralType> = Vec::new();
        assert(values_of(held@) =~= Seq::<Value>::empty());
        let environment = self.environment;
        self.focus = Focus::Idle;
        self.push(pending, environment, held);
        self.focus = Focus::Evaluate(next);
    }

    /// The user functions and methods stay runnable when the store of frames grows.
    pub proof fn lemma_tables_survive(before: Self, after: Self)
        requires
            before.wf(),
            after.heap().wf(),
            heap_grows(before.heap(), after.heap()),
            after.functions() == before.functions(),
            after.classes() == before.classes(),
            before.tables_resolved(),
        ensures
            after.tables_resolved(),
    {
        assert forall|f: int| 0 <= f < after.functions().len() implies function_safe(
            *(#[trigger] after.functions()[f]).declaration,
            static_view(after.heap(), after.functions()[f].closure as int),
        ) by {
            let function = before.functions()[f];
            lemma_static_view_grows(before.heap(), after.heap(), function.closure as int);
            lemma_function_safe_grows(
                *function.declaration,
                static_view(before.heap(), function.closure as int),
                static_view(after.heap(), function.closure as int),
            );
        }
        assert forall|c: int, m: int|
            0 <= c < after.classes().len() && 0 <= m < after.classes()[c].methods.len() implies function_safe(
            *(#[trigger] after.classes()[c].methods[m]).declaration,
            static_view(after.heap(), after.classes()[c].methods[m].closure as int).push(
                instance_names(),
            ),
        ) by {
            let method = before.classes()[c].methods[m];
            lemma_static_view_grows(before.heap(), after.heap(), method.closure as int);
            lemma_push_grows(
                static_view(before.heap(), method.closure as int),
                static_view(after.heap(), method.closure as int),
                instance_names(),
            );
            lemma_function_safe_grows(
                *method.declaration,
                static_view(before.heap(), method.closure as int).push(instance_names()),
                static_view(after.heap(), method.closure as int).push(instance_names()),
            );
        }
    }

    /// The pending work stays runnable when the store of frames grows.
    pub proof fn lemma_frames_survive(before: Self, after: Self)
        requires
            before.wf(),
            after.heap().wf(),
            heap_grows(before.heap(), after.heap()),
            after.frames() == before.frames(),
            before.frames_resolved(),
        ensures
            after.frames_resolved(),
    {
        assert forall|k: int| 0 <= k < after.frames().len() implies pending_safe(
            (#[trigger] after.frames()[k]).pending,
            static_view(after.heap(), after.frames()[k].environment as int),
        ) by {
            let frame = before.frames()[k];
            lemma_static_view_grows(before.heap(), after.heap(), frame.environment as int);
            lemma_pending_safe_grows(
                frame.pending,
                static_view(before.heap(), frame.environment as int),
                static_view(after.heap(), frame.environment as int),
            );
        }
    }

    /// Creates an empty frame enclosed by `parent`.
    fn enter(&mut self, parent: EnvRef) -> (frame: EnvRef)
        requires
            old(self).wf(),
            old(self).heap().contains(parent as int),
        ensures
            final(self).wf(),
            final(self).heap().extends(old(self).heap(), parent as int),
            frame == old(self).heap().len(),
            final(self).same_tables(*old(self)),
            final(self).frames() == old(self).frames(),
            final(self).environment() == old(self).environment(),
            final(self).focus() == old(self).focus(),
            heap_grows(old(self).heap(), final(self).heap()),
            names_grow(
                static_view(old(self).heap(), parent as int).push(Set::empty()),
                static_view(final(self).heap(), frame as int),
            ),
            old(self).tables_resolved() ==> final(self).tables_resolved(),
            old(self).frames_resolved() ==> final(self).frames_resolved(),
    {
        let frame = self.heap.nest(parent);
        proof {
            lemma_extends_grows(old(self).heap(), self.heap(), parent as int);
            lemma_static_view_nested(old(self).heap(), self.heap(), parent as int);
            if old(self).tables_resolved() {
                Self::lemma_tables_survive(*old(self), *self);
            }
            if old(self).frames_resolved() {
                Self::lemma_frames_survive(*old(self), *self);
            }
        }
        frame
    }

    /// Binds `name` to `value` in `frame`.
    fn bind(&mut self, frame: EnvRef, name: String, value: LiteralType)
        requires
            old(self).wf(),
            old(self).heap().contains(frame as int),
        ensures
            final(self).wf(),
            final(self).heap().rebinds(old(self).heap(), frame as int, name@, value@),
            final(self).same_tables(*old(self)),
            final(self).frames() == old(self).frames(),
            final(self).environment() == old(self).environment(),
            final(self).focus() == old(self).focus(),
            heap_grows(old(self).heap(), final(self).heap()),
            names_grow(
                add_name(static_view(old(self).heap(), frame as int), name@),
                static_view(final(self).heap(), frame as int),
            ),
            old(self).tables_resolved() ==> final(self).tables_resolved(),
            old(self).frames_resolved() ==> final(self).frames_resolved(),
    {
        self.heap.define(frame, name, value);
        proof {
            lemma_rebinds_grows(old(self).heap(), self.heap(), frame as int, name@, value@);
            lemma_static_view_rebound(old(self).heap(), self.heap(), frame as int, name@, value@);
            if old(self).tables_resolved() {
                Self::lemma_tables_survive(*old(self), *self);
            }
            if old(self).frames_resolved() {
                Self::lemma_frames_survive(*old(self), *self);
            }
        }
    }

    /// Takes the piece of pending work on top, and makes its frame the current one.
    fn pop(&mut self) -> (top: Option<Frame<'a>>)
        requires
            old(self).wf(),
        ensures
            final(self).wf(),
            final(self).same_stores(*old(self)),
            final(self).focus() == old(self).focus(),
            match top {
                Some(frame) => old(self).frames().len() > 0 && frame == old(self).frames().last()
                    && final(self).frames() == old(self).frames().drop_last() && holds(frame)
                    && final(self).environment() == frame.environment && (old(self).frames_resolved() ==> pending_safe(
                    frame.pending,
                    static_view(old(self).heap(), frame.environment as int),
                )),
                None => old(self).frames().len() == 0 && final(self).frames() == old(self).frames() && final(self).environment() == old(self).environment(),
            },
            old(self).frames_resolved() ==> final(self).frames_resolved(),
    {
        match self.frames.pop() {
            Some(frame) => {
                self.environment = frame.environment;
                proof {
                    assert(self.frames() =~= old(self).frames().drop_last());
                    assert(frame == old(self).frames()[old(self).frames().len() - 1]);
                    assert forall|k: int| 0 <= k < self.frames().len() implies holds(
                        #[trigger] self.frames()[k],
                    ) && self.heap().contains(self.frames()[k].environment as int) by {
                        assert(self.frames()[k] == old(self).frames()[k]);
                    }
                    if old(self).frames_resolved() {
                        assert forall|k: int| 0 <= k < self.frames().len() implies pending_safe(
                            (#[trigger] self.frames()[k]).pending,
                            static_view(self.heap(), self.frames()[k].environment as int),
                        ) by {
                            assert(self.frames()[k] == old(self).frames()[k]);
                        }
                    }
                }
                Some(frame)
            },
            None => None,
        }
    }

    /// Makes a function of the host known to programs: binds `name` in the global frame
    /// to a native function of the given arity and handle.
    pub fn register(&mut self, name: String, arity: u8, function: usize)
        requires
            old(self).wf(),
        ensures
            final(self).wf(),
            final(self).heap().rebinds(
                old(self).heap(),
                GLOBAL as int,
                name@,
                native_value(arity, function),
            ),
            final(self).same_tables(*old(self)),
            final(self).frames() == old(self).frames(),
            final(self).environment() == old(self).environment(),
            final(self).focus() == old(self).focus(),
            old(self).resolved() ==> final(self).resolved(),
    {
        self.bind(
            GLOBAL,
            name,
            LiteralType::Callable(Callable::NativeFunction(NativeFunction { arity, function })),
        );
        proof {
            if old(self).resolved() {
                lemma_static_view_grows(old(self).heap(), self.heap(), self.environment() as int);
                lemma_focus_safe_grows(
                    self.focus(),
                    static_view(old(self).heap(), self.environment() as int),
                    static_view(self.heap(), self.environment() as int),
                );
            }
        }
    }

    /// A copy of what the global frame binds `name` to.
    pub fn global(&self, name: &String) -> (found: Option<LiteralType>)
        requires
            self.wf(),
        ensures
            match found {
                Some(value) => self.heap().bindings(GLOBAL as int).contains_key(name@)
                    && self.heap().bindings(GLOBAL as int)[name@] == value@,
                None => !self.heap().bindings(GLOBAL as int).contains_key(name@),
            },
    {
        if self.heap.defines(GLOBAL, name) {
            match self.heap.get_at(GLOBAL, 0, name) {
                Ok(value) => Some(value),
                Err(_) => None,
            }
        } else {
            None
        }
    }

    /// The machine is `before` with the pending work on top taken off and the frame of
    /// that work made current.
    pub open spec fn popped(&self, before: Self) -> bool {
        &&& before.frames().len() > 0
        &&& self.same_stores(before)
        &&& self.frames() == before.frames().drop_last()
        &&& self.environment() == before.frames().last().environment
    }

    /// What a value does to pending work that waits for one. `middle` is the machine with
    /// that work taken off, and `held` are the values that the work held on to.
    pub open spec fn settled(
        &self,
        middle: Self,
        pending: Pending<'a>,
        held: Seq<Value>,
        value: Value,
        action: Action,
    ) -> bool {
        match group_of(pending) {
            Group::Statement => self.settled_statement(middle, middle.frames(), pending, value)
                && action is Continue,
            Group::Operator => self.settled_operator(
                middle,
                middle.frames(),
                pending,
                held,
                value,
                action,
            ),
            Group::Call => self.settled_call(middle, middle.frames(), pending, held, value, action),
            Group::Property => self.settled_property(
                middle,
                middle.frames(),
                pending,
                held,
                value,
            ) && action is Continue,
            _ => true,
        }
    }

    /// What one move does to the machine `before` when it hands `value` to the pending
    /// work on top.
    ///
    /// Work that waits for a value is taken off and goes on with it; see
    /// [`Interpreter::settled`]. Work that waits for a statement to complete drops the
    /// value; work that waits for text has the value turned into text. With no pending
    /// work left, the program has ended.
    pub open spec fn delivered(&self, before: Self, value: Value, action: Action) -> bool {
        if before.frames().len() == 0 {
            self.same_stores(before) && self.frames() == before.frames() && self.environment()
                == before.environment() && self.focus() is Idle && action is Continue
        } else {
            let frame = before.frames().last();
            match group_of(frame.pending) {
                Group::Completion => self.same_stores(before) && self.frames() == before.frames()
                    && self.environment() == frame.environment && self.focus() is Completed
                    && action is Continue,
                Group::Text => self.same_stores(before) && self.frames() == before.frames()
                    && self.environment() == frame.environment && (
                self.focus() matches Focus::Rendering(found) && found@ == value)
                    && action is Continue,
                _ => exists|middle: Self| #[trigger]
                    middle.popped(before) && self.settled(
                        middle,
                        frame.pending,
                        values_of(frame.held@),
                        value,
                        action,
                    ),
            }
        }
    }

    /// One move of a machine that hands a value to the pending work on top; see
    /// [`Interpreter::delivered`].
    fn deliver(&mut self, value: LiteralType) -> (action: Action)
        requires
            old(self).wf(),
            !(old(self).focus() is Awaiting),
        ensures
            final(self).wf(),
            final(self).delivered(*old(self), value@, action),
            (old(self).tables_resolved() && old(self).frames_resolved()) ==> final(self).resolved(),
    {
        let count = self.frames.len();
        if count == 0 {
            self.focus = Focus::Idle;
            return Action::Continue;
        }
        let group = self.frames[count - 1].pending.group();
        match group {
            Group::Completion => {
                self.environment = self.frames[count - 1].environment;
                self.focus = Focus::Completed;
                Action::Continue
            },
            Group::Text => {
                self.environment = self.frames[count - 1].environment;
                self.focus = Focus::Rendering(value);
                Action::Continue
            },
            _ => {
                match self.pop() {
                    None => Action::Continue,
                    Some(frame) => {
                        let ghost middle = *self;
                        assert(middle.popped(*old(self)));
                        let Frame { pending, environment, held } = frame;
                        match group {
                            Group::Statement => {
                                self.settle_statement(pending, value);
                                Action::Continue
                            },
                            Group::Operator => self.settle_operator(pending, held, value),
                            Group::Call => self.settle_call(pending, held, value),
                            _ => {
                                self.settle_property(pending, held, value);
                                Action::Continue
                            },
                        }
                    },
                }
            },
        }
    }

    /// What one move does to the machine `before`, given the host's answer, and what the
    /// host is to do next. What the machine is about to do decides which move it is.
    pub open spec fn stepped(&self, before: Self, response: Response, action: Action) -> bool {
        match before.focus() {
            Focus::Idle => self.same_stores(before) && self.frames() == before.frames()
                && self.environment() == before.environment() && self.focus() is Idle
                && action is Finished,
            Focus::Execute(stmt) => self.executed(before, stmt) && action is Continue,
            Focus::Evaluate(expr) => self.evaluated(before, expr) && action is Continue,
            Focus::Produced(value) => self.delivered(before, value@, action),
            Focus::Completed => self.proceeded(before) && action is Continue,
            Focus::Returning(value) => (exists|boundary: Boundary| #[trigger]
                self.returned(before, value@, boundary)) && action is Continue,
            Focus::Failing(error) => exists|boundary: Boundary| #[trigger]
                self.failed(before, error, boundary, action),
            Focus::Rendering(value) => self.rendering(before, value@, action),
            Focus::Rendered(text) => self.texted(before, text@, action),
            Focus::Awaiting(request) => self.answered(before, request, response, action),
        }
    }

    /// Makes one move; see [`Interpreter::stepped`]. The host does what the returned
    /// action says and steps again; where the action asks for an answer, the next step
    /// takes it.
    ///
    /// A machine in which everything can run without a reference missing its frame stays
    /// so.
    pub fn step(&mut self, response: Response) -> (action: Action)
        requires
            old(self).wf(),
        ensures
            final(self).wf(),
            final(self).stepped(*old(self), response, action),
            old(self).resolved() ==> final(self).resolved(),
    {
        let mut focus = Focus::Idle;
        core::mem::swap(&mut self.focus, &mut focus);
        let ghost middle = *self;
        match focus {
            Focus::Idle => Action::Finished,
            Focus::Execute(stmt) => {
                self.execute(stmt);
                Action::Continue
            },
            Focus::Evaluate(expr) => {
                self.evaluate(expr);
                Action::Continue
            },
            Focus::Produced(value) => {
                let action = self.deliver(value);
                proof {
                    Self::lemma_delivered_from(*old(self), middle, *self, value@, action);
                }
                action
            },
            Focus::Completed => {
                self.proceed();
                Action::Continue
            },
            Focus::Returning(value) => {
                let boundary = self.unwind_return(value);
                assert(self.returned(*old(self), value@, boundary));
                Action::Continue
            },
            Focus::Failing(error) => {
                let (boundary, action) = self.unwind_failure(error);
                assert(self.failed(*old(self), error, boundary, action));
                action
            },
            Focus::Rendering(value) => {
                proof {
                    Self::lemma_rendered_alike(*old(self), middle, value@, Seq::empty(), 0);
                }
                self.begin_render(value)
            },
            Focus::Rendered(text) => self.deliver_text(text),
            Focus::Awaiting(request) => {
                let ghost asked = request;
                let ghost given = response;
                proof {
                    match (asked, given) {
                        (Request::Format { value, numbers }, Response::Texts(texts)) => {
                            Self::lemma_rendered_alike(
                                *old(self),
                                middle,
                                value@,
                                texts_of(texts@),
                                0,
                            );
                        },
                        _ => {},
                    }
                }
                self.answer(request, response)
            },
        }
    }

    /// What handing over a value does depends on the stores, the pending work and the
    /// current frame of the machine, not on what it was about to do.
    proof fn lemma_delivered_from(before: Self, middle: Self, after: Self, value: Value, action: Action)
        requires
            middle.same_stores(before),
            middle.frames() == before.frames(),
            middle.environment() == before.environment(),
            after.delivered(middle, value, action),
        ensures
            after.delivered(before, value, action),
    {
        if before.frames().len() > 0 {
            let frame = before.frames().last();
            match group_of(frame.pending) {
                Group::Completion => {},
                Group::Text => {},
                _ => {
                    let popped = choose|popped: Self| #[trigger]
                        popped.popped(middle) && after.settled(
                            popped,
                            frame.pending,
                            values_of(frame.held@),
                            value,
                            action,
                        );
                    assert(popped.popped(before));
                },
            }
        }
    }

    /// Resolution and evaluation agree. In a machine in which everything can run without
    /// a reference missing its frame, a reference that resolution gave a distance reaches
    /// the frame that defines its name: walking as many frames outward from the current
    /// frame as the distance says arrives at a frame, and that frame binds the name. The
    /// move that evaluates the reference therefore produces a value.
    pub proof fn lemma_reference_reaches_definition(machine: Self, name: Token, distance: u64)
        requires
            machine.wf(),
            machine.resolved(),
            machine.focus() matches Focus::Evaluate(expr) && ((*expr matches Expr::Variable(v)
                && v.name == name && v.distance == Some(distance)) || (*expr matches Expr::This(
                t,
            ) && t.keyword == name && t.distance == Some(distance))),
        ensures
            machine.heap().ancestor(machine.environment() as int, distance as nat) matches Some(
                found,
            ) && machine.heap().contains(found) && machine.heap().bindings(found).contains_key(
                name.lexeme@,
            ),
            forall|after: Self, response: Response, action: Action| #[trigger]
                after.stepped(machine, response, action) ==> after.focus() is Produced,
    {
        lemma_reference_reaches(
            machine.heap(),
            machine.environment() as int,
            distance,
            name.lexeme@,
        );
    }

    /// In a machine in which everything can run without a reference missing its frame,
    /// an assignment that resolution gave a distance reaches a frame: walking as many
    /// frames outward from the frame of the assignment as the distance says arrives at a
    /// frame of the store.
    pub proof fn lemma_assignment_reaches_frame(machine: Self, distance: u64)
        requires
            machine.wf(),
            machine.resolved(),
            machine.frames().len() > 0,
            machine.frames().last().pending matches Pending::Assign(e) && e.distance == Some(
                distance,
            ),
        ensures
            machine.heap().ancestor(
                machine.frames().last().environment as int,
                distance as nat,
            ) matches Some(found) && machine.heap().contains(found),
    {
        let frame = machine.frames()[machine.frames().len() - 1];
        assert(pending_safe(
            frame.pending,
            static_view(machine.heap(), frame.environment as int),
        ));
        lemma_target_reaches(machine.heap(), frame.environment as int, distance);
    }

    /// A call with a number of arguments other than the callee takes fails as an error of
    /// the running program, and nothing of the callee runs: no store changes, and no work
    /// is pending but that of the caller.
    pub proof fn lemma_wrong_arity_runs_nothing(
        after: Self,
        before: Self,
        base: Seq<Frame<'a>>,
        line: u32,
        callable: Callable,
        arguments: Seq<Value>,
        action: Action,
    )
        requires
            after.invoked(before, base, line, Value::Callable(callable), arguments, action),
            before.arity_of(callable) matches Some(arity) && arity != arguments.len(),
        ensures
            after.same_stores(before),
            after.frames() == base,
            after.fails_with(
                line,
                arity_message(before.arity_of(callable).unwrap(), arguments.len()),
            ),
            action is Continue,
    {
    }

}

} // verus!
