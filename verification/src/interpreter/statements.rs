//! The moves of statements: declarations, blocks and sequences, and the unwinding of
//! `return` and of failures.

use vstd::prelude::*;
use vstd::string::*;
use crate::callable::{Callable, JasnClass, JasnFunction};
use crate::environment::EnvRef;
use crate::error_handler::Error;
use crate::machine::{Action, Boundary, Focus, Frame, Pending, fits, pending_safe};
use crate::safety::{
    add_declared, add_name, block_safe, function_safe, instance_names, lemma_block_safe_grows,
    lemma_function_safe_grows, lemma_push_grows, lemma_static_view_grows, names_grow, simple,
    static_view, stmt_safe,
};
use crate::statements::{Class, Function, Stmt};
use crate::token::{LiteralType, Value, truthy, values_of};
use super::GLOBAL;
use super::Interpreter;

verus! {

impl<'a> Interpreter<'a> {
    /// The machine is `before` with `name` bound to `value` in the current frame.
    pub open spec fn bound(&self, before: Self, name: Seq<char>, value: Value) -> bool {
        &&& self.heap().rebinds(before.heap(), before.environment() as int, name, value)
        &&& self.environment() == before.environment()
        &&& self.frames() == before.frames()
    }

    /// The machine is `before` with one more user function, made from `function` and
    /// closed over the current frame, and with the function's name bound to it there.
    pub open spec fn declared_function(&self, before: Self, function: &'a Function) -> bool {
        &&& self.functions() == before.functions().push(
            JasnFunction { declaration: function, closure: before.environment() },
        )
        &&& self.classes() == before.classes()
        &&& self.instances() == before.instances()
        &&& self.handler() == before.handler()
        &&& self.bound(
            before,
            function.name.lexeme@,
            Value::Callable(Callable::Function(before.functions().len() as usize)),
        )
    }

    /// The machine is `before` with one more class, made from `class` with every method
    /// closed over the current frame, and with the class's name bound to it there.
    pub open spec fn declared_class(&self, before: Self, class: &'a Class) -> bool {
        &&& self.classes().len() == before.classes().len() + 1
        &&& self.classes().drop_last() == before.classes()
        &&& self.classes().last().name@ == class.name.lexeme@
        &&& self.classes().last().methods@.len() == class.methods@.len()
        &&& forall|i: int|
            0 <= i < class.methods@.len() ==> #[trigger] self.classes().last().methods@[i]
                == (JasnFunction { declaration: &class.methods@[i], closure: before.environment() })
        &&& self.functions() == before.functions()
        &&& self.instances() == before.instances()
        &&& self.handler() == before.handler()
        &&& self.bound(
            before,
            class.name.lexeme@,
            Value::Callable(Callable::Class(before.classes().len() as usize)),
        )
    }

    /// Makes a user function from `function`, closed over the current frame, and binds
    /// the function's name to it there.
    pub(super) fn declare_function(&mut self, function: &'a Function)
        requires
            old(self).wf(),
        ensures
            final(self).wf(),
            final(self).declared_function(*old(self), function),
            final(self).focus() == old(self).focus(),
            names_grow(
                add_name(
                    static_view(old(self).heap(), old(self).environment() as int),
                    function.name.lexeme@,
                ),
                static_view(final(self).heap(), final(self).environment() as int),
            ),
            (old(self).tables_resolved() && function_safe(
                *function,
                add_name(
                    static_view(old(self).heap(), old(self).environment() as int),
                    function.name.lexeme@,
                ),
            )) ==> final(self).tables_resolved(),
            old(self).frames_resolved() ==> final(self).frames_resolved(),
    {
        let closure = self.environment;
        let index = self.functions.len();
        let name: String = function.name.lexeme.clone();
        self.bind(closure, name, LiteralType::Callable(Callable::Function(index)));
        let ghost bound = *self;
        self.functions.push(JasnFunction { declaration: function, closure });
        proof {
            assert forall|f: int| 0 <= f < self.functions().len() implies self.heap().contains(
                (#[trigger] self.functions()[f]).closure as int,
            ) by {
                if f < index {
                    assert(self.functions()[f] == bound.functions()[f]);
                }
            }
            if old(self).tables_resolved() && function_safe(
                *function,
                add_name(
                    static_view(old(self).heap(), closure as int),
                    function.name.lexeme@,
                ),
            ) {
                lemma_function_safe_grows(
                    *function,
                    add_name(static_view(old(self).heap(), closure as int), function.name.lexeme@),
                    static_view(self.heap(), closure as int),
                );
                assert forall|f: int| 0 <= f < self.functions().len() implies function_safe(
                    *(#[trigger] self.functions()[f]).declaration,
                    static_view(self.heap(), self.functions()[f].closure as int),
                ) by {
                    if f < index {
                        assert(self.functions()[f] == bound.functions()[f]);
                    }
                }
            }
        }
    }

    /// Makes a class from `class`, every method closed over the current frame, and binds
    /// the class's name to it there. The name is bound before the class is made, so that
    /// the methods may refer to it.
    pub(super) fn declare_class(&mut self, class: &'a Class)
        requires
            old(self).wf(),
        ensures
            final(self).wf(),
            final(self).declared_class(*old(self), class),
            final(self).focus() == old(self).focus(),
            names_grow(
                add_name(
                    static_view(old(self).heap(), old(self).environment() as int),
                    class.name.lexeme@,
                ),
                static_view(final(self).heap(), final(self).environment() as int),
            ),
            (old(self).tables_resolved() && (forall|i: int|
                0 <= i < class.methods.len() ==> function_safe(
                    #[trigger] class.methods[i],
                    add_name(
                        static_view(old(self).heap(), old(self).environment() as int),
                        class.name.lexeme@,
                    ).push(instance_names()),
                ))) ==> final(self).tables_resolved(),
            old(self).frames_resolved() ==> final(self).frames_resolved(),
    {
        let closure = self.environment;
        let index = self.classes.len();
        let first: String = class.name.lexeme.clone();
        self.bind(closure, first, LiteralType::Null);
        let ghost declared = *self;
        let mut methods: Vec<JasnFunction<'a>> = Vec::new();
        let mut i: usize = 0;
        while i < class.methods.len()
            invariant
                i <= class.methods.len(),
                methods@.len() == i,
                forall|j: int|
                    0 <= j < i ==> #[trigger] methods@[j] == (JasnFunction {
                        declaration: &class.methods@[j],
                        closure,
                    }),
            decreases class.methods.len() - i,
        {
            methods.push(JasnFunction { declaration: &class.methods[i], closure });
            i += 1;
        }
        let name: String = class.name.lexeme.clone();
        let second: String = class.name.lexeme.clone();
        self.bind(closure, second, LiteralType::Callable(Callable::Class(index)));
        let ghost bound = *self;
        self.classes.push(JasnClass::new(name, methods));
        proof {
            let before = old(self).heap();
            let value = Value::Callable(Callable::Class(index));
            assert(before.bindings(closure as int).insert(class.name.lexeme@, Value::Null).insert(
                class.name.lexeme@,
                value,
            ) =~= before.bindings(closure as int).insert(class.name.lexeme@, value));
            assert(self.classes().drop_last() =~= old(self).classes());
            assert forall|c: int, m: int|
                0 <= c < self.classes().len() && 0 <= m < self.classes()[c].methods.len() implies self.heap().contains(
                (#[trigger] self.classes()[c].methods[m]).closure as int,
            ) by {
                if c < index {
                    assert(self.classes()[c] == bound.classes()[c]);
                }
            }
            let names = static_view(before, closure as int);
            lemma_static_view_grows(declared.heap(), bound.heap(), closure as int);
            assert(names_grow(add_name(names, class.name.lexeme@), static_view(
                self.heap(),
                closure as int,
            ))) by {
                let middle = static_view(declared.heap(), closure as int);
                let last = static_view(self.heap(), closure as int);
                assert forall|k: int| 0 <= k < names.len() implies (#[trigger] add_name(
                    names,
                    class.name.lexeme@,
                )[k]).subset_of(last[k]) by {
                    assert(add_name(names, class.name.lexeme@)[k].subset_of(middle[k]));
                    assert(middle[k].subset_of(last[k]));
                }
            }
            if old(self).tables_resolved() && (forall|i: int|
                0 <= i < class.methods.len() ==> function_safe(
                    #[trigger] class.methods[i],
                    add_name(names, class.name.lexeme@).push(instance_names()),
                )) {
                lemma_push_grows(
                    add_name(names, class.name.lexeme@),
                    static_view(self.heap(), closure as int),
                    instance_names(),
                );
                assert forall|c: int, m: int|
                    0 <= c < self.classes().len() && 0 <= m < self.classes()[c].methods.len() implies function_safe(
                    *(#[trigger] self.classes()[c].methods[m]).declaration,
                    static_view(self.heap(), self.classes()[c].methods[m].closure as int).push(
                        instance_names(),
                    ),
                ) by {
                    if c < index {
                        assert(self.classes()[c] == bound.classes()[c]);
                    } else {
                        assert(self.classes()[c].methods@[m] == (JasnFunction {
                            declaration: &class.methods@[m],
                            closure,
                        }));
                        lemma_function_safe_grows(
                            class.methods[m],
                            add_name(names, class.name.lexeme@).push(instance_names()),
                            static_view(self.heap(), closure as int).push(instance_names()),
                        );
                    }
                }
            }
        }
    }

    /// What one move does to the machine `before` when it is about to execute `stmt`.
    ///
    /// A block gets a fresh frame enclosed by the current one, in which its statements
    /// will run. A declaration binds its name in the current frame. Every other statement
    /// puts itself off and turns to its expression; a `return` without one returns null.
    pub open spec fn executed(&self, before: Self, stmt: &'a Stmt) -> bool {
        match *stmt {
            Stmt::Block(s) => self.heap().extends(before.heap(), before.environment() as int)
                && self.same_tables(before) && self.environment() == before.heap().len()
                && self.pushed(
                before,
                Pending::Sequence { statements: &s.statements, next: 0, top_level: false },
                before.heap().len() as usize,
                Seq::empty(),
            ) && self.focus() is Completed,
            Stmt::Class(s) => self.declared_class(before, &s) && self.focus() is Completed,
            Stmt::Expression(s) => self.same_stores(before) && self.environment()
                == before.environment() && self.pushed(
                before,
                Pending::Discard,
                before.environment(),
                Seq::empty(),
            ) && self.focus() == Focus::Evaluate(&s.expression),
            Stmt::Function(s) => self.declared_function(before, &s) && self.focus() is Completed,
            Stmt::If(s) => self.same_stores(before) && self.environment() == before.environment()
                && self.pushed(before, Pending::Branch(&*s), before.environment(), Seq::empty())
                && self.focus() == Focus::Evaluate(&s.condition),
            Stmt::Print(s) => self.same_stores(before) && self.environment()
                == before.environment() && self.pushed(
                before,
                Pending::Print,
                before.environment(),
                Seq::empty(),
            ) && self.focus() == Focus::Evaluate(&s.expression),
            Stmt::Return(s) => self.same_stores(before) && self.environment()
                == before.environment() && match s.value {
                Some(value) => self.pushed(
                    before,
                    Pending::Return,
                    before.environment(),
                    Seq::empty(),
                ) && self.focus() == Focus::Evaluate(&value),
                None => self.frames() == before.frames() && (self.focus() matches Focus::Returning(
                    value,
                ) && value@ == Value::Null),
            },
            Stmt::Variable(s) => match s.initializer {
                Some(initializer) => self.same_stores(before) && self.environment()
                    == before.environment() && self.pushed(
                    before,
                    Pending::Define(&s.name),
                    before.environment(),
                    Seq::empty(),
                ) && self.focus() == Focus::Evaluate(&initializer),
                None => self.same_tables(before) && self.bound(before, s.name.lexeme@, Value::Null)
                    && self.focus() is Completed,
            },
            Stmt::While(s) => self.same_stores(before) && self.environment()
                == before.environment() && self.pushed(
                before,
                Pending::Loop(&*s),
                before.environment(),
                Seq::empty(),
            ) && self.focus() == Focus::Evaluate(&s.condition),
        }
    }

    /// One move of a machine that is about to execute `stmt`; see
    /// [`Interpreter::executed`].
    pub(super) fn execute(&mut self, stmt: &'a Stmt)
        requires
            old(self).wf(),
        ensures
            final(self).wf(),
            final(self).executed(*old(self), stmt),
            (old(self).tables_resolved() && old(self).frames_resolved() && simple(*stmt)
                && stmt_safe(*stmt, static_view(old(self).heap(), old(self).environment() as int)))
                ==> final(self).resolved(),
    {
        let ghost names = static_view(self.heap(), self.environment() as int);
        match stmt {
            Stmt::Block(s) => {
                self.focus = Focus::Idle;
                let parent = self.environment;
                let frame = self.enter(parent);
                let held: Vec<LiteralType> = Vec::new();
                assert(values_of(held@) =~= Seq::<Value>::empty());
                proof {
                    if stmt_safe(*stmt, names) {
                        lemma_block_safe_grows(
                            s.statements@,
                            0,
                            names.push(Set::empty()),
                            static_view(self.heap(), frame as int),
                        );
                    }
                }
                self.push(
                    Pending::Sequence { statements: &s.statements, next: 0, top_level: false },
                    frame,
                    held,
                );
                self.environment = frame;
                self.focus = Focus::Completed;
            },
            Stmt::Class(s) => {
                self.focus = Focus::Idle;
                self.declare_class(s);
                self.focus = Focus::Completed;
            },
            Stmt::Expression(s) => {
                self.suspend(Pending::Discard, &s.expression);
            },
            Stmt::Function(s) => {
                self.focus = Focus::Idle;
                self.declare_function(s);
                self.focus = Focus::Completed;
            },
            Stmt::If(s) => {
                self.suspend(Pending::Branch(s), &s.condition);
            },
            Stmt::Print(s) => {
                self.suspend(Pending::Print, &s.expression);
            },
            Stmt::Return(s) => {
                match &s.value {
                    Some(value) => {
                        self.suspend(Pending::Return, value);
                    },
                    None => {
                        self.focus = Focus::Returning(LiteralType::Null);
                    },
                }
            },
            Stmt::Variable(s) => {
                match &s.initializer {
                    Some(initializer) => {
                        self.suspend(Pending::Define(&s.name), initializer);
                    },
                    None => {
                        self.focus = Focus::Idle;
                        let name: String = s.name.lexeme.clone();
                        let frame = self.environment;
                        self.bind(frame, name, LiteralType::Null);
                        self.focus = Focus::Completed;
                    },
                }
            },
            Stmt::While(s) => {
                self.suspend(Pending::Loop(s), &s.condition);
            },
        }
    }

    /// What starting statement `at` of a sequence does to the machine `before`, whose
    /// pending work is `base` and whose current frame is the one of the sequence.
    ///
    /// A declaration that stands in a sequence is carried out by the sequence itself: a
    /// function or a class is made and bound, a variable without initializer is bound to
    /// null, and a variable with an initializer waits for its value. Every other
    /// statement is executed, while the sequence waits for it with the statement after it.
    pub open spec fn started(
        &self,
        before: Self,
        base: Seq<Frame<'a>>,
        environment: EnvRef,
        statements: &'a Vec<Stmt>,
        at: usize,
        top_level: bool,
    ) -> bool {
        let rest = Pending::Sequence { statements, next: (at + 1) as usize, top_level };
        &&& self.environment() == environment
        &&& self.handler() == before.handler()
        &&& self.instances() == before.instances()
        &&& match statements@[at as int] {
            Stmt::Variable(s) => self.functions() == before.functions() && self.classes()
                == before.classes() && match s.initializer {
                Some(initializer) => self.heap() == before.heap() && self.stacked(
                    base,
                    Pending::Declaring { statements, at, top_level },
                    environment,
                    Seq::empty(),
                ) && self.focus() == Focus::Evaluate(&initializer),
                None => self.heap().rebinds(
                    before.heap(),
                    environment as int,
                    s.name.lexeme@,
                    Value::Null,
                ) && self.stacked(base, rest, environment, Seq::empty()) && self.focus() is Completed,
            },
            Stmt::Function(s) => self.functions() == before.functions().push(
                JasnFunction { declaration: &s, closure: environment },
            ) && self.classes() == before.classes() && self.heap().rebinds(
                before.heap(),
                environment as int,
                s.name.lexeme@,
                Value::Callable(Callable::Function(before.functions().len() as usize)),
            ) && self.stacked(base, rest, environment, Seq::empty()) && self.focus() is Completed,
            Stmt::Class(s) => self.functions() == before.functions() && self.classes().len()
                == before.classes().len() + 1 && self.classes().drop_last() == before.classes()
                && self.classes().last().name@ == s.name.lexeme@
                && self.classes().last().methods@.len() == s.methods@.len() && (forall|i: int|
                0 <= i < s.methods@.len() ==> #[trigger] self.classes().last().methods@[i]
                    == (JasnFunction { declaration: &s.methods@[i], closure: environment }))
                && self.heap().rebinds(
                before.heap(),
                environment as int,
                s.name.lexeme@,
                Value::Callable(Callable::Class(before.classes().len() as usize)),
            ) && self.stacked(base, rest, environment, Seq::empty()) && self.focus() is Completed,
            _ => self.same_stores(before) && self.stacked(base, rest, environment, Seq::empty())
                && self.focus() == Focus::Execute(&statements@[at as int]),
        }
    }

    /// Starts statement `at` of a sequence; see [`Interpreter::started`].
    pub(super) fn start(&mut self, statements: &'a Vec<Stmt>, at: usize, top_level: bool)
        requires
            old(self).wf(),
            at < statements.len(),
            top_level ==> old(self).environment() == GLOBAL,
        ensures
            final(self).wf(),
            final(self).started(
                *old(self),
                old(self).frames(),
                old(self).environment(),
                statements,
                at,
                top_level,
            ),
            (old(self).tables_resolved() && old(self).frames_resolved() && block_safe(
                statements@,
                at as int,
                static_view(old(self).heap(), old(self).environment() as int),
            )) ==> final(self).resolved(),
    {
        let environment = self.environment;
        let ghost names = static_view(self.heap(), environment as int);
        let ghost safe = self.tables_resolved() && self.frames_resolved() && block_safe(
            statements@,
            at as int,
            names,
        );
        let held: Vec<LiteralType> = Vec::new();
        assert(values_of(held@) =~= Seq::<Value>::empty());
        proof {
            if safe {
                assert(stmt_safe(statements@[at as int], names) && block_safe(
                    statements@,
                    at + 1,
                    crate::safety::add_declared(names, statements@[at as int]),
                ));
            }
        }
        self.focus = Focus::Idle;
        match &statements[at] {
            Stmt::Variable(s) => {
                match &s.initializer {
                    Some(initializer) => {
                        self.push(Pending::Declaring { statements, at, top_level }, environment, held);
                        self.focus = Focus::Evaluate(initializer);
                    },
                    None => {
                        let name: String = s.name.lexeme.clone();
                        self.bind(environment, name, LiteralType::Null);
                        proof {
                            if safe {
                                lemma_block_safe_grows(
                                    statements@,
                                    at + 1,
                                    add_name(names, s.name.lexeme@),
                                    static_view(self.heap(), environment as int),
                                );
                            }
                        }
                        self.push(
                            Pending::Sequence { statements, next: at + 1, top_level },
                            environment,
                            held,
                        );
                        self.focus = Focus::Completed;
                    },
                }
            },
            Stmt::Function(s) => {
                self.declare_function(s);
                proof {
                    if safe {
                        lemma_block_safe_grows(
                            statements@,
                            at + 1,
                            add_name(names, s.name.lexeme@),
                            static_view(self.heap(), environment as int),
                        );
                    }
                }
                self.push(Pending::Sequence { statements, next: at + 1, top_level }, environment, held);
                self.focus = Focus::Completed;
            },
            Stmt::Class(s) => {
                self.declare_class(s);
                proof {
                    if safe {
                        lemma_block_safe_grows(
                            statements@,
                            at + 1,
                            add_name(names, s.name.lexeme@),
                            static_view(self.heap(), environment as int),
                        );
                    }
                }
                self.push(Pending::Sequence { statements, next: at + 1, top_level }, environment, held);
                self.focus = Focus::Completed;
            },
            other => {
                self.push(Pending::Sequence { statements, next: at + 1, top_level }, environment, held);
                self.focus = Focus::Execute(other);
            },
        }
    }

    /// What one move does to the machine `before` when a statement has completed.
    ///
    /// A sequence starts its next statement, or, at its end, completes in turn. A call
    /// whose body has completed produces null. A loop whose body has completed turns to
    /// its condition again. Pending work that waits for a value is handed null. With no
    /// pending work left, the program has ended. The frame that the work on top ran in
    /// is the current one afterwards, also where that work has ended.
    pub open spec fn proceeded(&self, before: Self) -> bool {
        if before.frames().len() == 0 {
            self.same_stores(before) && self.frames() == before.frames() && self.environment()
                == before.environment() && self.focus() is Idle
        } else {
            let frame = before.frames().last();
            let base = before.frames().drop_last();
            match frame.pending {
                Pending::Sequence { statements, next, top_level } => if next < statements.len() {
                    self.started(before, base, frame.environment, statements, next, top_level)
                } else {
                    self.same_stores(before) && self.frames() == base && self.environment()
                        == frame.environment && self.focus() is Completed
                },
                Pending::Call => self.same_stores(before) && self.frames() == base
                    && self.environment() == frame.environment && self.produces(Value::Null),
                Pending::Repeat(s) => self.same_stores(before) && self.environment()
                    == frame.environment && self.stacked(
                    base,
                    Pending::Loop(s),
                    frame.environment,
                    Seq::empty(),
                ) && self.focus() == Focus::Evaluate(&s.condition),
                _ => self.same_stores(before) && self.frames() == before.frames()
                    && self.environment() == frame.environment && self.produces(Value::Null),
            }
        }
    }

    /// One move of a machine for which a statement has completed; see
    /// [`Interpreter::proceeded`].
    pub(super) fn proceed(&mut self)
        requires
            old(self).wf(),
        ensures
            final(self).wf(),
            final(self).proceeded(*old(self)),
            (old(self).tables_resolved() && old(self).frames_resolved()) ==> final(self).resolved(),
    {
        self.focus = Focus::Idle;
        let count = self.frames.len();
        if count == 0 {
            return ;
        }
        let waits = match &self.frames[count - 1].pending {
            Pending::Sequence { statements, next, top_level } => false,
            Pending::Call => false,
            Pending::Repeat(_) => false,
            _ => true,
        };
        if waits {
            self.environment = self.frames[count - 1].environment;
            self.focus = Focus::Produced(LiteralType::Null);
            return ;
        }
        match self.pop() {
            None => {},
            Some(frame) => {
                match frame.pending {
                    Pending::Sequence { statements, next, top_level } => {
                        if next < statements.len() {
                            self.start(statements, next, top_level);
                        } else {
                            self.focus = Focus::Completed;
                        }
                    },
                    Pending::Call => {
                        self.focus = Focus::Produced(LiteralType::Null);
                    },
                    Pending::Repeat(s) => {
                        self.suspend(Pending::Loop(s), &s.condition);
                    },
                    _ => {},
                }
            },
        }
    }

    /// What giving up the pending work on top does to the machine `before`, and where
    /// that stops; see [`Boundary`].
    pub open spec fn unwound(&self, before: Self, boundary: Boundary) -> bool {
        if before.frames().len() == 0 {
            boundary is Empty && self.frames() == before.frames() && self.environment()
                == before.environment()
        } else {
            let frame = before.frames().last();
            let base = before.frames().drop_last();
            self.environment() == frame.environment && match frame.pending {
                Pending::Sequence { statements, next, top_level } => if top_level {
                    boundary is TopLevel && self.frames() == before.frames()
                } else {
                    boundary is Other && self.frames() == base
                },
                Pending::Declaring { statements, at, top_level } => if top_level {
                    boundary is TopLevel && self.stacked(
                        base,
                        Pending::Sequence { statements, next: (at + 1) as usize, top_level },
                        frame.environment,
                        Seq::empty(),
                    )
                } else {
                    boundary is Other && self.frames() == base
                },
                Pending::Call => boundary is Call && self.frames() == base,
                _ => boundary is Other && self.frames() == base,
            }
        }
    }

    /// Gives up the pending work on top, unless it is a sequence of the top level; see
    /// [`Interpreter::unwound`].
    pub(super) fn unwind(&mut self) -> (boundary: Boundary)
        requires
            old(self).wf(),
        ensures
            final(self).wf(),
            final(self).same_stores(*old(self)),
            final(self).focus() == old(self).focus(),
            final(self).unwound(*old(self), boundary),
            old(self).tables_resolved() ==> final(self).tables_resolved(),
            old(self).frames_resolved() ==> final(self).frames_resolved(),
    {
        let count = self.frames.len();
        if count == 0 {
            return Boundary::Empty;
        }
        let stays = match &self.frames[count - 1].pending {
            Pending::Sequence { statements, next, top_level } => *top_level,
            _ => false,
        };
        if stays {
            self.environment = self.frames[count - 1].environment;
            return Boundary::TopLevel;
        }
        let ghost focus = self.focus;
        match self.pop() {
            None => Boundary::Empty,
            Some(frame) => {
                match frame.pending {
                    Pending::Declaring { statements, at, top_level } => {
                        if top_level {
                            let held: Vec<LiteralType> = Vec::new();
                            assert(values_of(held@) =~= Seq::<Value>::empty());
                            proof {
                                let names = static_view(self.heap(), frame.environment as int);
                                assert(names =~= Seq::<Set<Seq<char>>>::empty());
                                assert(crate::safety::add_declared(names, statements@[at as int])
                                    =~= names);
                            }
                            self.push(
                                Pending::Sequence { statements, next: at + 1, top_level },
                                frame.environment,
                                held,
                            );
                            Boundary::TopLevel
                        } else {
                            Boundary::Other
                        }
                    },
                    Pending::Call => Boundary::Call,
                    _ => Boundary::Other,
                }
            },
        }
    }

    /// What one move does to the machine `before` when it carries the value of a
    /// `return`: the nearest call produces the value. A `return` that reaches the top
    /// level ends the statement it stands in, and nothing is reported.
    pub open spec fn returned(&self, before: Self, value: Value, boundary: Boundary) -> bool {
        &&& self.same_stores(before)
        &&& self.unwound(before, boundary)
        &&& match boundary {
            Boundary::Empty => self.focus() is Idle,
            Boundary::TopLevel => self.focus() is Completed,
            Boundary::Call => self.produces(value),
            Boundary::Other => self.focus() matches Focus::Returning(found) && found@ == value,
        }
    }

    /// What one move does to the machine `before` when it carries a failure: the failure
    /// goes through every call and every block. At the top level it is handed to the host
    /// to report and noted in the record, and the program goes on with the next statement.
    pub open spec fn failed(&self, before: Self, error: Error, boundary: Boundary, action: Action) -> bool {
        &&& self.heap() == before.heap()
        &&& self.functions() == before.functions()
        &&& self.classes() == before.classes()
        &&& self.instances() == before.instances()
        &&& self.unwound(before, boundary)
        &&& match boundary {
            Boundary::Empty => self.focus() is Idle && action == Action::Report(error)
                && self.handler() == before.handler().noting(error),
            Boundary::TopLevel => self.focus() is Completed && action == Action::Report(error)
                && self.handler() == before.handler().noting(error),
            _ => self.focus() == Focus::Failing(error) && action is Continue && self.handler()
                == before.handler(),
        }
    }

    /// One move of a machine that carries the value of a `return`; see
    /// [`Interpreter::unwound`] and [`Interpreter::returned`].
    pub(super) fn unwind_return(&mut self, value: LiteralType) -> (boundary: Boundary)
        requires
            old(self).wf(),
            !(old(self).focus() is Awaiting),
        ensures
            final(self).wf(),
            final(self).returned(*old(self), value@, boundary),
            (old(self).tables_resolved() && old(self).frames_resolved()) ==> final(self).resolved(),
    {
        let boundary = self.unwind();
        match boundary {
            Boundary::Empty => {
                self.focus = Focus::Idle;
            },
            Boundary::TopLevel => {
                self.focus = Focus::Completed;
            },
            Boundary::Call => {
                self.focus = Focus::Produced(value);
            },
            Boundary::Other => {
                self.focus = Focus::Returning(value);
            },
        }
        boundary
    }

    /// One move of a machine that carries a failure; see [`Interpreter::unwound`] and
    /// [`Interpreter::failed`].
    pub(super) fn unwind_failure(&mut self, error: Error) -> (outcome: (Boundary, Action))
        requires
            old(self).wf(),
            !(old(self).focus() is Awaiting),
        ensures
            final(self).wf(),
            final(self).failed(*old(self), error, outcome.0, outcome.1),
            (old(self).tables_resolved() && old(self).frames_resolved()) ==> final(self).resolved(),
    {
        let boundary = self.unwind();
        match boundary {
            Boundary::Empty => {
                self.focus = Focus::Idle;
                self.error_handler.record(&error);
                (boundary, Action::Report(error))
            },
            Boundary::TopLevel => {
                self.focus = Focus::Completed;
                self.error_handler.record(&error);
                (boundary, Action::Report(error))
            },
            _ => {
                self.focus = Focus::Failing(error);
                (boundary, Action::Continue)
            },
        }
    }

    /// What a value does to pending work of a statement. `before` is the machine with
    /// that work taken off: its pending work is `base`, and the frame of the work is
    /// current.
    ///
    /// An expression statement drops the value. `print` turns it into text. `return`
    /// returns it. `if` executes the branch that the truth of the value picks, and `while`
    /// its body while the value is true. A variable is bound to the value; where the
    /// declaration stands in a sequence, the sequence goes on with the statement after it.
    pub open spec fn settled_statement(
        &self,
        before: Self,
        base: Seq<Frame<'a>>,
        pending: Pending<'a>,
        value: Value,
    ) -> bool {
        let environment = before.environment();
        &&& self.same_tables(before)
        &&& self.environment() == environment
        &&& match pending {
            Pending::Discard => self.heap() == before.heap() && self.frames() == base
                && self.focus() is Completed,
            Pending::Print => self.heap() == before.heap() && self.stacked(
                base,
                Pending::Emit,
                environment,
                Seq::empty(),
            ) && (self.focus() matches Focus::Rendering(found) && found@ == value),
            Pending::Return => self.heap() == before.heap() && self.frames() == base && (
            self.focus() matches Focus::Returning(found) && found@ == value),
            Pending::Branch(s) => self.heap() == before.heap() && self.frames() == base && if truthy(
                value,
            ) {
                self.focus() == Focus::Execute(&s.then_branch)
            } else {
                match s.else_branch {
                    Some(otherwise) => self.focus() == Focus::Execute(&otherwise),
                    None => self.focus() is Completed,
                }
            },
            Pending::Loop(s) => self.heap() == before.heap() && if truthy(value) {
                self.stacked(base, Pending::Repeat(s), environment, Seq::empty())
                    && self.focus() == Focus::Execute(&s.body)
            } else {
                self.frames() == base && self.focus() is Completed
            },
            Pending::Define(name) => self.heap().rebinds(
                before.heap(),
                environment as int,
                name.lexeme@,
                value,
            ) && self.frames() == base && self.focus() is Completed,
            Pending::Declaring { statements, at, top_level } => (
            statements@[at as int] matches Stmt::Variable(s) && self.heap().rebinds(
                before.heap(),
                environment as int,
                s.name.lexeme@,
                value,
            )) && self.stacked(
                base,
                Pending::Sequence { statements, next: (at + 1) as usize, top_level },
                environment,
                Seq::empty(),
            ) && self.focus() is Completed,
            _ => true,
        }
    }

    /// Hands a value to pending work of a statement; see
    /// [`Interpreter::settled_statement`].
    pub(super) fn settle_statement(&mut self, pending: Pending<'a>, value: LiteralType)
        requires
            old(self).wf(),
            !(old(self).focus() is Awaiting),
            fits(pending, old(self).environment(), 0),
        ensures
            final(self).wf(),
            final(self).settled_statement(*old(self), old(self).frames(), pending, value@),
            (old(self).tables_resolved() && old(self).frames_resolved() && pending_safe(
                pending,
                static_view(old(self).heap(), old(self).environment() as int),
            )) ==> final(self).resolved(),
    {
        let environment = self.environment;
        let ghost names = static_view(self.heap(), environment as int);
        let ghost safe = self.tables_resolved() && self.frames_resolved() && pending_safe(
            pending,
            names,
        );
        let held: Vec<LiteralType> = Vec::new();
        assert(values_of(held@) =~= Seq::<Value>::empty());
        self.focus = Focus::Idle;
        match pending {
            Pending::Discard => {
                self.focus = Focus::Completed;
            },
            Pending::Print => {
                self.push(Pending::Emit, environment, held);
                self.focus = Focus::Rendering(value);
            },
            Pending::Return => {
                self.focus = Focus::Returning(value);
            },
            Pending::Branch(s) => {
                if value.is_truthy() {
                    self.focus = Focus::Execute(&s.then_branch);
                } else {
                    match &s.else_branch {
                        Some(otherwise) => {
                            self.focus = Focus::Execute(otherwise);
                        },
                        None => {
                            self.focus = Focus::Completed;
                        },
                    }
                }
            },
            Pending::Loop(s) => {
                if value.is_truthy() {
                    self.push(Pending::Repeat(s), environment, held);
                    self.focus = Focus::Execute(&s.body);
                } else {
                    self.focus = Focus::Completed;
                }
            },
            Pending::Define(name) => {
                let key: String = name.lexeme.clone();
                self.bind(environment, key, value);
                self.focus = Focus::Completed;
            },
            Pending::Declaring { statements, at, top_level } => {
                match &statements[at] {
                    Stmt::Variable(s) => {
                        let key: String = s.name.lexeme.clone();
                        self.bind(environment, key, value);
                        proof {
                            if safe {
                                assert(block_safe(
                                    statements@,
                                    at + 1,
                                    add_declared(names, statements@[at as int]),
                                ));
                                lemma_block_safe_grows(
                                    statements@,
                                    at + 1,
                                    add_name(names, s.name.lexeme@),
                                    static_view(self.heap(), environment as int),
                                );
                            }
                        }
                        self.push(
                            Pending::Sequence { statements, next: at + 1, top_level },
                            environment,
                            held,
                        );
                        self.focus = Focus::Completed;
                    },
                    _ => {},
                }
            },
            _ => {},
        }
    }

}

} // verus!
