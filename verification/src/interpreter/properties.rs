//! The properties of instances: fields, and methods bound to the instance they are
//! read from.

use vstd::prelude::*;
use vstd::string::*;
use crate::callable::{Callable, JasnFunction, Property, method_named, undefined_property_message};
use crate::error_handler::Error;
use crate::interpreter::calls::framed;
use crate::machine::{Focus, Frame, Pending, fits, holds, pending_safe};
use crate::safety::{
    add_name, function_safe, instance_names, lemma_function_safe_grows, names_grow, static_view,
};
use crate::statements::Function;
use crate::token::{LiteralType, Value, values_of};
use super::Interpreter;

verus! {

/// A method found by name is a method of the table.
pub proof fn lemma_method_named_member<'a>(methods: Seq<JasnFunction<'a>>, name: Seq<char>)
    ensures
        method_named(methods, name) matches Some(method) ==> exists|m: int|
            0 <= m < methods.len() && #[trigger] methods[m] == method,
    decreases methods.len(),
{
    if methods.len() > 0 {
        if methods.last().declaration.name.lexeme@ == name {
            assert(methods[methods.len() - 1] == methods.last());
        } else {
            lemma_method_named_member(methods.drop_last(), name);
            match method_named(methods.drop_last(), name) {
                Some(method) => {
                    let m = choose|m: int|
                        0 <= m < methods.drop_last().len() && #[trigger] methods.drop_last()[m]
                            == method;
                    assert(methods[m] == method);
                },
                None => {},
            }
        }
    }
}

impl<'a> Interpreter<'a> {
    /// The instance that a value names, where it names one whose class the machine holds.
    pub open spec fn instance_of(&self, value: Value) -> Option<int> {
        match value {
            Value::Callable(Callable::Instance(i)) => if i < self.instances().len()
                && self.instances().class_of(i as int) < self.classes().len() {
                Some(i as int)
            } else {
                None
            },
            _ => None,
        }
    }

    /// The instance that a value names; see [`Interpreter::instance_of`].
    pub(super) fn instance_handle(&self, value: &LiteralType) -> (handle: Option<usize>)
        requires
            self.wf(),
        ensures
            match self.instance_of(value@) {
                Some(i) => handle == Some(i as usize),
                None => handle is None,
            },
    {
        match value {
            LiteralType::Callable(Callable::Instance(i)) => {
                if *i < self.instances.count() {
                    if self.instances.class(*i) < self.classes.len() {
                        return Some(*i);
                    }
                }
                None
            },
            _ => None,
        }
    }

    /// The machine is `before` with `method` bound to `object`: a fresh frame, enclosed by
    /// the frame that the method is closed over, binds `this` to the object, and a new
    /// user function closed over the fresh frame is the result.
    pub open spec fn bound_method(&self, before: Self, method: JasnFunction<'a>, object: Value) -> bool {
        &&& self.classes() == before.classes()
        &&& self.instances() == before.instances()
        &&& self.handler() == before.handler()
        &&& framed(
            self.heap(),
            before.heap(),
            method.closure as int,
            Map::<Seq<char>, Value>::empty().insert("this"@, object),
        )
        &&& self.functions() == before.functions().push(
            JasnFunction {
                declaration: method.declaration,
                closure: before.heap().len() as usize,
            },
        )
        &&& self.produces(Value::Callable(Callable::Function(before.functions().len() as usize)))
    }

    /// Binds a method to the instance it was read from; see
    /// [`Interpreter::bound_method`].
    pub(super) fn bind_method(&mut self, method: JasnFunction<'a>, object: LiteralType)
        requires
            old(self).wf(),
            !(old(self).focus() is Awaiting),
            old(self).heap().contains(method.closure as int),
        ensures
            final(self).wf(),
            final(self).bound_method(*old(self), method, object@),
            final(self).frames() == old(self).frames(),
            final(self).environment() == old(self).environment(),
            (old(self).tables_resolved() && old(self).frames_resolved() && function_safe(
                *method.declaration,
                static_view(old(self).heap(), method.closure as int).push(instance_names()),
            )) ==> final(self).resolved(),
    {
        let ghost names = static_view(self.heap(), method.closure as int);
        let ghost safe = self.tables_resolved() && self.frames_resolved() && function_safe(
            *method.declaration,
            names.push(instance_names()),
        );
        self.focus = Focus::Idle;
        let fresh = self.enter(method.closure);
        let ghost entered = *self;
        self.bind(fresh, String::from_str("this"), object);
        let ghost bound = *self;
        let index = self.functions.len();
        self.functions.push(JasnFunction { declaration: method.declaration, closure: fresh });
        self.focus = Focus::Produced(LiteralType::Callable(Callable::Function(index)));
        proof {
            assert forall|f: int| 0 <= f < self.functions().len() implies self.heap().contains(
                (#[trigger] self.functions()[f]).closure as int,
            ) by {
                if f < index {
                    assert(self.functions()[f] == bound.functions()[f]);
                }
            }
            if safe {
                let middle = static_view(entered.heap(), fresh as int);
                let last = static_view(self.heap(), fresh as int);
                assert(names_grow(names.push(instance_names()), last)) by {
                    assert(add_name(names.push(Set::empty()), "this"@) =~= names.push(
                        instance_names(),
                    ));
                    crate::safety::lemma_add_name_grows(names.push(Set::empty()), middle, "this"@);
                    assert forall|k: int| 0 <= k < names.push(instance_names()).len() implies (
                    #[trigger] names.push(instance_names())[k]).subset_of(last[k]) by {
                        assert(add_name(names.push(Set::empty()), "this"@)[k].subset_of(
                            add_name(middle, "this"@)[k],
                        ));
                        assert(add_name(middle, "this"@)[k].subset_of(last[k]));
                    }
                }
                lemma_function_safe_grows(*method.declaration, names.push(instance_names()), last);
                assert forall|f: int| 0 <= f < self.functions().len() implies function_safe(
                    *(#[trigger] self.functions()[f]).declaration,
                    static_view(self.heap(), self.functions()[f].closure as int),
                ) by {
                    if f < index {
                        assert(self.functions()[f] == bound.functions()[f]);
                    }
                }
            }
        }
    }

    /// What a value does to pending work on a property. `before` is the machine with that
    /// work taken off: its pending work is `base`, the frame of the work is current, and
    /// `held` are the values that the work held on to.
    ///
    /// Only instances have properties. Reading one gives the field of that name where the
    /// instance has it, else the method of that name of its class, bound to the instance;
    /// it fails where there is neither. Writing one sets the field, creating it where the
    /// instance had none of that name; no other instance changes.
    pub open spec fn settled_property(
        &self,
        before: Self,
        base: Seq<Frame<'a>>,
        pending: Pending<'a>,
        held: Seq<Value>,
        value: Value,
    ) -> bool {
        let environment = before.environment();
        &&& self.environment() == environment
        &&& match pending {
            Pending::Property(e) => self.frames() == base && match before.instance_of(value) {
                Some(i) => if before.instances().fields(i).contains_key(e.name.lexeme@) {
                    self.same_stores(before) && self.produces(
                        before.instances().fields(i)[e.name.lexeme@],
                    )
                } else {
                    match method_named(
                        before.classes()[before.instances().class_of(i) as int].methods@,
                        e.name.lexeme@,
                    ) {
                        Some(method) => self.bound_method(before, method, value),
                        None => self.same_stores(before) && self.fails_with(
                            e.name.reported_line(),
                            undefined_property_message(e.name.lexeme@),
                        ),
                    }
                },
                None => self.same_stores(before) && self.fails_with(
                    e.name.line,
                    if value is Callable {
                        "Only instances have properties."@
                    } else {
                        "Only class instances have properties."@
                    },
                ),
            },
            Pending::SetObject(e) => self.same_stores(before) && match before.instance_of(value) {
                Some(i) => self.stacked(base, Pending::SetValue(e), environment, seq![value])
                    && self.focus() == Focus::Evaluate(&e.value),
                None => self.frames() == base && self.fails_with(
                    e.name.line,
                    "Only instances have fields."@,
                ),
            },
            Pending::SetValue(e) => self.heap() == before.heap() && self.functions()
                == before.functions() && self.classes() == before.classes() && self.handler()
                == before.handler() && self.frames() == base && match before.instance_of(held[0]) {
                Some(i) => self.instances().len() == before.instances().len()
                    && self.instances().fields(i) == before.instances().fields(i).insert(
                    e.name.lexeme@,
                    value,
                ) && (forall|other: int|
                    0 <= other < before.instances().len() ==> self.instances().class_of(other)
                        == before.instances().class_of(other)) && (forall|other: int|
                    0 <= other < before.instances().len() && other != i
                        ==> self.instances().fields(other) == before.instances().fields(other))
                    && self.produces(value),
                None => self.instances() == before.instances() && self.fails_with(
                    e.name.line,
                    "Only instances have fields."@,
                ),
            },
            _ => true,
        }
    }

    /// Hands a value to pending work on a property; see
    /// [`Interpreter::settled_property`].
    pub(super) fn settle_property(&mut self, pending: Pending<'a>, held: Vec<LiteralType>, value: LiteralType)
        requires
            old(self).wf(),
            !(old(self).focus() is Awaiting),
            fits(pending, old(self).environment(), held@.len()),
        ensures
            final(self).wf(),
            final(self).settled_property(
                *old(self),
                old(self).frames(),
                pending,
                values_of(held@),
                value@,
            ),
            (old(self).tables_resolved() && old(self).frames_resolved() && pending_safe(
                pending,
                static_view(old(self).heap(), old(self).environment() as int),
            )) ==> final(self).resolved(),
    {
        let environment = self.environment;
        let mut held = held;
        let ghost kept = values_of(held@);
        self.focus = Focus::Idle;
        match pending {
            Pending::Property(e) => {
                match self.instance_handle(&value) {
                    Some(i) => {
                        let class = self.instances.class(i);
                        proof {
                            lemma_method_named_member(
                                self.classes()[class as int].methods@,
                                e.name.lexeme@,
                            );
                        }
                        match self.instances.get(i, &e.name, &self.classes[class]) {
                            Ok(Property::Field(found)) => {
                                self.focus = Focus::Produced(found);
                            },
                            Ok(Property::Method(method)) => {
                                self.bind_method(method, value);
                            },
                            Err(error) => {
                                self.focus = Focus::Failing(error);
                            },
                        }
                    },
                    None => {
                        let message = match &value {
                            LiteralType::Callable(_) => String::from_str(
                                "Only instances have properties.",
                            ),
                            _ => String::from_str("Only class instances have properties."),
                        };
                        self.focus = Focus::Failing(Error::RuntimeError(e.name.line, message));
                    },
                }
            },
            Pending::SetObject(e) => {
                match self.instance_handle(&value) {
                    Some(_) => {
                        held.push(value);
                        assert(values_of(held@) =~= seq![value@]);
                        self.push(Pending::SetValue(e), environment, held);
                        self.focus = Focus::Evaluate(&e.value);
                    },
                    None => {
                        self.focus = Focus::Failing(
                            Error::RuntimeError(
                                e.name.line,
                                String::from_str("Only instances have fields."),
                            ),
                        );
                    },
                }
            },
            Pending::SetValue(e) => {
                assert(kept[0] == held@[0]@);
                match self.instance_handle(&held[0]) {
                    Some(i) => {
                        let copy = value.duplicate();
                        self.instances.set(i, &e.name.lexeme, copy);
                        self.focus = Focus::Produced(value);
                    },
                    None => {
                        self.focus = Focus::Failing(
                            Error::RuntimeError(
                                e.name.line,
                                String::from_str("Only instances have fields."),
                            ),
                        );
                    },
                }
            },
            _ => {},
        }
    }

}

} // verus!
