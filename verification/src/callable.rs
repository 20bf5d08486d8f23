//! What can be called: host functions, user functions, classes, and the instances that
//! classes produce.

use vstd::prelude::*;
use vstd::string::*;
use crate::bindings::Bindings;
use crate::environment::EnvRef;
use crate::error_handler::Error;
use crate::statements::Function;
use crate::token::{LiteralType, Token, Value};

verus! {

/// A handle to a user function held by the interpreter.
pub type FunctionRef = usize;

/// A handle to a class held by the interpreter.
pub type ClassRef = usize;

/// A handle to an instance held by the interpreter.
pub type JasnInstanceRef = usize;

/// The kind of function body that the resolver is inside of.
#[derive(Copy, Clone, Debug, PartialEq, Eq, Structural)]
pub enum FunctionType {
    NoFunction,
    Function,
    Method,
}

/// A function implemented by the host: a fixed arity and the host's handle for it.
#[derive(Copy, Clone, Debug, PartialEq, Eq, Structural)]
pub struct NativeFunction {
    pub arity: u8,
    pub function: usize,
}

/// A callable value. User functions, classes and instances live in the interpreter and are
/// referred to by handle, so that every holder of a callable sees the same object.
#[derive(Copy, Clone, Debug, PartialEq, Eq, Structural)]
pub enum Callable {
    NativeFunction(NativeFunction),
    Function(FunctionRef),
    Class(ClassRef),
    Instance(JasnInstanceRef),
}

/// A user function: its declaration, and the frame that was current where it was declared.
#[derive(Copy, Clone, Debug)]
pub struct JasnFunction<'a> {
    pub declaration: &'a Function,
    pub closure: EnvRef,
}

/// A class: its name and its methods, each closed over the frame in which the class was
/// declared.
#[derive(Debug)]
pub struct JasnClass<'a> {
    pub name: String,
    pub methods: Vec<JasnFunction<'a>>,
}

/// The method of that name in a method table; of two with one name, the later one.
pub open spec fn method_named<'a>(methods: Seq<JasnFunction<'a>>, name: Seq<char>) -> Option<
    JasnFunction<'a>,
>
    decreases methods.len(),
{
    if methods.len() == 0 {
        None
    } else if methods.last().declaration.name.lexeme@ == name {
        Some(methods.last())
    } else {
        method_named(methods.drop_last(), name)
    }
}

impl<'a> JasnClass<'a> {
    pub fn new(name: String, methods: Vec<JasnFunction<'a>>) -> (class: Self)
        ensures
            class.name == name,
            class.methods == methods,
    {
        Self { name, methods }
    }

    /// The method of that name, if the class has one.
    pub fn find_method(&self, name: &String) -> (found: Option<JasnFunction<'a>>)
        ensures
            found == method_named(self.methods@, name@),
    {
        let mut i: usize = self.methods.len();
        assert(self.methods@.take(i as int) =~= self.methods@);
        while i > 0
            invariant
                i <= self.methods@.len(),
                method_named(self.methods@, name@) == method_named(
                    self.methods@.take(i as int),
                    name@,
                ),
            decreases i,
        {
            let method: JasnFunction<'a> = self.methods[i - 1];
            assert(self.methods@.take(i as int).last() == method);
            assert(self.methods@.take(i as int).drop_last() =~= self.methods@.take(i - 1));
            if method.declaration.name.lexeme == *name {
                return Some(method);
            }
            i -= 1;
        }
        assert(self.methods@.take(0).len() == 0);
        None
    }
}

/// What reading a property of an instance finds: a field's value, or a method of the class.
#[derive(Debug)]
pub enum Property<'a> {
    Field(LiteralType),
    Method(JasnFunction<'a>),
}

/// The message for a property that is neither a field nor a method.
pub open spec fn undefined_property_message(name: Seq<char>) -> Seq<char> {
    "Undefined property '"@ + name + "'"@
}

/// An instance of a class: the class it was made from, and its own fields.
#[derive(Debug)]
pub struct JasnInstance {
    pub class: ClassRef,
    fields: Bindings,
}

impl JasnInstance {
    /// The class that the instance was made from.
    pub closed spec fn made_from(&self) -> ClassRef {
        self.class
    }

    /// The fields of the instance.
    pub closed spec fn fields(&self) -> Map<Seq<char>, Value> {
        self.fields@
    }

    pub closed spec fn wf(&self) -> bool {
        self.fields.wf()
    }

    /// An instance of `class` with no fields.
    pub fn new(class: ClassRef) -> (instance: Self)
        ensures
            instance.wf(),
            instance.made_from() == class,
            instance.fields() == Map::<Seq<char>, Value>::empty(),
    {
        Self { class, fields: Bindings::new() }
    }

    /// Reads the property `name`: the field of that name where there is one, else the
    /// method of that name of `class`; fails where there is neither.
    pub fn get<'a>(&self, name: &Token, class: &JasnClass<'a>) -> (result: Result<
        Property<'a>,
        Error,
    >)
        requires
            self.wf(),
        ensures
            if self.fields().contains_key(name.lexeme@) {
                result matches Ok(Property::Field(value)) && value@ == self.fields()[name.lexeme@]
            } else {
                match method_named(class.methods@, name.lexeme@) {
                    Some(method) => result matches Ok(Property::Method(found)) && found
                        == method,
                    None => result matches Err(Error::RuntimeError(line, message)) && line
                        == name.reported_line() && message@ == undefined_property_message(
                        name.lexeme@,
                    ),
                }
            },
    {
        match self.fields.get(&name.lexeme) {
            Some(value) => Ok(Property::Field(value)),
            None => match class.find_method(&name.lexeme) {
                Some(method) => Ok(Property::Method(method)),
                None => {
                    let message = String::from_str("Undefined property '").concat(
                        name.lexeme.as_str(),
                    ).concat("'");
                    Err(Error::RuntimeError(name.get_line(), message))
                },
            },
        }
    }

    /// Sets the field `name` to `value`, creating the field where the instance had none of
    /// that name.
    pub fn set(&mut self, name: &String, value: LiteralType)
        requires
            old(self).wf(),
        ensures
            final(self).wf(),
            final(self).made_from() == old(self).made_from(),
            final(self).fields() == old(self).fields().insert(name@, value@),
    {
        let key: String = name.clone();
        self.fields.insert(key, value);
    }
}

/// The instances of a run, addressed by handle.
#[derive(Debug)]
pub struct Instances {
    items: Vec<JasnInstance>,
}

impl Instances {
    /// The number of instances.
    pub closed spec fn len(&self) -> nat {
        self.items@.len()
    }

    /// The class that an instance was made from.
    pub closed spec fn class_of(&self, instance: int) -> ClassRef {
        self.items@[instance].class
    }

    /// The fields of an instance.
    pub closed spec fn fields(&self, instance: int) -> Map<Seq<char>, Value> {
        self.items@[instance].fields()
    }

    pub closed spec fn wf(&self) -> bool {
        forall|i: int| 0 <= i < self.items@.len() ==> (#[trigger] self.items@[i]).wf()
    }

    /// Whether a handle names an instance of this store.
    pub open spec fn contains(&self, instance: int) -> bool {
        0 <= instance < self.len()
    }

    /// Every instance that `before` holds is in this store with the same class and fields.
    pub open spec fn keeps(&self, before: Instances) -> bool {
        &&& before.len() <= self.len()
        &&& forall|i: int|
            0 <= i < before.len() ==> self.class_of(i) == before.class_of(i) && self.fields(i)
                == before.fields(i)
    }

    pub fn new() -> (store: Self)
        ensures
            store.wf(),
            store.len() == 0,
    {
        Instances { items: Vec::new() }
    }

    /// The number of instances.
    pub fn count(&self) -> (n: usize)
        ensures
            n == self.len(),
    {
        self.items.len()
    }

    /// Makes an instance of `class` with no fields and returns its handle; the instances
    /// made before are untouched.
    pub fn create(&mut self, class: ClassRef) -> (instance: JasnInstanceRef)
        requires
            old(self).wf(),
        ensures
            final(self).wf(),
            instance == old(self).len(),
            final(self).len() == old(self).len() + 1,
            final(self).class_of(instance as int) == class,
            final(self).fields(instance as int) == Map::<Seq<char>, Value>::empty(),
            final(self).keeps(*old(self)),
    {
        let instance = self.items.len();
        self.items.push(JasnInstance::new(class));
        proof {
            assert forall|i: int| 0 <= i < self.items@.len() implies (
            #[trigger] self.items@[i]).wf() by {
                if i < instance {
                    assert(self.items@[i] == old(self).items@[i]);
                }
            }
            assert forall|i: int| 0 <= i < old(self).len() implies self.class_of(i) == old(self).class_of(i) && self.fields(i) == old(self).fields(i) by {
                assert(self.items@[i] == old(self).items@[i]);
            }
        }
        instance
    }

    /// The class that `instance` was made from.
    pub fn class(&self, instance: JasnInstanceRef) -> (class: ClassRef)
        requires
            self.contains(instance as int),
        ensures
            class == self.class_of(instance as int),
    {
        self.items[instance].class
    }

    /// Reads a property of `instance`; see [`JasnInstance::get`].
    pub fn get<'a>(&self, instance: JasnInstanceRef, name: &Token, class: &JasnClass<'a>) -> (result:
        Result<Property<'a>, Error>)
        requires
            self.wf(),
            self.contains(instance as int),
        ensures
            if self.fields(instance as int).contains_key(name.lexeme@) {
                result matches Ok(Property::Field(value)) && value@ == self.fields(
                    instance as int,
                )[name.lexeme@]
            } else {
                match method_named(class.methods@, name.lexeme@) {
                    Some(method) => result matches Ok(Property::Method(found)) && found
                        == method,
                    None => result matches Err(Error::RuntimeError(line, message)) && line
                        == name.reported_line() && message@ == undefined_property_message(
                        name.lexeme@,
                    ),
                }
            },
    {
        self.items[instance].get(name, class)
    }

    /// Sets a field of `instance`. No other instance changes: instances made from one
    /// class keep their fields apart.
    pub fn set(&mut self, instance: JasnInstanceRef, name: &String, value: LiteralType)
        requires
            old(self).wf(),
            old(self).contains(instance as int),
        ensures
            final(self).wf(),
            final(self).len() == old(self).len(),
            final(self).fields(instance as int) == old(self).fields(instance as int).insert(
                name@,
                value@,
            ),
            forall|other: int|
                0 <= other < old(self).len() ==> final(self).class_of(other) == old(self).class_of(other),
            forall|other: int|
                0 <= other < old(self).len() && other != instance ==> final(self).fields(other)
                    == old(self).fields(other),
    {
        self.items[instance].set(name, value);
        proof {
            assert forall|i: int| 0 <= i < self.items@.len() implies (
            #[trigger] self.items@[i]).wf() by {
                if i != instance {
                    assert(self.items@[i] == old(self).items@[i]);
                }
            }
            assert forall|other: int| 0 <= other < old(self).len() implies self.class_of(other)
                == old(self).class_of(other) by {
                if other != instance {
                    assert(self.items@[other] == old(self).items@[other]);
                }
            }
            assert forall|other: int|
                0 <= other < old(self).len() && other != instance implies self.fields(other)
                == old(self).fields(other) by {
                assert(self.items@[other] == old(self).items@[other]);
            }
        }
    }
}

} // verus!
