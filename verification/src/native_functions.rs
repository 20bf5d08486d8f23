//! The functions that the host provides to every program.
//!
//! A native function is known to the language by its name and the number of arguments it
//! takes, and to the host by a handle. What the functions do is the host's work; two of
//! them decide on their arguments first, and those decisions are made here.

use vstd::prelude::*;
use vstd::string::*;
use crate::callable::{Callable, NativeFunction};
use crate::environment::Environment;
use crate::error_handler::Error;
use crate::evaluation::is_runtime_error;
use crate::interpreter::Interpreter;
use crate::token::{LiteralType, Value, lemma_array_view};

verus! {

/// The handle of `clock`: the time in seconds since the start of 1970, as a number.
pub const CLOCK: usize = 0;

/// The handle of `input`: a line read from the standard input, trimmed, as a string.
pub const INPUT: usize = 1;

/// The handle of `len`: the length of a string or an array, or the arity of a callable.
pub const LEN: usize = 2;

/// The handle of `print`: writes its argument to the standard output.
pub const PRINT: usize = 3;

/// The handle of `sleep`: waits for as many seconds as its argument says.
pub const SLEEP: usize = 4;

/// The native functions of the language.
pub struct NativeFunctions {}

/// The value that stands for a native function.
pub open spec fn native_value(arity: u8, function: usize) -> Value {
    Value::Callable(Callable::NativeFunction(NativeFunction { arity, function }))
}

/// The bindings of a frame after the native functions have been defined in it.
pub open spec fn with_natives(bindings: Map<Seq<char>, Value>) -> Map<Seq<char>, Value> {
    bindings.insert("clock"@, native_value(0, CLOCK)).insert("input"@, native_value(0, INPUT)).insert(
        "len"@,
        native_value(1, LEN),
    ).insert("print"@, native_value(1, PRINT)).insert("sleep"@, native_value(1, SLEEP))
}

/// What `len` measures: the number of bytes of a string in UTF-8, the number of items of an
/// array, the number of arguments that a callable takes; nothing of any other value.
pub open spec fn measure_of<'a>(interpreter: Interpreter<'a>, value: Value) -> Option<nat> {
    match value {
        Value::String(text) => Some(vstd::utf8::encode_utf8(text).len()),
        Value::Array(items) => Some(items.len()),
        Value::Callable(callable) => match interpreter.arity_of(callable) {
            Some(arity) => Some(arity),
            None => Some(0),
        },
        _ => None,
    }
}

impl NativeFunctions {
    /// Defines one native function in the global frame of a store.
    fn define(environment: &mut Environment, name: &str, arity: u8, function: usize)
        requires
            old(environment).wf(),
        ensures
            final(environment).wf(),
            final(environment).rebinds(
                *old(environment),
                0,
                name@,
                native_value(arity, function),
            ),
    {
        environment.define(
            0,
            String::from_str(name),
            LiteralType::Callable(Callable::NativeFunction(NativeFunction { arity, function })),
        );
    }

    /// Defines the native functions in the global frame of a store: `clock` and `input`,
    /// which take no argument, and `len`, `print` and `sleep`, which take one.
    pub fn define_native_functions(environment: &mut Environment)
        requires
            old(environment).wf(),
        ensures
            final(environment).wf(),
            final(environment).len() == old(environment).len(),
            forall|i: int|
                0 <= i < old(environment).len() ==> final(environment).enclosing(i) == old(environment).enclosing(i),
            final(environment).bindings(0) == with_natives(old(environment).bindings(0)),
            forall|i: int|
                0 < i < old(environment).len() ==> final(environment).bindings(i) == old(environment).bindings(i),
    {
        Self::define(environment, "clock", 0, CLOCK);
        Self::define(environment, "input", 0, INPUT);
        Self::define(environment, "len", 1, LEN);
        Self::define(environment, "print", 1, PRINT);
        Self::define(environment, "sleep", 1, SLEEP);
    }

    /// What `len` measures of its argument; see [`measure_of`]. The host turns the
    /// measure into a number.
    pub fn measure<'a>(interpreter: &Interpreter<'a>, value: &LiteralType) -> (measure: Option<usize>)
        requires
            interpreter.wf(),
        ensures
            match measure_of(*interpreter, value@) {
                Some(expected) => measure matches Some(found) && found as nat == expected,
                None => measure is None,
            },
    {
        match value {
            LiteralType::String(text) => Some(text.as_str().as_bytes().len()),
            LiteralType::Array(items) => {
                proof {
                    lemma_array_view(*items);
                }
                Some(items.len())
            },
            LiteralType::Callable(callable) => match callable.arity(interpreter) {
                Some(arity) => Some(arity),
                None => Some(0),
            },
            _ => None,
        }
    }

    /// The number of seconds that `sleep` is to wait: its argument, which must be a
    /// number.
    pub fn sleep_duration(value: &LiteralType) -> (result: Result<u64, Error>)
        ensures
            match value@ {
                Value::Number(bits) => result == Ok::<u64, Error>(bits),
                _ => result matches Err(error) && is_runtime_error(
                    error,
                    0,
                    "sleep only accepts a number as an argument"@,
                ),
            },
    {
        match value {
            LiteralType::Number(bits) => Ok(*bits),
            _ => Err(
                Error::RuntimeError(
                    0,
                    String::from_str("sleep only accepts a number as an argument"),
                ),
            ),
        }
    }
}

} // verus!
