//! A tree-walking interpreter for the JASN scripting language.
//!
//! The text of a program is split into tokens ([`scanner`]) and built into a syntax tree
//! ([`parser`]) that spells those tokens ([`grammar`]), where they are tokens that parse
//! ([`recognizer`]). Before anything runs, the [`resolver`] checks the scoping rules
//! ([`scoping`]) and gives every reference to a variable its scope distance. The
//! [`interpreter`] walks the tree one move at a time; its state is described in
//! [`machine`], its scope frames live in an [`environment`], and what it can call is in
//! [`callable`]. That a resolved program never misses a frame is the subject of
//! [`safety`].
//!
//! The numbers of the language are binary64 floating-point numbers, held as bit patterns
//! ([`number`]). What is decided on them is decided here ([`evaluation`]); arithmetic,
//! the formatting of numbers, output and the native functions ([`native_functions`]) are
//! the work of the host, which the interpreter asks move by move.

pub mod bindings;
pub mod callable;
pub mod environment;
pub mod error_handler;
pub mod evaluation;
pub mod expressions;
pub mod grammar;
pub mod interpreter;
pub mod machine;
pub mod native_functions;
pub mod number;
pub mod parser;
pub mod recognizer;
pub mod resolver;
pub mod safety;
pub mod scanner;
pub mod scoping;
pub mod statements;
pub mod token;
