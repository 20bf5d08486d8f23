//! The parts of the evaluator's state: what it is about to do, what it has put off until a
//! value arrives, and what it asks of its host.

use vstd::prelude::*;
use crate::environment::EnvRef;
use crate::error_handler::Error;
use crate::evaluation::ArithmeticOperator;
use crate::expressions::{
    Array, Assign, AssignIndex, Binary, Call, Expr, Get, Index, Logical, SetExpr, Unary,
};
use crate::safety::{
    Names, block_safe, expr_safe, lemma_block_safe_grows, lemma_expr_safe_grows,
    lemma_stmt_safe_grows, names_grow, simple, stmt_safe, target_safe,
};
use crate::statements::{If, Stmt, While};
use crate::token::{LiteralType, Token, values_of};

verus! {

/// Work that has been put off until the work above it is done.
#[derive(Debug)]
pub enum Pending<'a> {
    /// The statements of a sequence from `next` on, to run when the statement before
    /// them completes. At the top level a failing statement is reported and the next one
    /// runs all the same.
    Sequence { statements: &'a Vec<Stmt>, next: usize, top_level: bool },
    /// The variable declared by statement `at` of a sequence, to define when its
    /// initializer has a value; then the sequence goes on.
    Declaring { statements: &'a Vec<Stmt>, at: usize, top_level: bool },
    /// The end of a function call: the body's completion or `return` becomes the value of
    /// the call.
    Call,
    /// An expression statement: the value is dropped.
    Discard,
    /// A `print` statement: the value is turned into text.
    Print,
    /// A `print` statement: the text is handed to the host.
    Emit,
    /// A `return` statement: the value is returned.
    Return,
    /// An `if`: the condition's value picks the branch.
    Branch(&'a If),
    /// A `while`: the condition's value decides whether the body runs.
    Loop(&'a While),
    /// A `while`: when the body completes, the condition is evaluated again.
    Repeat(&'a While),
    /// A variable declared where no sequence holds it: defined when its initializer has a
    /// value.
    Define(&'a Token),
    /// An assignment: the value is bound to the variable.
    Assign(&'a Assign),
    /// A binary operator whose left operand is being evaluated.
    BinaryLeft(&'a Binary),
    /// A binary operator whose right operand is being evaluated; holds the left one.
    BinaryRight(&'a Binary),
    /// A call whose callee is being evaluated.
    Callee(&'a Call),
    /// A call whose arguments are being evaluated; holds the callee and the arguments so
    /// far.
    Arguments(&'a Call),
    /// A property read whose object is being evaluated.
    Property(&'a Get),
    /// A property write whose object is being evaluated.
    SetObject(&'a SetExpr),
    /// A property write whose value is being evaluated; holds the object.
    SetValue(&'a SetExpr),
    /// An array whose items are being evaluated; holds the items so far.
    Elements(&'a Array),
    /// An indexing whose object is being evaluated.
    IndexObject(&'a Index),
    /// An indexing whose index is being evaluated; holds the object.
    IndexIndex(&'a Index),
    /// An indexed assignment whose object is being evaluated.
    AssignIndexObject(&'a AssignIndex),
    /// An indexed assignment whose index is being evaluated; holds the object.
    AssignIndexIndex(&'a AssignIndex),
    /// An indexed assignment whose value is being evaluated; holds object and index.
    AssignIndexValue(&'a AssignIndex),
    /// `and` or `or` whose left operand is being evaluated.
    Logical(&'a Logical),
    /// A unary operator whose operand is being evaluated.
    Unary(&'a Unary),
    /// A concatenation whose other operand is being turned into text; holds the string.
    Concatenate { text_first: bool },
}

/// A piece of pending work, the frame that is current when it resumes, and the values it
/// holds on to.
#[derive(Debug)]
pub struct Frame<'a> {
    pub pending: Pending<'a>,
    pub environment: EnvRef,
    pub held: Vec<LiteralType>,
}

/// What the host is asked to do, kept while the evaluator waits for the answer.
#[derive(Debug)]
pub enum Request {
    /// Compute on two numbers.
    Arithmetic { operator: ArithmeticOperator, left: u64, right: u64 },
    /// Format the numbers of a value, in the order in which they occur in it.
    Format { value: LiteralType, numbers: Vec<u64> },
    /// Call a host function.
    Native { function: usize, arguments: Vec<LiteralType> },
}

/// What the evaluator does next.
#[derive(Debug)]
pub enum Focus<'a> {
    /// Nothing: no program is loaded, or the program has ended.
    Idle,
    /// Execute a statement.
    Execute(&'a Stmt),
    /// Evaluate an expression.
    Evaluate(&'a Expr),
    /// Hand a value to the pending work on top.
    Produced(LiteralType),
    /// Tell the pending work on top that a statement has completed.
    Completed,
    /// Carry the value of a `return` to the nearest call.
    Returning(LiteralType),
    /// Carry a failure to the top level.
    Failing(Error),
    /// Turn a value into text.
    Rendering(LiteralType),
    /// Hand text to the pending work on top.
    Rendered(String),
    /// Wait for the host to answer.
    Awaiting(Request),
}

/// What the host is to do before it steps the evaluator again.
#[derive(Debug)]
pub enum Action {
    /// Nothing.
    Continue,
    /// Write a line to the program's output.
    Print(String),
    /// Report the failure of a top-level statement; the program goes on.
    Report(Error),
    /// Compute on two numbers, and answer with the number.
    Arithmetic { operator: ArithmeticOperator, left: u64, right: u64 },
    /// Format each number, and answer with the texts in the same order.
    Format(Vec<u64>),
    /// Call a host function, and answer with its result.
    Native { function: usize, arguments: Vec<LiteralType> },
    /// Nothing more: the program has ended.
    Finished,
}

/// Where a `return` or a failure stops on its way out of the pending work.
#[derive(Copy, Clone, Debug, PartialEq, Eq, Structural)]
pub enum Boundary {
    /// No pending work is left.
    Empty,
    /// A sequence of the top level: the statement in flight is given up, and the
    /// sequence goes on with the next.
    TopLevel,
    /// The end of a function call.
    Call,
    /// Any other pending work: it is given up.
    Other,
}

/// What a piece of pending work waits for, and which part of the language it belongs to.
#[derive(Copy, Clone, Debug, PartialEq, Eq, Structural)]
pub enum Group {
    /// Waits for a statement to complete.
    Completion,
    /// Waits for text.
    Text,
    /// Waits for a value: a statement.
    Statement,
    /// Waits for a value: an operator, an assignment, an index or an array.
    Operator,
    /// Waits for a value: a call.
    Call,
    /// Waits for a value: a property.
    Property,
}

/// The group of a piece of pending work.
pub open spec fn group_of(pending: Pending) -> Group {
    match pending {
        Pending::Sequence { statements, next, top_level } => Group::Completion,
        Pending::Call => Group::Completion,
        Pending::Repeat(_) => Group::Completion,
        Pending::Emit => Group::Text,
        Pending::Concatenate { text_first } => Group::Text,
        Pending::Declaring { statements, at, top_level } => Group::Statement,
        Pending::Discard => Group::Statement,
        Pending::Print => Group::Statement,
        Pending::Return => Group::Statement,
        Pending::Branch(_) => Group::Statement,
        Pending::Loop(_) => Group::Statement,
        Pending::Define(_) => Group::Statement,
        Pending::Callee(_) => Group::Call,
        Pending::Arguments(_) => Group::Call,
        Pending::Property(_) => Group::Property,
        Pending::SetObject(_) => Group::Property,
        Pending::SetValue(_) => Group::Property,
        _ => Group::Operator,
    }
}

impl<'a> Pending<'a> {
    /// The group of the pending work.
    pub fn group(&self) -> (group: Group)
        ensures
            group == group_of(*self),
    {
        match self {
            Pending::Sequence { statements, next, top_level } => Group::Completion,
            Pending::Call => Group::Completion,
            Pending::Repeat(_) => Group::Completion,
            Pending::Emit => Group::Text,
            Pending::Concatenate { text_first } => Group::Text,
            Pending::Declaring { statements, at, top_level } => Group::Statement,
            Pending::Discard => Group::Statement,
            Pending::Print => Group::Statement,
            Pending::Return => Group::Statement,
            Pending::Branch(_) => Group::Statement,
            Pending::Loop(_) => Group::Statement,
            Pending::Define(_) => Group::Statement,
            Pending::Callee(_) => Group::Call,
            Pending::Arguments(_) => Group::Call,
            Pending::Property(_) => Group::Property,
            Pending::SetObject(_) => Group::Property,
            Pending::SetValue(_) => Group::Property,
            _ => Group::Operator,
        }
    }
}

/// What the host answers.
#[derive(Debug)]
pub enum Response {
    Nothing,
    Number(u64),
    Texts(Vec<String>),
    Native(Result<LiteralType, Error>),
}

/// The texts of a list of strings.
pub open spec fn texts_of(texts: Seq<String>) -> Seq<Seq<char>> {
    Seq::new(texts.len(), |i: int| texts[i]@)
}

/// Whether an action asks what a request asks.
pub open spec fn asks(action: Action, request: Request) -> bool {
    match request {
        Request::Arithmetic { operator, left, right } => action matches Action::Arithmetic {
            operator: o,
            left: l,
            right: r,
        } && o == operator && l == left && r == right,
        Request::Format { value, numbers } => action matches Action::Format(asked) && asked@
            == numbers@,
        Request::Native { function, arguments } => action matches Action::Native {
            function: f,
            arguments: a,
        } && f == function && values_of(a@) == values_of(arguments@),
    }
}

/// Whether pending work is in order when it resumes in `environment` and holds on to
/// `count` values. Work of the top level resumes in the global frame.
pub open spec fn fits(pending: Pending, environment: EnvRef, count: nat) -> bool {
    match pending {
        Pending::Sequence { statements, next, top_level } => next <= statements.len() && count
            == 0 && (top_level ==> environment == 0),
        Pending::Declaring { statements, at, top_level } => at < statements.len() && (
        statements[at as int] matches Stmt::Variable(declaration)
            && declaration.initializer is Some) && count == 0 && (top_level ==> environment
            == 0),
        Pending::BinaryRight(_) => count == 1,
        Pending::Arguments(call) => 1 <= count <= call.arguments.len(),
        Pending::SetValue(_) => count == 1,
        Pending::Elements(array) => count < array.values.len(),
        Pending::IndexIndex(_) => count == 1,
        Pending::AssignIndexIndex(_) => count == 1,
        Pending::AssignIndexValue(_) => count == 2,
        Pending::Concatenate { text_first } => count == 1,
        _ => count == 0,
    }
}

/// Whether a piece of pending work is in order.
pub open spec fn holds(frame: Frame) -> bool {
    fits(frame.pending, frame.environment, frame.held@.len())
}

/// Every reference that the pending work will still evaluate is safe under the names.
pub open spec fn pending_safe(pending: Pending, names: Names) -> bool {
    match pending {
        Pending::Sequence { statements, next, top_level } => block_safe(
            statements@,
            next as int,
            names,
        ),
        Pending::Declaring { statements, at, top_level } => block_safe(
            statements@,
            at as int,
            names,
        ),
        Pending::Branch(s) => simple(s.then_branch) && stmt_safe(s.then_branch, names) && match s.else_branch {
            Some(otherwise) => simple(otherwise) && stmt_safe(otherwise, names),
            None => true,
        },
        Pending::Loop(s) => expr_safe(s.condition, names) && simple(s.body) && stmt_safe(
            s.body,
            names,
        ),
        Pending::Repeat(s) => expr_safe(s.condition, names) && simple(s.body) && stmt_safe(
            s.body,
            names,
        ),
        Pending::Assign(e) => target_safe(e.distance, names),
        Pending::BinaryLeft(e) => expr_safe(e.right, names),
        Pending::Callee(e) => forall|i: int|
            0 <= i < e.arguments.len() ==> expr_safe(#[trigger] e.arguments[i], names),
        Pending::Arguments(e) => forall|i: int|
            0 <= i < e.arguments.len() ==> expr_safe(#[trigger] e.arguments[i], names),
        Pending::SetObject(e) => expr_safe(e.value, names),
        Pending::Elements(e) => forall|i: int|
            0 <= i < e.values.len() ==> expr_safe(#[trigger] e.values[i], names),
        Pending::IndexObject(e) => expr_safe(e.index, names),
        Pending::AssignIndexObject(e) => expr_safe(e.index, names) && expr_safe(e.value, names),
        Pending::AssignIndexIndex(e) => expr_safe(e.value, names),
        Pending::Logical(e) => expr_safe(e.right, names),
        _ => true,
    }
}

/// Safety of pending work survives the growth of the scopes.
pub proof fn lemma_pending_safe_grows(pending: Pending, before: Names, after: Names)
    requires
        pending_safe(pending, before),
        names_grow(before, after),
    ensures
        pending_safe(pending, after),
{
    match pending {
        Pending::Sequence { statements, next, top_level } => {
            lemma_block_safe_grows(statements@, next as int, before, after);
        },
        Pending::Declaring { statements, at, top_level } => {
            lemma_block_safe_grows(statements@, at as int, before, after);
        },
        Pending::Branch(s) => {
            lemma_stmt_safe_grows(s.then_branch, before, after);
            match s.else_branch {
                Some(otherwise) => {
                    lemma_stmt_safe_grows(otherwise, before, after);
                },
                None => {},
            }
        },
        Pending::Loop(s) => {
            lemma_expr_safe_grows(s.condition, before, after);
            lemma_stmt_safe_grows(s.body, before, after);
        },
        Pending::Repeat(s) => {
            lemma_expr_safe_grows(s.condition, before, after);
            lemma_stmt_safe_grows(s.body, before, after);
        },
        Pending::Assign(e) => {},
        Pending::BinaryLeft(e) => {
            lemma_expr_safe_grows(e.right, before, after);
        },
        Pending::Callee(e) => {
            assert forall|i: int| 0 <= i < e.arguments.len() implies expr_safe(
                #[trigger] e.arguments[i],
                after,
            ) by {
                lemma_expr_safe_grows(e.arguments[i], before, after);
            }
        },
        Pending::Arguments(e) => {
            assert forall|i: int| 0 <= i < e.arguments.len() implies expr_safe(
                #[trigger] e.arguments[i],
                after,
            ) by {
                lemma_expr_safe_grows(e.arguments[i], before, after);
            }
        },
        Pending::SetObject(e) => {
            lemma_expr_safe_grows(e.value, before, after);
        },
        Pending::Elements(e) => {
            assert forall|i: int| 0 <= i < e.values.len() implies expr_safe(
                #[trigger] e.values[i],
                after,
            ) by {
                lemma_expr_safe_grows(e.values[i], before, after);
            }
        },
        Pending::IndexObject(e) => {
            lemma_expr_safe_grows(e.index, before, after);
        },
        Pending::AssignIndexObject(e) => {
            lemma_expr_safe_grows(e.index, before, after);
            lemma_expr_safe_grows(e.value, before, after);
        },
        Pending::AssignIndexIndex(e) => {
            lemma_expr_safe_grows(e.value, before, after);
        },
        Pending::Logical(e) => {
            lemma_expr_safe_grows(e.right, before, after);
        },
        _ => {},
    }
}

/// Safety of what the evaluator is about to do survives the growth of the scopes.
pub proof fn lemma_focus_safe_grows(focus: Focus, before: Names, after: Names)
    requires
        focus_safe(focus, before),
        names_grow(before, after),
    ensures
        focus_safe(focus, after),
{
    match focus {
        Focus::Execute(stmt) => {
            lemma_stmt_safe_grows(*stmt, before, after);
        },
        Focus::Evaluate(expr) => {
            lemma_expr_safe_grows(*expr, before, after);
        },
        _ => {},
    }
}

/// Every reference in what the evaluator is about to do is safe under the names.
pub open spec fn focus_safe(focus: Focus, names: Names) -> bool {
    match focus {
        Focus::Execute(stmt) => simple(*stmt) && stmt_safe(*stmt, names),
        Focus::Evaluate(expr) => expr_safe(*expr, names),
        _ => true,
    }
}

} // verus!
