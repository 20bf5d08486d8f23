//! What the operators of the language compute, as functions of their operands.
//!
//! Numeric arithmetic itself is the host's work: where an operator needs it, the function
//! here says which operation on which operands. Everything else is decided here: the
//! operands an operator accepts, equality, comparison, division by zero, concatenation,
//! and indexing.

use vstd::prelude::*;
use vstd::string::*;
use crate::error_handler::Error;
use crate::number::{
    index_in, index_of_bits, is_zero, is_zero_bits, less_bits, less_equal_bits, negate,
    negated_bits, number_less, number_less_equal,
};
use crate::token::{LiteralType, Token, TokenType, Value, equal_values, lemma_array_view, truthy};

verus! {

/// The arithmetic that the host performs on two numbers.
#[derive(Copy, Clone, Debug, PartialEq, Eq, Structural)]
pub enum ArithmeticOperator {
    Add,
    Subtract,
    Multiply,
    Divide,
    Remainder,
}

/// What a binary operator comes to, once both operands are known.
#[derive(Debug)]
pub enum BinaryStep {
    /// The result is this value.
    Value(LiteralType),
    /// The result is what the host computes from two numbers.
    Arithmetic { operator: ArithmeticOperator, left: u64, right: u64 },
    /// The result is `text` joined with the text of `other`, `text` first or last.
    Concatenate { text: String, other: LiteralType, text_first: bool },
    /// The operator does not accept the operands.
    Failure(Error),
}

/// The content of a [`BinaryStep`].
pub enum BinaryOutcome {
    Value(Value),
    Arithmetic { operator: ArithmeticOperator, left: u64, right: u64 },
    Concatenate { text: Seq<char>, other: Value, text_first: bool },
    Failure { line: u32, message: Seq<char> },
}

/// An error of the running program on the given line with the given message.
pub open spec fn is_runtime_error(error: Error, line: u32, message: Seq<char>) -> bool {
    error matches Error::RuntimeError(l, m) && l == line && m@ == message
}

/// Whether a step has the given content.
pub open spec fn step_is(step: BinaryStep, outcome: BinaryOutcome) -> bool {
    match outcome {
        BinaryOutcome::Value(value) => step matches BinaryStep::Value(found) && found@ == value,
        BinaryOutcome::Arithmetic { operator, left, right } => step matches BinaryStep::Arithmetic {
            operator: o,
            left: l,
            right: r,
        } && o == operator && l == left && r == right,
        BinaryOutcome::Concatenate { text, other, text_first } => step matches BinaryStep::Concatenate {
            text: t,
            other: o,
            text_first: f,
        } && t@ == text && o@ == other && f == text_first,
        BinaryOutcome::Failure { line, message } => step matches BinaryStep::Failure(error)
            && is_runtime_error(error, line, message),
    }
}

/// The failure of an operand that is not a number.
pub open spec fn not_a_number(line: u32) -> BinaryOutcome {
    BinaryOutcome::Failure { line, message: "Cannot convert to decimal"@ }
}

/// The arithmetic on two operands, which must both be numbers.
pub open spec fn arithmetic_on(operator: ArithmeticOperator, line: u32, left: Value, right: Value) -> BinaryOutcome {
    match (left, right) {
        (Value::Number(a), Value::Number(b)) => BinaryOutcome::Arithmetic {
            operator,
            left: a,
            right: b,
        },
        _ => not_a_number(line),
    }
}

/// What a binary operator comes to.
///
/// `==` and `!=` compare any two values. The four comparisons take numbers. `-`, `*`, `/`
/// and `%` take numbers; with a divisor of zero, positive or negative, `/` and `%` fail,
/// so that neither an infinity nor a NaN comes of a division. `+` adds two numbers; where either
/// operand is a string it joins the string with the text of the other operand; anything
/// else fails.
pub open spec fn binary_outcome(kind: TokenType, line: u32, left: Value, right: Value) -> BinaryOutcome {
    match kind {
        TokenType::BangEqual => BinaryOutcome::Value(Value::Bool(!equal_values(left, right))),
        TokenType::EqualEqual => BinaryOutcome::Value(Value::Bool(equal_values(left, right))),
        TokenType::Greater => match (left, right) {
            (Value::Number(a), Value::Number(b)) => BinaryOutcome::Value(
                Value::Bool(less_bits(b, a)),
            ),
            _ => not_a_number(line),
        },
        TokenType::GreaterEqual => match (left, right) {
            (Value::Number(a), Value::Number(b)) => BinaryOutcome::Value(
                Value::Bool(less_equal_bits(b, a)),
            ),
            _ => not_a_number(line),
        },
        TokenType::Less => match (left, right) {
            (Value::Number(a), Value::Number(b)) => BinaryOutcome::Value(
                Value::Bool(less_bits(a, b)),
            ),
            _ => not_a_number(line),
        },
        TokenType::LessEqual => match (left, right) {
            (Value::Number(a), Value::Number(b)) => BinaryOutcome::Value(
                Value::Bool(less_equal_bits(a, b)),
            ),
            _ => not_a_number(line),
        },
        TokenType::Minus | TokenType::MinusEqual | TokenType::MinusMinus => arithmetic_on(
            ArithmeticOperator::Subtract,
            line,
            left,
            right,
        ),
        TokenType::Slash | TokenType::SlashEqual => match (left, right) {
            (Value::Number(a), Value::Number(b)) => if is_zero_bits(b) {
                BinaryOutcome::Failure { line, message: "Division by zero."@ }
            } else {
                BinaryOutcome::Arithmetic { operator: ArithmeticOperator::Divide, left: a, right: b }
            },
            _ => not_a_number(line),
        },
        TokenType::Star | TokenType::StarEqual => arithmetic_on(
            ArithmeticOperator::Multiply,
            line,
            left,
            right,
        ),
        TokenType::Modulo => match (left, right) {
            (Value::Number(a), Value::Number(b)) => if is_zero_bits(b) {
                BinaryOutcome::Failure { line, message: "Division by zero."@ }
            } else {
                BinaryOutcome::Arithmetic {
                    operator: ArithmeticOperator::Remainder,
                    left: a,
                    right: b,
                }
            },
            _ => not_a_number(line),
        },
        TokenType::Plus | TokenType::PlusEqual | TokenType::PlusPlus => match (left, right) {
            (Value::Number(a), Value::Number(b)) => BinaryOutcome::Arithmetic {
                operator: ArithmeticOperator::Add,
                left: a,
                right: b,
            },
            (Value::String(text), _) => BinaryOutcome::Concatenate {
                text,
                other: right,
                text_first: true,
            },
            (_, Value::String(text)) => BinaryOutcome::Concatenate {
                text,
                other: left,
                text_first: false,
            },
            _ => BinaryOutcome::Failure { line, message: "Invalid Operands."@ },
        },
        _ => BinaryOutcome::Failure { line, message: "Invalid binary operator."@ },
    }
}

fn not_a_number_error(line: u32) -> (error: Error)
    ensures
        is_runtime_error(error, line, "Cannot convert to decimal"@),
{
    Error::RuntimeError(line, String::from_str("Cannot convert to decimal"))
}

fn arithmetic(operator: ArithmeticOperator, line: u32, left: LiteralType, right: LiteralType) -> (step:
    BinaryStep)
    ensures
        step_is(step, arithmetic_on(operator, line, left@, right@)),
{
    match (left, right) {
        (LiteralType::Number(a), LiteralType::Number(b)) => BinaryStep::Arithmetic {
            operator,
            left: a,
            right: b,
        },
        _ => BinaryStep::Failure(not_a_number_error(line)),
    }
}

/// Applies a binary operator to its two operands; see [`binary_outcome`].
pub fn binary_operation(operator: &Token, left: LiteralType, right: LiteralType) -> (step:
    BinaryStep)
    ensures
        step_is(step, binary_outcome(operator.token_type, operator.line, left@, right@)),
{
    let line = operator.line;
    match operator.token_type {
        TokenType::BangEqual => BinaryStep::Value(LiteralType::Bool(!left.equals(&right))),
        TokenType::EqualEqual => BinaryStep::Value(LiteralType::Bool(left.equals(&right))),
        TokenType::Greater => match (left, right) {
            (LiteralType::Number(a), LiteralType::Number(b)) => BinaryStep::Value(
                LiteralType::Bool(number_less(b, a)),
            ),
            _ => BinaryStep::Failure(not_a_number_error(line)),
        },
        TokenType::GreaterEqual => match (left, right) {
            (LiteralType::Number(a), LiteralType::Number(b)) => BinaryStep::Value(
                LiteralType::Bool(number_less_equal(b, a)),
            ),
            _ => BinaryStep::Failure(not_a_number_error(line)),
        },
        TokenType::Less => match (left, right) {
            (LiteralType::Number(a), LiteralType::Number(b)) => BinaryStep::Value(
                LiteralType::Bool(number_less(a, b)),
            ),
            _ => BinaryStep::Failure(not_a_number_error(line)),
        },
        TokenType::LessEqual => match (left, right) {
            (LiteralType::Number(a), LiteralType::Number(b)) => BinaryStep::Value(
                LiteralType::Bool(number_less_equal(a, b)),
            ),
            _ => BinaryStep::Failure(not_a_number_error(line)),
        },
        TokenType::Minus | TokenType::MinusEqual | TokenType::MinusMinus => arithmetic(
            ArithmeticOperator::Subtract,
            line,
            left,
            right,
        ),
        TokenType::Slash | TokenType::SlashEqual => match (left, right) {
            (LiteralType::Number(a), LiteralType::Number(b)) => if is_zero(b) {
                BinaryStep::Failure(
                    Error::RuntimeError(line, String::from_str("Division by zero.")),
                )
            } else {
                BinaryStep::Arithmetic { operator: ArithmeticOperator::Divide, left: a, right: b }
            },
            _ => BinaryStep::Failure(not_a_number_error(line)),
        },
        TokenType::Star | TokenType::StarEqual => arithmetic(
            ArithmeticOperator::Multiply,
            line,
            left,
            right,
        ),
        TokenType::Modulo => match (left, right) {
            (LiteralType::Number(a), LiteralType::Number(b)) => if is_zero(b) {
                BinaryStep::Failure(
                    Error::RuntimeError(line, String::from_str("Division by zero.")),
                )
            } else {
                BinaryStep::Arithmetic { operator: ArithmeticOperator::Remainder, left: a, right: b }
            },
            _ => BinaryStep::Failure(not_a_number_error(line)),
        },
        TokenType::Plus | TokenType::PlusEqual | TokenType::PlusPlus => match (left, right) {
            (LiteralType::Number(a), LiteralType::Number(b)) => BinaryStep::Arithmetic {
                operator: ArithmeticOperator::Add,
                left: a,
                right: b,
            },
            (LiteralType::String(text), other) => BinaryStep::Concatenate {
                text,
                other,
                text_first: true,
            },
            (other, LiteralType::String(text)) => BinaryStep::Concatenate {
                text,
                other,
                text_first: false,
            },
            _ => BinaryStep::Failure(
                Error::RuntimeError(line, String::from_str("Invalid Operands.")),
            ),
        },
        _ => BinaryStep::Failure(
            Error::RuntimeError(line, String::from_str("Invalid binary operator.")),
        ),
    }
}

/// Dividing any number by zero fails, and so does taking the remainder of such a
/// division; both fail as an error of the running program.
pub proof fn lemma_division_by_zero_fails(kind: TokenType, line: u32, left: u64, right: u64)
    requires
        kind == TokenType::Slash || kind == TokenType::SlashEqual || kind == TokenType::Modulo,
        is_zero_bits(right),
    ensures
        binary_outcome(kind, line, Value::Number(left), Value::Number(right))
            == (BinaryOutcome::Failure { line, message: "Division by zero."@ }),
{
}

/// What a unary operator comes to: `-` negates a number, `!` inverts the truth of any
/// value, and nothing else is a unary operator.
pub open spec fn unary_outcome(kind: TokenType, value: Value) -> Result<Value, Seq<char>> {
    match kind {
        TokenType::Minus => match value {
            Value::Number(bits) => Ok(Value::Number(negated_bits(bits))),
            _ => Err("Cannot convert to decimal"@),
        },
        TokenType::Bang => Ok(Value::Bool(!truthy(value))),
        _ => Err("Invalid unary operator."@),
    }
}

/// Applies a unary operator to its operand; see [`unary_outcome`].
pub fn unary_operation(operator: &Token, right: LiteralType) -> (result: Result<LiteralType, Error>)
    ensures
        match unary_outcome(operator.token_type, right@) {
            Ok(value) => result matches Ok(found) && found@ == value,
            Err(message) => result matches Err(error) && is_runtime_error(
                error,
                operator.line,
                message,
            ),
        },
{
    match operator.token_type {
        TokenType::Minus => match right {
            LiteralType::Number(bits) => Ok(LiteralType::Number(negate(bits))),
            _ => Err(not_a_number_error(operator.line)),
        },
        TokenType::Bang => Ok(LiteralType::Bool(!right.is_truthy())),
        _ => Err(Error::RuntimeError(operator.line, String::from_str("Invalid unary operator."))),
    }
}

/// What indexing comes to: the object must be an array and the index a number, which
/// is rounded toward zero and must then lie from zero up to the length of the array. A
/// negative index and NaN are out of bounds.
pub open spec fn index_outcome(object: Value, index: Value) -> Result<nat, Seq<char>> {
    match object {
        Value::Array(items) => match index {
            Value::Number(bits) => match index_of_bits(bits, items.len()) {
                Some(at) => Ok(at),
                None => Err("Array index out of bounds."@),
            },
            _ => Err("Array index must be a number."@),
        },
        _ => Err("Attempted to index a non-array value."@),
    }
}

/// The item of an array that an index selects. An error is reported on the given line.
pub fn index_value(line: u32, object: &LiteralType, index: &LiteralType) -> (result: Result<
    LiteralType,
    Error,
>)
    ensures
        match index_outcome(object@, index@) {
            Ok(at) => result matches Ok(found) && (object@ matches Value::Array(items) && found@
                == items[at as int]),
            Err(message) => result matches Err(error) && is_runtime_error(error, line, message),
        },
{
    match object {
        LiteralType::Array(items) => {
            proof {
                lemma_array_view(*items);
            }
            match index {
                LiteralType::Number(bits) => match index_in(*bits, items.len()) {
                    Some(at) => Ok(items[at].duplicate()),
                    None => Err(
                        Error::RuntimeError(line, String::from_str("Array index out of bounds.")),
                    ),
                },
                _ => Err(
                    Error::RuntimeError(line, String::from_str("Array index must be a number.")),
                ),
            }
        },
        _ => Err(
            Error::RuntimeError(line, String::from_str("Attempted to index a non-array value.")),
        ),
    }
}

/// Assignment through an index. Arrays are values: the array that is indexed is the copy
/// that the expression produced, so no binding changes. The index is checked as in
/// [`index_value`], and the assigned value is the result.
pub fn assign_index_value(
    line: u32,
    object: &LiteralType,
    index: &LiteralType,
    value: LiteralType,
) -> (result: Result<LiteralType, Error>)
    ensures
        match index_outcome(object@, index@) {
            Ok(_) => result matches Ok(found) && found@ == value@,
            Err(message) => result matches Err(error) && is_runtime_error(error, line, message),
        },
{
    match object {
        LiteralType::Array(items) => {
            proof {
                lemma_array_view(*items);
            }
            match index {
                LiteralType::Number(bits) => match index_in(*bits, items.len()) {
                    Some(_) => Ok(value),
                    None => Err(
                        Error::RuntimeError(line, String::from_str("Array index out of bounds.")),
                    ),
                },
                _ => Err(
                    Error::RuntimeError(line, String::from_str("Array index must be a number.")),
                ),
            }
        },
        _ => Err(
            Error::RuntimeError(line, String::from_str("Attempted to index a non-array value.")),
        ),
    }
}

/// The text of one decimal digit.
pub open spec fn digit_text(digit: nat) -> Seq<char> {
    "0123456789"@.subrange(digit as int, digit as int + 1)
}

/// The text of a number in decimal notation.
pub open spec fn decimal_text(n: nat) -> Seq<char>
    decreases n,
{
    if n < 10 {
        digit_text(n)
    } else {
        decimal_text(n / 10) + digit_text(n % 10)
    }
}

/// The text of a number in decimal notation.
pub fn decimal(n: usize) -> (text: String)
    ensures
        text@ == decimal_text(n as nat),
    decreases n,
{
    let digits = "0123456789";
    proof {
        reveal_strlit("0123456789");
    }
    if n < 10 {
        String::from_str(digits.substring_ascii(n, n + 1))
    } else {
        decimal(n / 10).concat(digits.substring_ascii(n % 10, n % 10 + 1))
    }
}

} // verus!
