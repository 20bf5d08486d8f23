//! Tokens, and the values of the language.

use vstd::prelude::*;
use crate::callable::Callable;
use crate::number::{equal_bits, number_equal};

verus! {

#[derive(Copy, Clone, Debug, PartialEq, Eq, Hash, Structural)]
pub enum TokenType {
    // Single character tokens
    LeftParen,
    RightParen,
    LeftBrace,
    RightBrace,
    LeftSquare,
    RightSquare,
    Comma,
    Dot,
    Semicolon,
    Modulo,
    // One or two character tokens
    Bang,
    BangEqual,
    Equal,
    EqualEqual,
    Greater,
    GreaterEqual,
    Less,
    LessEqual,
    Plus,
    PlusPlus,
    Minus,
    MinusMinus,
    PlusEqual,
    MinusEqual,
    Slash,
    SlashEqual,
    Star,
    StarEqual,
    // Literals
    Identifier,
    String,
    Number,
    // Keywords
    And,
    Class,
    Else,
    False,
    Funk,
    For,
    If,
    Null,
    Or,
    Print,
    Return,
    Super,
    This,
    True,
    Var,
    While,
    // End of file
    Eof,
}

/// A value of the language. A number is held as the bit pattern of its binary64
/// representation.
#[derive(Debug)]
pub enum LiteralType {
    String(String),
    Number(u64),
    Bool(bool),
    Array(Vec<LiteralType>),
    Callable(Callable),
    Null,
}

/// The mathematical content of a value.
pub enum Value {
    String(Seq<char>),
    Number(u64),
    Bool(bool),
    Array(Seq<Value>),
    Callable(Callable),
    Null,
}

/// The rule that maps any value to a boolean: `false` and `null` are falsy, everything
/// else is truthy.
pub open spec fn truthy(value: Value) -> bool {
    match value {
        Value::Bool(b) => b,
        Value::Null => false,
        _ => true,
    }
}

/// Value equality: numbers compare numerically, strings by their text, arrays item by
/// item, callables by identity.
pub open spec fn equal_values(left: Value, right: Value) -> bool
    decreases left,
{
    match (left, right) {
        (Value::String(a), Value::String(b)) => a == b,
        (Value::Number(a), Value::Number(b)) => equal_bits(a, b),
        (Value::Bool(a), Value::Bool(b)) => a == b,
        (Value::Array(a), Value::Array(b)) => a.len() == b.len() && forall|i: int|
            0 <= i < a.len() ==> equal_values(#[trigger] a[i], b[i]),
        (Value::Callable(a), Value::Callable(b)) => a == b,
        (Value::Null, Value::Null) => true,
        _ => false,
    }
}

/// The contents of a sequence of values.
pub open spec fn values_of(items: Seq<LiteralType>) -> Seq<Value> {
    Seq::new(items.len(), |i: int| items[i]@)
}

/// The content of a value.
pub open spec fn content_of(value: LiteralType) -> Value
    decreases value,
{
    match value {
        LiteralType::String(text) => Value::String(text@),
        LiteralType::Number(bits) => Value::Number(bits),
        LiteralType::Bool(b) => Value::Bool(b),
        LiteralType::Array(items) => Value::Array(
            Seq::new(
                items.len() as nat,
                |i: int|
                    if 0 <= i < items.len() {
                        content_of(items[i])
                    } else {
                        Value::Null
                    },
            ),
        ),
        LiteralType::Callable(callable) => Value::Callable(callable),
        LiteralType::Null => Value::Null,
    }
}

impl View for LiteralType {
    type V = Value;

    open spec fn view(&self) -> Value {
        content_of(*self)
    }
}

/// An array's content is the contents of its items.
pub proof fn lemma_array_view(items: Vec<LiteralType>)
    ensures
        LiteralType::Array(items)@ == Value::Array(values_of(items@)),
{
    let whole = LiteralType::Array(items);
    assert(whole@ matches Value::Array(s) && s.len() == items@.len() && (forall|i: int|
        0 <= i < s.len() ==> s[i] == items@[i]@));
    assert(whole@ matches Value::Array(s) && s =~= values_of(items@));
}

impl LiteralType {
    /// A copy with the same content.
    pub fn duplicate(&self) -> (copy: LiteralType)
        ensures
            copy@ == self@,
        decreases self,
    {
        match self {
            LiteralType::String(text) => {
                let copy: String = text.clone();
                LiteralType::String(copy)
            },
            LiteralType::Number(bits) => LiteralType::Number(*bits),
            LiteralType::Bool(b) => LiteralType::Bool(*b),
            LiteralType::Array(items) => {
                let mut copies: Vec<LiteralType> = Vec::new();
                let mut i: usize = 0;
                while i < items.len()
                    invariant
                        i <= items.len(),
                        copies.len() == i,
                        decreases_to!(self => items),
                        forall|j: int| 0 <= j < i ==> copies[j]@ == items[j]@,
                    decreases items.len() - i,
                {
                    let copy = items[i].duplicate();
                    copies.push(copy);
                    i += 1;
                }
                proof {
                    lemma_array_view(copies);
                    lemma_array_view(*items);
                    assert(values_of(copies@) =~= values_of(items@));
                }
                LiteralType::Array(copies)
            },
            LiteralType::Callable(callable) => LiteralType::Callable(*callable),
            LiteralType::Null => LiteralType::Null,
        }
    }

    /// Whether the value counts as true in a condition.
    pub fn is_truthy(&self) -> (r: bool)
        ensures
            r == truthy(self@),
    {
        match self {
            LiteralType::Bool(b) => *b,
            LiteralType::Null => false,
            _ => true,
        }
    }

    /// Whether two values are equal, as `==` of the language sees it.
    pub fn equals(&self, other: &LiteralType) -> (r: bool)
        ensures
            r == equal_values(self@, other@),
        decreases self,
    {
        match (self, other) {
            (LiteralType::String(a), LiteralType::String(b)) => *a == *b,
            (LiteralType::Number(a), LiteralType::Number(b)) => number_equal(*a, *b),
            (LiteralType::Bool(a), LiteralType::Bool(b)) => *a == *b,
            (LiteralType::Array(a), LiteralType::Array(b)) => {
                proof {
                    lemma_array_view(*a);
                    lemma_array_view(*b);
                }
                if a.len() != b.len() {
                    return false;
                }
                let mut i: usize = 0;
                while i < a.len()
                    invariant
                        i <= a.len(),
                        a.len() == b.len(),
                        decreases_to!(self => a),
                        self@ == Value::Array(values_of(a@)),
                        other@ == Value::Array(values_of(b@)),
                        forall|j: int| 0 <= j < i ==> equal_values(a[j]@, b[j]@),
                    decreases a.len() - i,
                {
                    if !a[i].equals(&b[i]) {
                        assert(!equal_values(values_of(a@)[i as int], values_of(b@)[i as int]));
                        return false;
                    }
                    i += 1;
                }
                assert forall|j: int| 0 <= j < values_of(a@).len() implies equal_values(
                    #[trigger] values_of(a@)[j],
                    values_of(b@)[j],
                ) by {
                    assert(equal_values(a[j]@, b[j]@));
                }
                true
            },
            (LiteralType::Callable(a), LiteralType::Callable(b)) => *a == *b,
            (LiteralType::Null, LiteralType::Null) => true,
            _ => false,
        }
    }
}

/// A lexical token: its kind, its text, the literal it denotes, and the line it stands on.
#[derive(Debug)]
pub struct Token {
    pub token_type: TokenType,
    pub lexeme: String,
    pub literal: LiteralType,
    pub line: u32,
}

impl Token {
    pub fn new(token_type: TokenType, lexeme: String, literal: LiteralType, line: u32) -> (token:
        Self)
        ensures
            token == (Token { token_type, lexeme, literal, line }),
    {
        Self { token_type, lexeme, literal, line }
    }

    /// The line to report for this token: the end-of-file token stands one line past the
    /// last line of the text.
    pub open spec fn reported_line(self) -> u32 {
        if self.token_type == TokenType::Eof {
            if self.line == 0 {
                0
            } else {
                (self.line - 1) as u32
            }
        } else {
            self.line
        }
    }

    pub fn get_line(&self) -> (line: u32)
        ensures
            line == self.reported_line(),
    {
        if self.token_type == TokenType::Eof {
            self.line.saturating_sub(1)
        } else {
            self.line
        }
    }

    /// A copy with the same kind, text, literal content and line.
    pub fn duplicate(&self) -> (copy: Token)
        ensures
            copy.token_type == self.token_type,
            copy.lexeme@ == self.lexeme@,
            copy.literal@ == self.literal@,
            copy.line == self.line,
    {
        let lexeme: String = self.lexeme.clone();
        Token { token_type: self.token_type, lexeme, literal: self.literal.duplicate(), line: self.line }
    }
}

} // verus!
