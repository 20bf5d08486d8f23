//! Splits the text of a program into tokens.
//!
//! The text is read byte by byte. A token is the longest run of bytes that forms one: a
//! punctuation mark of one or two bytes, a string between double quotes, a number with
//! digits on both sides of its decimal point, or a word, which is a keyword or an
//! identifier. Blanks and comments separate tokens and are dropped. The literal of a
//! number is left to the host, which knows the numbers of the machine.

use vstd::prelude::*;
use vstd::string::*;
use vstd::utf8::{
    encode_utf8, encode_utf8_valid_utf8, is_char_boundary,
    is_char_boundary_iff_not_is_continuation_byte, is_char_boundary_start_end_of_seq,
    length_of_first_scalar, pop_first_scalar, valid_utf8, valid_utf8_split,
};
use crate::error_handler::Error;
use crate::token::{LiteralType, Token, TokenType, Value};

verus! {

/// The byte of `(`.
pub const LEFT_PAREN: u8 = 40;

/// The byte of `)`.
pub const RIGHT_PAREN: u8 = 41;

/// The byte of `{`.
pub const LEFT_BRACE: u8 = 123;

/// The byte of `}`.
pub const RIGHT_BRACE: u8 = 125;

/// The byte of `[`.
pub const LEFT_SQUARE: u8 = 91;

/// The byte of `]`.
pub const RIGHT_SQUARE: u8 = 93;

/// The byte of `,`.
pub const COMMA: u8 = 44;

/// The byte of `.`.
pub const DOT: u8 = 46;

/// The byte of `;`.
pub const SEMICOLON: u8 = 59;

/// The byte of `%`.
pub const PERCENT: u8 = 37;

/// The byte of `-`.
pub const MINUS: u8 = 45;

/// The byte of `+`.
pub const PLUS: u8 = 43;

/// The byte of `*`.
pub const STAR: u8 = 42;

/// The byte of `/`.
pub const SLASH: u8 = 47;

/// The byte of `!`.
pub const BANG: u8 = 33;

/// The byte of `=`.
pub const EQUAL: u8 = 61;

/// The byte of `<`.
pub const LESS: u8 = 60;

/// The byte of `>`.
pub const GREATER: u8 = 62;

/// The byte of `"`.
pub const QUOTE: u8 = 34;

/// The byte of the blank.
pub const SPACE: u8 = 32;

/// The byte of the carriage return.
pub const CARRIAGE_RETURN: u8 = 13;

/// The byte of the tabulator.
pub const TAB: u8 = 9;

/// The byte of the line end.
pub const NEWLINE: u8 = 10;

/// The byte of `0`.
pub const DIGIT_ZERO: u8 = 48;

/// The byte of `9`.
pub const DIGIT_NINE: u8 = 57;

/// The byte of `a`.
pub const LOWER_A: u8 = 97;

/// The byte of `z`.
pub const LOWER_Z: u8 = 122;

/// The byte of `A`.
pub const UPPER_A: u8 = 65;

/// The byte of `Z`.
pub const UPPER_Z: u8 = 90;

/// The byte of `_`.
pub const UNDERSCORE: u8 = 95;

/// The scanner: the text, the tokens and errors found so far, and the place it has
/// reached: the token in hand starts at `start`, and `current` is the next byte to read.
#[derive(Debug)]
pub struct Scanner {
    source: String,
    pub tokens: Vec<Token>,
    pub errors: Vec<Error>,
    start: usize,
    current: usize,
    line: u32,
}

/// A blank: the space, the tabulator or the carriage return.
pub open spec fn blank_byte(c: u8) -> bool {
    c == SPACE || c == TAB || c == CARRIAGE_RETURN
}

/// A decimal digit.
pub open spec fn digit_byte(c: u8) -> bool {
    DIGIT_ZERO <= c <= DIGIT_NINE
}

/// A letter or the underscore.
pub open spec fn alpha_byte(c: u8) -> bool {
    (LOWER_A <= c <= LOWER_Z) || (UPPER_A <= c <= UPPER_Z) || c == UNDERSCORE
}

/// The number of line ends among the bytes from `from` up to `to`.
pub open spec fn newlines_in(bytes: Seq<u8>, from: int, to: int) -> nat
    decreases to - from,
{
    if to <= from || to > bytes.len() || from < 0 {
        0
    } else {
        newlines_in(bytes, from, to - 1) + (if bytes[to - 1] == NEWLINE {
            1nat
        } else {
            0nat
        })
    }
}

/// A line number after as many line ends; the largest line number is not exceeded.
pub open spec fn bumped(line: u32, by: nat) -> u32 {
    if line + by > u32::MAX {
        u32::MAX
    } else {
        (line + by) as u32
    }
}

/// The line ends of a run of bytes are those of its first part and those of its second.
pub proof fn lemma_newlines_split(bytes: Seq<u8>, from: int, middle: int, to: int)
    requires
        0 <= from <= middle <= to <= bytes.len(),
    ensures
        newlines_in(bytes, from, to) == newlines_in(bytes, from, middle) + newlines_in(
            bytes,
            middle,
            to,
        ),
    decreases to - middle,
{
    if middle < to {
        lemma_newlines_split(bytes, from, middle, to - 1);
    }
}

/// Line ends add up.
pub proof fn lemma_bumped_twice(line: u32, first: nat, second: nat)
    ensures
        bumped(bumped(line, first), second) == bumped(line, first + second),
{
}

/// Where the run of letters, underscores and digits ends that stands at `at`.
pub open spec fn word_end(bytes: Seq<u8>, at: int) -> int
    decreases bytes.len() - at,
{
    if 0 <= at < bytes.len() && (alpha_byte(bytes[at]) || digit_byte(bytes[at])) {
        word_end(bytes, at + 1)
    } else {
        at
    }
}

/// Where the run of digits ends that stands at `at`.
pub open spec fn digits_end(bytes: Seq<u8>, at: int) -> int
    decreases bytes.len() - at,
{
    if 0 <= at < bytes.len() && digit_byte(bytes[at]) {
        digits_end(bytes, at + 1)
    } else {
        at
    }
}

/// Where the line ends that `at` stands on: at its line end, or at the end of the text.
pub open spec fn line_end(bytes: Seq<u8>, at: int) -> int
    decreases bytes.len() - at,
{
    if 0 <= at < bytes.len() && bytes[at] != NEWLINE {
        line_end(bytes, at + 1)
    } else {
        at
    }
}

/// Where the next double quote stands from `at` on, or the end of the text.
pub open spec fn quote_at(bytes: Seq<u8>, at: int) -> int
    decreases bytes.len() - at,
{
    if 0 <= at < bytes.len() && bytes[at] != QUOTE {
        quote_at(bytes, at + 1)
    } else {
        at
    }
}

/// Where a number ends that begins at `at`: behind its digits, and behind the digits
/// after its decimal point where it has one with a digit after it.
pub open spec fn number_end(bytes: Seq<u8>, at: int) -> int {
    let whole = digits_end(bytes, at + 1);
    if whole + 1 < bytes.len() && bytes[whole] == DOT && digit_byte(bytes[whole + 1]) {
        digits_end(bytes, whole + 1)
    } else {
        whole
    }
}

/// Whether the byte at `at` is the given one.
pub open spec fn byte_is(bytes: Seq<u8>, at: int, c: u8) -> bool {
    0 <= at < bytes.len() && bytes[at] == c
}

/// Where the token, blank or comment ends that begins at `at`: the longest run of bytes
/// that forms one.
pub open spec fn lexeme_end(bytes: Seq<u8>, at: int) -> int {
    let c = bytes[at];
    if c == MINUS {
        if byte_is(bytes, at + 1, MINUS) || byte_is(bytes, at + 1, EQUAL) {
            at + 2
        } else {
            at + 1
        }
    } else if c == PLUS {
        if byte_is(bytes, at + 1, PLUS) || byte_is(bytes, at + 1, EQUAL) {
            at + 2
        } else {
            at + 1
        }
    } else if c == STAR || c == BANG || c == EQUAL || c == LESS || c == GREATER {
        if byte_is(bytes, at + 1, EQUAL) {
            at + 2
        } else {
            at + 1
        }
    } else if c == SLASH {
        if byte_is(bytes, at + 1, SLASH) {
            line_end(bytes, at + 2)
        } else if byte_is(bytes, at + 1, EQUAL) {
            at + 2
        } else {
            at + 1
        }
    } else if c == QUOTE {
        let close = quote_at(bytes, at + 1);
        if close < bytes.len() {
            close + 1
        } else {
            close
        }
    } else if digit_byte(c) {
        number_end(bytes, at)
    } else if alpha_byte(c) {
        word_end(bytes, at + 1)
    } else {
        at + 1
    }
}

/// Whether a token begins at `at`: neither a blank, nor a line end, nor a comment, nor a
/// string that the text ends in, nor a byte that begins nothing.
pub open spec fn token_begins(bytes: Seq<u8>, at: int) -> bool {
    let c = bytes[at];
    if blank_byte(c) || c == NEWLINE {
        false
    } else if c == SLASH {
        !byte_is(bytes, at + 1, SLASH)
    } else if c == QUOTE {
        quote_at(bytes, at + 1) < bytes.len()
    } else {
        c == LEFT_PAREN || c == RIGHT_PAREN || c == LEFT_BRACE || c == RIGHT_BRACE || c
            == LEFT_SQUARE || c == RIGHT_SQUARE || c == COMMA || c == DOT || c == SEMICOLON || c
            == PERCENT || c == MINUS || c == PLUS || c == STAR || c == BANG || c == EQUAL || c
            == LESS || c == GREATER || digit_byte(c) || alpha_byte(c)
    }
}

/// Whether what begins at `at` is dropped: a blank, a line end or a comment.
pub open spec fn skips(bytes: Seq<u8>, at: int) -> bool {
    blank_byte(bytes[at]) || bytes[at] == NEWLINE || (bytes[at] == SLASH && byte_is(
        bytes,
        at + 1,
        SLASH,
    ))
}

/// Whether what begins at `at` is an error: a string that the text ends in, or a byte
/// that begins nothing.
pub open spec fn error_begins(bytes: Seq<u8>, at: int) -> bool {
    !token_begins(bytes, at) && !skips(bytes, at)
}

/// What the scanner finds of a token before it is made: the bytes of its text, and the
/// line that the scanner has reached behind it.
pub struct Lexeme {
    pub text: Seq<u8>,
    pub line: u32,
}

/// The tokens of the text from `at` on, where the scanner has reached `line`.
pub open spec fn lexemes(bytes: Seq<u8>, at: int, line: u32) -> Seq<Lexeme>
    decreases bytes.len() - at,
{
    if 0 <= at < bytes.len() && at < lexeme_end(bytes, at) <= bytes.len() {
        let end = lexeme_end(bytes, at);
        let reached = bumped(line, newlines_in(bytes, at, end));
        if token_begins(bytes, at) {
            seq![Lexeme { text: bytes.subrange(at, end), line: reached }] + lexemes(
                bytes,
                end,
                reached,
            )
        } else {
            lexemes(bytes, end, reached)
        }
    } else {
        Seq::empty()
    }
}

/// The number of errors of the text from `at` on.
pub open spec fn error_count(bytes: Seq<u8>, at: int) -> nat
    decreases bytes.len() - at,
{
    if 0 <= at < bytes.len() && at < lexeme_end(bytes, at) <= bytes.len() {
        error_count(bytes, lexeme_end(bytes, at)) + (if error_begins(bytes, at) {
            1nat
        } else {
            0nat
        })
    } else {
        0
    }
}

/// The line that the scanner has reached behind all of the text from `at` on.
pub open spec fn last_line(bytes: Seq<u8>, at: int, line: u32) -> u32
    decreases bytes.len() - at,
{
    if 0 <= at < bytes.len() && at < lexeme_end(bytes, at) <= bytes.len() {
        let end = lexeme_end(bytes, at);
        last_line(bytes, end, bumped(line, newlines_in(bytes, at, end)))
    } else {
        line
    }
}

/// A token made of a lexeme: it is as the scanner makes tokens, and it has the text and
/// the line of the lexeme.
pub open spec fn made_of(token: Token, lexeme: Lexeme) -> bool {
    scanned(token) && encode_utf8(token.lexeme@) == lexeme.text && token.line == lexeme.line
}

/// The kind of a word: one of the keywords, or an identifier.
pub open spec fn word_kind(lexeme: Seq<u8>) -> TokenType {
    if lexeme == encode_utf8("and"@) {
        TokenType::And
    } else if lexeme == encode_utf8("class"@) {
        TokenType::Class
    } else if lexeme == encode_utf8("else"@) {
        TokenType::Else
    } else if lexeme == encode_utf8("false"@) {
        TokenType::False
    } else if lexeme == encode_utf8("true"@) {
        TokenType::True
    } else if lexeme == encode_utf8("funk"@) {
        TokenType::Funk
    } else if lexeme == encode_utf8("for"@) {
        TokenType::For
    } else if lexeme == encode_utf8("if"@) {
        TokenType::If
    } else if lexeme == encode_utf8("null"@) {
        TokenType::Null
    } else if lexeme == encode_utf8("or"@) {
        TokenType::Or
    } else if lexeme == encode_utf8("print"@) {
        TokenType::Print
    } else if lexeme == encode_utf8("return"@) {
        TokenType::Return
    } else if lexeme == encode_utf8("super"@) {
        TokenType::Super
    } else if lexeme == encode_utf8("this"@) {
        TokenType::This
    } else if lexeme == encode_utf8("var"@) {
        TokenType::Var
    } else if lexeme == encode_utf8("while"@) {
        TokenType::While
    } else {
        TokenType::Identifier
    }
}

/// The kind of the token that a run of bytes spells. The first byte decides between
/// punctuation, string, number and word; a punctuation mark of two bytes is told from its
/// first byte, its length and, for `+` and `-`, its second byte.
pub open spec fn token_kind(lexeme: Seq<u8>) -> TokenType {
    let first = lexeme[0];
    let double = lexeme.len() > 1;
    if first == LEFT_PAREN {
        TokenType::LeftParen
    } else if first == RIGHT_PAREN {
        TokenType::RightParen
    } else if first == LEFT_BRACE {
        TokenType::LeftBrace
    } else if first == RIGHT_BRACE {
        TokenType::RightBrace
    } else if first == LEFT_SQUARE {
        TokenType::LeftSquare
    } else if first == RIGHT_SQUARE {
        TokenType::RightSquare
    } else if first == COMMA {
        TokenType::Comma
    } else if first == DOT {
        TokenType::Dot
    } else if first == SEMICOLON {
        TokenType::Semicolon
    } else if first == PERCENT {
        TokenType::Modulo
    } else if first == MINUS {
        if !double {
            TokenType::Minus
        } else if lexeme[1] == MINUS {
            TokenType::MinusMinus
        } else {
            TokenType::MinusEqual
        }
    } else if first == PLUS {
        if !double {
            TokenType::Plus
        } else if lexeme[1] == PLUS {
            TokenType::PlusPlus
        } else {
            TokenType::PlusEqual
        }
    } else if first == STAR {
        if double {
            TokenType::StarEqual
        } else {
            TokenType::Star
        }
    } else if first == SLASH {
        if double {
            TokenType::SlashEqual
        } else {
            TokenType::Slash
        }
    } else if first == BANG {
        if double {
            TokenType::BangEqual
        } else {
            TokenType::Bang
        }
    } else if first == EQUAL {
        if double {
            TokenType::EqualEqual
        } else {
            TokenType::Equal
        }
    } else if first == LESS {
        if double {
            TokenType::LessEqual
        } else {
            TokenType::Less
        }
    } else if first == GREATER {
        if double {
            TokenType::GreaterEqual
        } else {
            TokenType::Greater
        }
    } else if first == QUOTE {
        TokenType::String
    } else if digit_byte(first) {
        TokenType::Number
    } else {
        word_kind(lexeme)
    }
}

/// A token as the scanner makes it: its text is not empty and spells its kind; a string
/// carries the text between its quotes, and every other token carries no literal.
pub open spec fn scanned(token: Token) -> bool {
    let lexeme = encode_utf8(token.lexeme@);
    &&& lexeme.len() > 0
    &&& token.token_type == token_kind(lexeme)
    &&& token.token_type != TokenType::Eof
    &&& match token.literal@ {
        Value::String(text) => token.token_type == TokenType::String && lexeme.len() >= 2
            && encode_utf8(text) == lexeme.subrange(1, lexeme.len() - 1),
        Value::Null => token.token_type != TokenType::String,
        _ => false,
    }
}

/// The token that marks the end of the text.
pub open spec fn ends(token: Token) -> bool {
    token.token_type == TokenType::Eof && token.lexeme@.len() == 0 && token.literal@ == Value::Null
}

/// The tokens stand on lines that do not go back.
pub open spec fn lines_ascend(tokens: Seq<Token>) -> bool {
    forall|i: int, j: int| 0 <= i <= j < tokens.len() ==> tokens[i].line <= tokens[j].line
}

/// The later list of errors starts with the earlier one.
pub open spec fn errors_extend(before: Seq<Error>, after: Seq<Error>) -> bool {
    before.len() <= after.len() && forall|i: int| 0 <= i < before.len() ==> after[i] == before[i]
}

/// The later list of tokens starts with the earlier one.
pub open spec fn tokens_extend(before: Seq<Token>, after: Seq<Token>) -> bool {
    before.len() <= after.len() && forall|i: int| 0 <= i < before.len() ==> after[i] == before[i]
}

/// A byte of the ASCII range.
pub open spec fn ascii_byte(c: u8) -> bool {
    c < 128
}

/// In well-formed UTF-8, a byte of the ASCII range is a character of its own: it stands
/// at a character boundary, and so does what follows it.
pub proof fn lemma_ascii_boundaries(bytes: Seq<u8>, at: int)
    requires
        valid_utf8(bytes),
        0 <= at < bytes.len(),
        ascii_byte(bytes[at]),
    ensures
        is_char_boundary(bytes, at),
        is_char_boundary(bytes, at + 1),
    decreases bytes.len(),
{
    is_char_boundary_iff_not_is_continuation_byte(bytes, at);
    reveal_with_fuel(is_char_boundary, 2);
    reveal_with_fuel(valid_utf8, 2);
    let tail = pop_first_scalar(bytes);
    let first = length_of_first_scalar(bytes);
    if at == 0 {
        assert(first == 1);
        assert(is_char_boundary(tail, 0));
    } else {
        assert(is_char_boundary(tail, at - first));
        assert(at - first >= 0);
        assert(tail[at - first] == bytes[at]);
        lemma_ascii_boundaries(tail, at - first);
        assert(is_char_boundary(tail, at + 1 - first));
    }
}

/// A character boundary of well-formed UTF-8 is a character boundary of what follows an
/// earlier one.
pub proof fn lemma_boundary_of_rest(bytes: Seq<u8>, start: int, end: int)
    requires
        valid_utf8(bytes),
        0 <= start <= end <= bytes.len(),
        is_char_boundary(bytes, start),
        is_char_boundary(bytes, end),
    ensures
        valid_utf8(bytes.subrange(start, bytes.len() as int)),
        is_char_boundary(bytes.subrange(start, bytes.len() as int), end - start),
{
    let rest = bytes.subrange(start, bytes.len() as int);
    valid_utf8_split(bytes, start);
    is_char_boundary_start_end_of_seq(rest);
    if end < bytes.len() {
        is_char_boundary_iff_not_is_continuation_byte(bytes, end);
        is_char_boundary_iff_not_is_continuation_byte(rest, end - start);
    }
}

/// Whether two runs of bytes are the same.
fn same_bytes(left: &[u8], right: &[u8]) -> (same: bool)
    ensures
        same == (left@ == right@),
{
    if left.len() != right.len() {
        return false;
    }
    let mut i: usize = 0;
    while i < left.len()
        invariant
            i <= left.len(),
            left.len() == right.len(),
            forall|j: int| 0 <= j < i ==> left@[j] == right@[j],
        decreases left.len() - i,
    {
        if left[i] != right[i] {
            return false;
        }
        i += 1;
    }
    assert(left@ =~= right@);
    true
}

/// Whether a byte is a decimal digit.
pub fn is_digit(c: u8) -> (r: bool)
    ensures
        r == digit_byte(c),
{
    DIGIT_ZERO <= c && c <= DIGIT_NINE
}

/// Whether a byte is a letter or the underscore.
pub fn is_alpha(c: u8) -> (r: bool)
    ensures
        r == alpha_byte(c),
{
    (LOWER_A <= c && c <= LOWER_Z) || (UPPER_A <= c && c <= UPPER_Z) || c == UNDERSCORE
}

/// Whether a byte is a letter, the underscore or a decimal digit.
pub fn is_alpha_numeric(c: u8) -> (r: bool)
    ensures
        r == (alpha_byte(c) || digit_byte(c)),
{
    is_alpha(c) || is_digit(c)
}

/// The kind of a word: one of the keywords, or an identifier.
pub fn get_identifier_type(text: &str) -> (kind: TokenType)
    ensures
        kind == word_kind(encode_utf8(text@)),
{
    let word = text.as_bytes();
    if same_bytes(word, "and".as_bytes()) {
        TokenType::And
    } else if same_bytes(word, "class".as_bytes()) {
        TokenType::Class
    } else if same_bytes(word, "else".as_bytes()) {
        TokenType::Else
    } else if same_bytes(word, "false".as_bytes()) {
        TokenType::False
    } else if same_bytes(word, "true".as_bytes()) {
        TokenType::True
    } else if same_bytes(word, "funk".as_bytes()) {
        TokenType::Funk
    } else if same_bytes(word, "for".as_bytes()) {
        TokenType::For
    } else if same_bytes(word, "if".as_bytes()) {
        TokenType::If
    } else if same_bytes(word, "null".as_bytes()) {
        TokenType::Null
    } else if same_bytes(word, "or".as_bytes()) {
        TokenType::Or
    } else if same_bytes(word, "print".as_bytes()) {
        TokenType::Print
    } else if same_bytes(word, "return".as_bytes()) {
        TokenType::Return
    } else if same_bytes(word, "super".as_bytes()) {
        TokenType::Super
    } else if same_bytes(word, "this".as_bytes()) {
        TokenType::This
    } else if same_bytes(word, "var".as_bytes()) {
        TokenType::Var
    } else if same_bytes(word, "while".as_bytes()) {
        TokenType::While
    } else {
        TokenType::Identifier
    }
}

impl Scanner {
    /// The bytes of the text.
    pub closed spec fn bytes(&self) -> Seq<u8> {
        encode_utf8(self.source@)
    }

    /// The tokens found so far.
    pub closed spec fn tokens(&self) -> Seq<Token> {
        self.tokens@
    }

    /// The errors found so far.
    pub closed spec fn errors(&self) -> Seq<Error> {
        self.errors@
    }

    /// Where the token in hand starts.
    pub closed spec fn start(&self) -> int {
        self.start as int
    }

    /// The next byte to read.
    pub closed spec fn current(&self) -> int {
        self.current as int
    }

    /// The line that the scanner has reached.
    pub closed spec fn line(&self) -> u32 {
        self.line
    }

    /// The place lies within the text; every token found so far is as the scanner makes
    /// tokens, and stands on a line that the scanner has reached; every error is an
    /// error of the text.
    pub open spec fn wf(&self) -> bool {
        &&& 0 <= self.start() <= self.current() <= self.bytes().len()
        &&& forall|i: int| 0 <= i < self.tokens().len() ==> scanned(#[trigger] self.tokens()[i])
        &&& forall|i: int|
            0 <= i < self.tokens().len() ==> (#[trigger] self.tokens()[i]).line <= self.line()
        &&& lines_ascend(self.tokens())
        &&& forall|i: int| 0 <= i < self.errors().len() ==> #[trigger] self.errors()[i] is SyntaxError
    }

    /// A scanner at the start of a text, on line 1.
    pub fn new(source: String) -> (scanner: Scanner)
        ensures
            scanner.wf(),
            scanner.bytes() == encode_utf8(source@),
            scanner.tokens().len() == 0,
            scanner.errors().len() == 0,
            scanner.start() == 0,
            scanner.current() == 0,
            scanner.line() == 1,
    {
        Scanner { source, tokens: Vec::new(), errors: Vec::new(), start: 0, current: 0, line: 1 }
    }

    /// Whether the whole text has been read.
    fn is_at_end(&self) -> (r: bool)
        requires
            self.wf(),
        ensures
            r == (self.current() >= self.bytes().len()),
    {
        self.current >= self.source.as_str().as_bytes().len()
    }

    /// The byte at a place of the text.
    fn byte(&self, at: usize) -> (c: u8)
        requires
            at < self.bytes().len(),
        ensures
            c == self.bytes()[at as int],
    {
        self.source.as_str().as_bytes()[at]
    }

    /// Reads the next byte.
    fn advance(&mut self) -> (c: u8)
        requires
            old(self).wf(),
            old(self).current() < old(self).bytes().len(),
        ensures
            final(self).wf(),
            c == old(self).bytes()[old(self).current()],
            final(self).current() == old(self).current() + 1,
            final(self).same_but_place(*old(self)),
    {
        let c = self.byte(self.current);
        let length = self.source.as_str().as_bytes().len();
        assert(self.current < length);
        self.current += 1;
        c
    }

    /// This scanner differs from `before` in the next byte to read at most.
    pub open spec fn same_but_place(&self, before: Scanner) -> bool {
        &&& self.bytes() == before.bytes()
        &&& self.tokens() == before.tokens()
        &&& self.errors() == before.errors()
        &&& self.start() == before.start()
        &&& self.line() == before.line()
    }

    /// The next byte, or zero at the end of the text.
    fn peek(&self) -> (c: u8)
        requires
            self.wf(),
        ensures
            c == (if self.current() < self.bytes().len() {
                self.bytes()[self.current()]
            } else {
                0u8
            }),
    {
        if self.is_at_end() {
            return 0;
        }
        self.byte(self.current)
    }

    /// The byte after the next, or zero where the text ends before it.
    fn peek_next(&self) -> (c: u8)
        requires
            self.wf(),
        ensures
            c == (if self.current() + 1 < self.bytes().len() {
                self.bytes()[self.current() + 1]
            } else {
                0u8
            }),
    {
        let length = self.source.as_str().as_bytes().len();
        if self.current >= length || self.current + 1 >= length {
            return 0;
        }
        self.byte(self.current + 1)
    }

    /// Reads the next byte if it is the expected one.
    fn match_char(&mut self, expected: u8) -> (matched: bool)
        requires
            old(self).wf(),
        ensures
            final(self).wf(),
            final(self).same_but_place(*old(self)),
            matched == (old(self).current() < old(self).bytes().len() && old(self).bytes()[old(self).current()] == expected),
            final(self).current() == old(self).current() + (if matched {
                1int
            } else {
                0int
            }),
    {
        if self.is_at_end() {
            return false;
        }
        if self.byte(self.current) != expected {
            return false;
        }
        let length = self.source.as_str().as_bytes().len();
        assert(self.current < length);
        self.current += 1;
        true
    }

    /// The text between two places that lie between characters.
    fn range_to_string(&self, start: usize, end: usize) -> (text: String)
        requires
            start <= end <= self.bytes().len(),
            is_char_boundary(self.bytes(), start as int),
            is_char_boundary(self.bytes(), end as int),
        ensures
            encode_utf8(text@) == self.bytes().subrange(start as int, end as int),
    {
        proof {
            encode_utf8_valid_utf8(self.source@);
            lemma_boundary_of_rest(self.bytes(), start as int, end as int);
        }
        let source = self.source.as_str();
        let (_, rest) = source.split_at(start);
        let (body, _) = rest.split_at(end - start);
        assert(body.spec_bytes() =~= self.bytes().subrange(start as int, end as int));
        body.to_owned()
    }

    /// The message of an error at a location of its line: the location, a colon and a
    /// blank, and what is wrong; without a location, what is wrong alone.
    pub open spec fn located(location: Seq<char>, message: Seq<char>) -> Seq<char> {
        if location.len() == 0 {
            message
        } else {
            location + ": "@ + message
        }
    }

    /// Notes an error of the text at a location of its line.
    pub fn report(&mut self, line: u32, location: &str, message: &str)
        requires
            old(self).wf(),
        ensures
            final(self).wf(),
            final(self).bytes() == old(self).bytes(),
            final(self).tokens() == old(self).tokens(),
            final(self).start() == old(self).start(),
            final(self).current() == old(self).current(),
            final(self).line() == old(self).line(),
            final(self).errors().len() == old(self).errors().len() + 1,
            final(self).errors().drop_last() == old(self).errors(),
            final(self).errors().last() matches Error::SyntaxError(l, m) && l == line && m@
                == Self::located(location@, message@),
    {
        let text = if location.unicode_len() == 0 {
            String::from_str(message)
        } else {
            String::from_str(location).concat(": ").concat(message)
        };
        self.errors.push(Error::SyntaxError(line, text));
        assert(self.errors().drop_last() =~= old(self).errors());
    }

    /// Notes an error of the text.
    pub fn error(&mut self, line: u32, message: &str)
        requires
            old(self).wf(),
        ensures
            final(self).wf(),
            final(self).bytes() == old(self).bytes(),
            final(self).tokens() == old(self).tokens(),
            final(self).start() == old(self).start(),
            final(self).current() == old(self).current(),
            final(self).line() == old(self).line(),
            final(self).errors().len() == old(self).errors().len() + 1,
            final(self).errors().drop_last() == old(self).errors(),
            final(self).errors().last() matches Error::SyntaxError(l, m) && l == line && m@
                == message@,
    {
        proof {
            reveal_strlit("");
        }
        self.report(line, "", message);
    }

    /// The kind of the token that a text spells; see [`token_kind`].
    pub fn kind_of(text: &str) -> (kind: TokenType)
        requires
            encode_utf8(text@).len() > 0,
        ensures
            kind == token_kind(encode_utf8(text@)),
    {
        let lexeme = text.as_bytes();
        let first = lexeme[0];
        let double = lexeme.len() > 1;
        if first == LEFT_PAREN {
            TokenType::LeftParen
        } else if first == RIGHT_PAREN {
            TokenType::RightParen
        } else if first == LEFT_BRACE {
            TokenType::LeftBrace
        } else if first == RIGHT_BRACE {
            TokenType::RightBrace
        } else if first == LEFT_SQUARE {
            TokenType::LeftSquare
        } else if first == RIGHT_SQUARE {
            TokenType::RightSquare
        } else if first == COMMA {
            TokenType::Comma
        } else if first == DOT {
            TokenType::Dot
        } else if first == SEMICOLON {
            TokenType::Semicolon
        } else if first == PERCENT {
            TokenType::Modulo
        } else if first == MINUS {
            if !double {
                TokenType::Minus
            } else if lexeme[1] == MINUS {
                TokenType::MinusMinus
            } else {
                TokenType::MinusEqual
            }
        } else if first == PLUS {
            if !double {
                TokenType::Plus
            } else if lexeme[1] == PLUS {
                TokenType::PlusPlus
            } else {
                TokenType::PlusEqual
            }
        } else if first == STAR {
            if double {
                TokenType::StarEqual
            } else {
                TokenType::Star
            }
        } else if first == SLASH {
            if double {
                TokenType::SlashEqual
            } else {
                TokenType::Slash
            }
        } else if first == BANG {
            if double {
                TokenType::BangEqual
            } else {
                TokenType::Bang
            }
        } else if first == EQUAL {
            if double {
                TokenType::EqualEqual
            } else {
                TokenType::Equal
            }
        } else if first == LESS {
            if double {
                TokenType::LessEqual
            } else {
                TokenType::Less
            }
        } else if first == GREATER {
            if double {
                TokenType::GreaterEqual
            } else {
                TokenType::Greater
            }
        } else if first == QUOTE {
            TokenType::String
        } else if is_digit(first) {
            TokenType::Number
        } else {
            get_identifier_type(text)
        }
    }

    /// Goes to the next line.
    fn next_line(&mut self)
        requires
            old(self).wf(),
        ensures
            final(self).wf(),
            final(self).same_but_line(*old(self)),
            final(self).line() == bumped(old(self).line(), 1),
    {
        if self.line < u32::MAX {
            self.line += 1;
        }
    }

    /// This scanner differs from `before` in the line it has reached at most.
    pub open spec fn same_but_line(&self, before: Scanner) -> bool {
        &&& self.bytes() == before.bytes()
        &&& self.tokens() == before.tokens()
        &&& self.errors() == before.errors()
        &&& self.start() == before.start()
        &&& self.current() == before.current()
    }

    /// The tokens are those of `before` and one more, made of the text of the program
    /// from the start of the token in hand to the place, on the line that the scanner has
    /// reached.
    pub open spec fn added(&self, before: Scanner) -> bool {
        &&& self.tokens().len() == before.tokens().len() + 1
        &&& tokens_extend(before.tokens(), self.tokens())
        &&& made_of(
            self.tokens().last(),
            Lexeme {
                text: self.bytes().subrange(self.start(), self.current()),
                line: self.line(),
            },
        )
    }

    /// The token in hand is done: it goes to the tokens, with the kind that its text
    /// spells. A string carries the text between its quotes.
    fn add_token(&mut self, is_string: bool)
        requires
            old(self).wf(),
            old(self).start() < old(self).current(),
            ascii_byte(old(self).bytes()[old(self).start()]),
            ascii_byte(old(self).bytes()[old(self).current() - 1]),
            is_string == (old(self).bytes()[old(self).start()] == QUOTE),
            is_string ==> old(self).current() >= old(self).start() + 2 && old(self).bytes()[old(self).current() - 1] == QUOTE,
        ensures
            final(self).wf(),
            final(self).bytes() == old(self).bytes(),
            final(self).errors() == old(self).errors(),
            final(self).start() == old(self).start(),
            final(self).current() == old(self).current(),
            final(self).line() == old(self).line(),
            final(self).added(*old(self)),
    {
        proof {
            encode_utf8_valid_utf8(self.source@);
            lemma_ascii_boundaries(self.bytes(), self.start());
            lemma_ascii_boundaries(self.bytes(), self.current() - 1);
        }
        let text = self.range_to_string(self.start, self.current);
        let literal = if is_string {
            LiteralType::String(self.range_to_string(self.start + 1, self.current - 1))
        } else {
            LiteralType::Null
        };
        let kind = Self::kind_of(text.as_str());
        let ghost lexeme = encode_utf8(text@);
        let token = Token::new(kind, text, literal, self.line);
        proof {
            assert(lexeme =~= self.bytes().subrange(self.start(), self.current()));
            assert(lexeme[0] == self.bytes()[self.start()]);
            if is_string {
                assert(self.bytes().subrange(self.start() + 1, self.current() - 1)
                    =~= lexeme.subrange(1, lexeme.len() - 1));
            }
            assert(scanned(token));
        }
        self.tokens.push(token);
        proof {
            assert forall|i: int| 0 <= i < self.tokens().len() implies scanned(
                #[trigger] self.tokens()[i],
            ) by {
                if i < old(self).tokens().len() {
                    assert(self.tokens()[i] == old(self).tokens()[i]);
                }
            }
            assert forall|i: int, j: int|
                0 <= i <= j < self.tokens().len() implies self.tokens()[i].line
                <= self.tokens()[j].line by {
                if j < old(self).tokens().len() {
                    assert(self.tokens()[i] == old(self).tokens()[i]);
                    assert(self.tokens()[j] == old(self).tokens()[j]);
                } else if i < old(self).tokens().len() {
                    assert(self.tokens()[i] == old(self).tokens()[i]);
                }
            }
            assert forall|i: int| 0 <= i < self.tokens().len() implies (
            #[trigger] self.tokens()[i]).line <= self.line() by {
                if i < old(self).tokens().len() {
                    assert(self.tokens()[i] == old(self).tokens()[i]);
                }
            }
        }
    }

    /// This scanner is `before` after the text from the start of the token in hand to
    /// the place has been read: the line has moved on by the line ends read, and nothing
    /// else has changed.
    pub open spec fn read_on(&self, before: Scanner) -> bool {
        &&& self.wf()
        &&& self.bytes() == before.bytes()
        &&& self.tokens() == before.tokens()
        &&& self.errors() == before.errors()
        &&& self.start() == before.start()
        &&& self.current() >= before.current()
        &&& self.line() == bumped(
            before.line(),
            newlines_in(self.bytes(), before.current(), self.current()),
        )
    }

    /// What one token, blank, comment or error does to the scanner `before`, whose place
    /// is where it begins: the place is behind it, the line has moved on by the line ends
    /// in it, a token is added where one begins, and an error where one begins.
    pub open spec fn scanned_one(&self, before: Scanner) -> bool {
        let at = before.current();
        &&& self.bytes() == before.bytes()
        &&& self.start() == at
        &&& self.current() == lexeme_end(self.bytes(), at)
        &&& at < self.current() <= self.bytes().len()
        &&& self.line() == bumped(before.line(), newlines_in(self.bytes(), at, self.current()))
        &&& if token_begins(self.bytes(), at) {
            self.added(before)
        } else {
            self.tokens() == before.tokens()
        }
        &&& errors_extend(before.errors(), self.errors())
        &&& self.errors().len() == before.errors().len() + (if error_begins(self.bytes(), at) {
            1int
        } else {
            0int
        })
    }

    /// Reads a string, whose opening quote has been read: everything up to the closing
    /// quote, over line ends. A string that the text ends in is an error.
    fn string(&mut self)
        requires
            old(self).wf(),
            old(self).current() == old(self).start() + 1,
            old(self).bytes()[old(self).start()] == QUOTE,
        ensures
            final(self).wf(),
            final(self).bytes() == old(self).bytes(),
            final(self).start() == old(self).start(),
            final(self).current() == lexeme_end(old(self).bytes(), old(self).start()),
            final(self).line() == bumped(
                old(self).line(),
                newlines_in(old(self).bytes(), old(self).start(), final(self).current()),
            ),
            if token_begins(old(self).bytes(), old(self).start()) {
                final(self).added(*old(self)) && final(self).errors() == old(self).errors()
            } else {
                final(self).tokens() == old(self).tokens() && errors_extend(
                    old(self).errors(),
                    final(self).errors(),
                ) && final(self).errors().len() == old(self).errors().len() + 1
            },
    {
        while self.peek() != QUOTE && !self.is_at_end()
            invariant
                self.read_on(*old(self)),
                quote_at(self.bytes(), old(self).start() + 1) == quote_at(
                    self.bytes(),
                    self.current(),
                ),
            decreases self.bytes().len() - self.current(),
        {
            let ghost reached = self.line();
            let ghost read = newlines_in(self.bytes(), old(self).current(), self.current());
            if self.peek() == NEWLINE {
                self.next_line();
            }
            let _ = self.advance();
            proof {
                lemma_bumped_twice(old(self).line(), read, 1);
            }
        }
        proof {
            let start = old(self).start();
            assert(newlines_in(self.bytes(), start, start + 1) == 0) by {
                assert(newlines_in(self.bytes(), start, start) == 0);
            }
            lemma_newlines_split(self.bytes(), start, start + 1, self.current());
        }
        if self.is_at_end() {
            self.error(self.line, "Unterminated string.");
            return ;
        }
        // The closing quote.
        let ghost inner = self.current();
        let _ = self.advance();
        proof {
            lemma_newlines_split(self.bytes(), old(self).start(), inner, inner + 1);
            assert(newlines_in(self.bytes(), inner, inner + 1) == 0) by {
                assert(newlines_in(self.bytes(), inner, inner) == 0);
            }
        }
        self.add_token(true);
    }

    /// Reads a number, whose first digit has been read: digits, and a decimal point with
    /// digits after it.
    fn number(&mut self)
        requires
            old(self).wf(),
            old(self).current() == old(self).start() + 1,
            digit_byte(old(self).bytes()[old(self).start()]),
        ensures
            final(self).wf(),
            final(self).bytes() == old(self).bytes(),
            final(self).start() == old(self).start(),
            final(self).current() == number_end(old(self).bytes(), old(self).start()),
            final(self).line() == old(self).line(),
            newlines_in(old(self).bytes(), old(self).current(), final(self).current()) == 0,
            final(self).errors() == old(self).errors(),
            final(self).added(*old(self)),
    {
        while is_digit(self.peek())
            invariant
                self.read_on(*old(self)),
                self.line() == old(self).line(),
                newlines_in(self.bytes(), old(self).current(), self.current()) == 0,
                ascii_byte(self.bytes()[self.current() - 1]),
                digits_end(self.bytes(), old(self).start() + 1) == digits_end(
                    self.bytes(),
                    self.current(),
                ),
            decreases self.bytes().len() - self.current(),
        {
            let _ = self.advance();
        }
        let ghost whole = self.current();
        if self.peek() == DOT && is_digit(self.peek_next()) {
            let _ = self.advance();
            while is_digit(self.peek())
                invariant
                    self.read_on(*old(self)),
                    self.line() == old(self).line(),
                    newlines_in(self.bytes(), old(self).current(), self.current()) == 0,
                    ascii_byte(self.bytes()[self.current() - 1]),
                    self.current() >= whole + 1,
                    digits_end(self.bytes(), whole + 1) == digits_end(
                        self.bytes(),
                        self.current(),
                    ),
                decreases self.bytes().len() - self.current(),
            {
                let _ = self.advance();
            }
        }
        self.add_token(false);
    }

    /// Reads a word, whose first byte has been read: letters, underscores and digits.
    fn identifier(&mut self)
        requires
            old(self).wf(),
            old(self).current() == old(self).start() + 1,
            alpha_byte(old(self).bytes()[old(self).start()]),
        ensures
            final(self).wf(),
            final(self).bytes() == old(self).bytes(),
            final(self).start() == old(self).start(),
            final(self).current() == word_end(old(self).bytes(), old(self).start() + 1),
            final(self).line() == old(self).line(),
            newlines_in(old(self).bytes(), old(self).current(), final(self).current()) == 0,
            final(self).errors() == old(self).errors(),
            final(self).added(*old(self)),
    {
        while is_alpha_numeric(self.peek())
            invariant
                self.read_on(*old(self)),
                self.line() == old(self).line(),
                newlines_in(self.bytes(), old(self).current(), self.current()) == 0,
                ascii_byte(self.bytes()[self.current() - 1]),
                word_end(self.bytes(), old(self).start() + 1) == word_end(
                    self.bytes(),
                    self.current(),
                ),
            decreases self.bytes().len() - self.current(),
        {
            let _ = self.advance();
        }
        self.add_token(false);
    }

    /// Reads one token, or the blank, comment or error in its place; see
    /// [`Scanner::scanned_one`].
    pub fn scan_token(&mut self)
        requires
            old(self).wf(),
            old(self).current() < old(self).bytes().len(),
        ensures
            final(self).wf(),
            final(self).scanned_one(*old(self)),
    {
        self.start = self.current;
        let ghost begun = *self;
        let c = self.advance();
        let ghost at = begun.current();
        proof {
            assert(newlines_in(self.bytes(), at, at) == 0);
            assert(newlines_in(self.bytes(), at, at + 1) == (if c == NEWLINE {
                1nat
            } else {
                0nat
            }));
            if at + 2 <= self.bytes().len() {
                assert(newlines_in(self.bytes(), at, at + 2) == newlines_in(
                    self.bytes(),
                    at,
                    at + 1,
                ) + (if self.bytes()[at + 1] == NEWLINE {
                    1nat
                } else {
                    0nat
                }));
            }
        }
        if c == LEFT_PAREN || c == RIGHT_PAREN || c == LEFT_BRACE || c == RIGHT_BRACE || c
            == LEFT_SQUARE || c == RIGHT_SQUARE || c == COMMA || c == DOT || c == SEMICOLON || c
            == PERCENT {
            self.add_token(false);
        } else if c == MINUS {
            if !self.match_char(MINUS) {
                let _ = self.match_char(EQUAL);
            }
            self.add_token(false);
        } else if c == PLUS {
            if !self.match_char(PLUS) {
                let _ = self.match_char(EQUAL);
            }
            self.add_token(false);
        } else if c == STAR || c == BANG || c == EQUAL || c == LESS || c == GREATER {
            let _ = self.match_char(EQUAL);
            self.add_token(false);
        } else if c == SLASH {
            if self.match_char(SLASH) {
                // A comment goes until the end of the line.
                while self.peek() != NEWLINE && !self.is_at_end()
                    invariant
                        self.wf(),
                        self.bytes() == begun.bytes(),
                        self.tokens() == begun.tokens(),
                        self.errors() == begun.errors(),
                        self.start() == begun.start(),
                        self.line() == begun.line(),
                        newlines_in(self.bytes(), begun.current(), self.current()) == 0,
                        self.current() >= begun.current() + 2,
                        line_end(self.bytes(), begun.current() + 2) == line_end(
                            self.bytes(),
                            self.current(),
                        ),
                    decreases self.bytes().len() - self.current(),
                {
                    let _ = self.advance();
                }
            } else {
                let _ = self.match_char(EQUAL);
                self.add_token(false);
            }
        } else if c == SPACE || c == CARRIAGE_RETURN || c == TAB {
        } else if c == NEWLINE {
            self.next_line();
        } else if c == QUOTE {
            self.string();
        } else if is_digit(c) {
            self.number();
            proof {
                lemma_newlines_split(self.bytes(), at, at + 1, self.current());
            }
        } else if is_alpha(c) {
            self.identifier();
            proof {
                lemma_newlines_split(self.bytes(), at, at + 1, self.current());
            }
        } else {
            self.error(self.line, "Unexpected character.");
        }
    }

    /// What reading the text to its end does to the scanner `before`: the tokens of the
    /// rest of the text are added in order, each made of its lexeme, and after them the
    /// token that marks the end of the text, on the line that the scanner has reached;
    /// for every error of the rest of the text, one error is added.
    pub open spec fn scanned_all(&self, before: Scanner) -> bool {
        let found = lexemes(before.bytes(), before.current(), before.line());
        &&& self.bytes() == before.bytes()
        &&& self.current() >= self.bytes().len()
        &&& self.tokens().len() == before.tokens().len() + found.len() + 1
        &&& tokens_extend(before.tokens(), self.tokens())
        &&& forall|k: int|
            0 <= k < found.len() ==> made_of(
                #[trigger] self.tokens()[before.tokens().len() + k],
                found[k],
            )
        &&& ends(self.tokens().last())
        &&& self.tokens().last().line == last_line(
            before.bytes(),
            before.current(),
            before.line(),
        )
        &&& errors_extend(before.errors(), self.errors())
        &&& self.errors().len() == before.errors().len() + error_count(
            before.bytes(),
            before.current(),
        )
    }

    /// Reads the text to its end; see [`Scanner::scanned_all`].
    pub fn scan_tokens(&mut self)
        requires
            old(self).wf(),
        ensures
            final(self).wf_ended(),
            final(self).scanned_all(*old(self)),
            lines_ascend(final(self).tokens()),
    {
        let ghost bytes = self.bytes();
        let ghost first = self.current();
        let ghost line = self.line();
        let ghost count = self.tokens().len();
        let ghost done: Seq<Lexeme> = Seq::empty();
        assert(lexemes(bytes, first, line) =~= done + lexemes(bytes, first, line));
        while !self.is_at_end()
            invariant
                self.wf(),
                self.bytes() == bytes,
                bytes == old(self).bytes(),
                first == old(self).current(),
                line == old(self).line(),
                count == old(self).tokens().len(),
                tokens_extend(old(self).tokens(), self.tokens()),
                self.tokens().len() == count + done.len(),
                forall|k: int|
                    0 <= k < done.len() ==> made_of(#[trigger] self.tokens()[count + k], done[k]),
                lexemes(bytes, first, line) == done + lexemes(bytes, self.current(), self.line()),
                last_line(bytes, first, line) == last_line(bytes, self.current(), self.line()),
                errors_extend(old(self).errors(), self.errors()),
                self.errors().len() + error_count(bytes, self.current()) == old(self).errors().len() + error_count(bytes, first),
            decreases self.bytes().len() - self.current(),
        {
            let ghost before = *self;
            self.scan_token();
            proof {
                let at = before.current();
                let rest = lexemes(bytes, self.current(), self.line());
                if token_begins(bytes, at) {
                    let lexeme = Lexeme {
                        text: bytes.subrange(at, self.current()),
                        line: self.line(),
                    };
                    assert(lexemes(bytes, at, before.line()) == seq![lexeme] + rest);
                    assert(done + (seq![lexeme] + rest) =~= done.push(lexeme) + rest);
                    assert forall|k: int| 0 <= k < done.push(lexeme).len() implies made_of(
                        #[trigger] self.tokens()[count + k],
                        done.push(lexeme)[k],
                    ) by {
                        if k < done.len() {
                            assert(self.tokens()[count + k] == before.tokens()[count + k]);
                        }
                    }
                    done = done.push(lexeme);
                } else {
                    assert(lexemes(bytes, at, before.line()) == rest);
                }
                assert forall|i: int| 0 <= i < old(self).tokens().len() implies self.tokens()[i]
                    == old(self).tokens()[i] by {
                    assert(self.tokens()[i] == before.tokens()[i]);
                }
                assert forall|i: int| 0 <= i < old(self).errors().len() implies self.errors()[i]
                    == old(self).errors()[i] by {
                    assert(self.errors()[i] == before.errors()[i]);
                }
            }
        }
        let ghost scanned_all = *self;
        let end = Token::new(TokenType::Eof, String::new(), LiteralType::Null, self.line);
        self.tokens.push(end);
        proof {
            assert(done + lexemes(bytes, scanned_all.current(), scanned_all.line()) =~= done);
            assert forall|i: int| 0 <= i < old(self).tokens().len() implies self.tokens()[i]
                == old(self).tokens()[i] by {
                assert(self.tokens()[i] == scanned_all.tokens()[i]);
            }
            assert forall|k: int| 0 <= k < done.len() implies made_of(
                #[trigger] self.tokens()[count + k],
                done[k],
            ) by {
                assert(self.tokens()[count + k] == scanned_all.tokens()[count + k]);
            }
            assert forall|i: int, j: int|
                0 <= i <= j < self.tokens().len() implies self.tokens()[i].line
                <= self.tokens()[j].line by {
                if j < scanned_all.tokens().len() {
                    assert(self.tokens()[i] == scanned_all.tokens()[i]);
                    assert(self.tokens()[j] == scanned_all.tokens()[j]);
                } else if i < scanned_all.tokens().len() {
                    assert(self.tokens()[i] == scanned_all.tokens()[i]);
                }
            }
        }
    }

    /// The place lies within the text, and every error is an error of the text.
    pub open spec fn wf_ended(&self) -> bool {
        &&& 0 <= self.start() <= self.current() <= self.bytes().len()
        &&& forall|i: int| 0 <= i < self.errors().len() ==> #[trigger] self.errors()[i] is SyntaxError
    }
}

} // verus!
