//! Builds the syntax tree of a program from its tokens, by recursive descent.
//!
//! A declaration declares a class, a function or a variable; every other statement
//! declares nothing. Declarations stand in sequences only: the branch of an `if` and the
//! body of a `while` are statements that declare nothing, so that what is parsed here is
//! structured as [`stmt_structured`] says. A statement ends with a semicolon, at the end
//! of its line, or before a closing brace. Every tree that is built spells the tokens it
//! was built from, as [`stmt_spelled`] and [`expr_spelled`] say, and every part of the
//! grammar is found exactly where [`crate::recognizer`] says that it stands.

use vstd::prelude::*;
use vstd::string::*;
use crate::error_handler::Error;
use crate::grammar::{
    ONE, between, block_spelled, ended, expr_spelled, function_spelled, kind_at,
    lemma_block_spelled_prefix, lemma_list_spelled_prefix, lemma_methods_spelled_prefix,
    list_spelled, loop_spelled, methods_spelled, params_end, params_spelled, same_token,
    stmt_spelled, token_at,
};
use crate::expressions::{
    Array, Assign, AssignIndex, Binary, Call, Expr, Get, Grouping, Index, Literal, Logical,
    SetExpr, Super, This, Unary, Variable,
};
use crate::recognizer::{
    AND, COMPARISON, EQUALITY, FACTOR, OR, TERM, accepted, assignment_end, binary_end,
    binary_rest, operand_end,
    block_end, call_end, call_rest, class_end, closed_expression, declaration_end,
    expression_end, for_end, function_end, if_end, list_end, list_rest, methods_end,
    params_close, params_rest, primary_end, reaches, return_end, statement_closed,
    statement_end, target_of, unary_end, variable_end, while_end,
};
use crate::safety::{block_structured, simple, stmt_structured};
use crate::statements::{Block, Class, Expression, Function, If, Print, Return, Stmt, While};
use crate::token::{LiteralType, Token, TokenType, Value};

verus! {

/// The kind of statement that a token begins: a keyword begins its statement, an opening
/// brace begins a block, `for` begins the block that the loop is written as, and every
/// other token begins an expression statement.
pub open spec fn begins(kind: TokenType, stmt: Stmt) -> bool {
    match kind {
        TokenType::Class => stmt is Class,
        TokenType::Funk => stmt is Function,
        TokenType::Var => stmt is Variable,
        TokenType::If => stmt is If,
        TokenType::While => stmt is While,
        TokenType::For => stmt is Block,
        TokenType::Print => stmt is Print,
        TokenType::Return => stmt is Return,
        TokenType::LeftBrace => stmt is Block,
        _ => stmt is Expression,
    }
}

/// Whether a token of this kind can begin an expression.
pub open spec fn starts_expression(kind: TokenType) -> bool {
    kind == TokenType::False || kind == TokenType::True || kind == TokenType::Null || kind
        == TokenType::Number || kind == TokenType::String || kind == TokenType::This || kind
        == TokenType::Super || kind == TokenType::Identifier || kind == TokenType::LeftParen
        || kind == TokenType::LeftSquare || kind == TokenType::Bang || kind == TokenType::Minus
}

/// The parser: the tokens, the place it has reached in them, and the errors found so far.
#[derive(Debug)]
pub struct Parser {
    tokens: Vec<Token>,
    current: usize,
    pub errors: Vec<Error>,
}

impl Parser {
    /// The tokens.
    pub closed spec fn tokens(&self) -> Seq<Token> {
        self.tokens@
    }

    /// The place of the next token.
    pub closed spec fn current(&self) -> int {
        self.current as int
    }

    /// The errors found so far.
    pub closed spec fn errors(&self) -> Seq<Error> {
        self.errors@
    }

    /// The place lies within the tokens or at their end, and every error is an error of
    /// parsing.
    pub open spec fn wf(&self) -> bool {
        &&& 0 <= self.current() <= self.tokens().len()
        &&& forall|i: int| 0 <= i < self.errors().len() ==> #[trigger] self.errors()[i] is ParseError
    }

    /// Whether the place is at the end of the tokens: behind the last, or at the token
    /// that marks the end of the text.
    pub open spec fn at_end(&self) -> bool {
        self.current() >= self.tokens().len() || self.tokens()[self.current()].token_type
            == TokenType::Eof
    }

    /// The number of tokens from the place on.
    pub open spec fn remaining(&self) -> nat {
        (self.tokens().len() - self.current()) as nat
    }

    /// Whether the next token can begin an expression.
    pub open spec fn expression_starts(&self) -> bool {
        !self.at_end() && starts_expression(self.tokens()[self.current()].token_type)
    }

    /// Whether the next token is of the given kind.
    pub open spec fn next_is(&self, kind: TokenType) -> bool {
        !self.at_end() && self.tokens()[self.current()].token_type == kind
    }

    /// Whether a token is a copy of the one that the parser faces: the next token; behind
    /// the last token, the last one; and with no tokens at all, a token that marks the end
    /// of an empty text on its first line.
    pub open spec fn faces(&self, token: Token) -> bool {
        if self.current() < self.tokens().len() {
            same_token(token, self.tokens()[self.current()])
        } else if self.tokens().len() > 0 {
            same_token(token, self.tokens().last())
        } else {
            token.token_type == TokenType::Eof && token.lexeme@ == Seq::<char>::empty()
                && token.literal@ == Value::Null && token.line == 1
        }
    }

    /// This parser is `before` after some tokens have been taken.
    pub open spec fn moved(&self, before: Parser) -> bool {
        &&& self.wf()
        &&& self.tokens() == before.tokens()
        &&& self.errors() == before.errors()
        &&& self.current() >= before.current()
    }

    /// This parser is `before` after at least one token has been taken.
    pub open spec fn consumed(&self, before: Parser) -> bool {
        self.moved(before) && self.current() > before.current()
    }

    /// A parser at the first of the tokens.
    pub fn new(tokens: Vec<Token>) -> (parser: Self)
        ensures
            parser.wf(),
            parser.tokens() == tokens@,
            parser.current() == 0,
            parser.errors().len() == 0,
    {
        Self { tokens, current: 0, errors: Vec::new() }
    }

    /// Whether the place is at the end of the tokens.
    fn is_at_end(&self) -> (r: bool)
        requires
            self.wf(),
        ensures
            r == self.at_end(),
    {
        self.current >= self.tokens.len() || self.tokens[self.current].token_type
            == TokenType::Eof
    }

    /// Whether the next token is of the given kind.
    fn check(&self, kind: TokenType) -> (r: bool)
        requires
            self.wf(),
        ensures
            r == (!self.at_end() && self.tokens()[self.current()].token_type == kind),
    {
        !self.is_at_end() && self.tokens[self.current].token_type == kind
    }

    /// Takes the next token, unless the place is at the end.
    fn advance(&mut self)
        requires
            old(self).wf(),
        ensures
            final(self).moved(*old(self)),
            final(self).current() == old(self).current() + (if old(self).at_end() {
                0int
            } else {
                1int
            }),
    {
        if !self.is_at_end() {
            assert(self.current < self.tokens.len());
            self.current += 1;
        }
    }

    /// Takes the next token if it is of the given kind.
    fn match_token(&mut self, kind: TokenType) -> (matched: bool)
        requires
            old(self).wf(),
        ensures
            final(self).moved(*old(self)),
            matched == (!old(self).at_end() && old(self).tokens()[old(self).current()].token_type
                == kind),
            final(self).current() == old(self).current() + (if matched {
                1int
            } else {
                0int
            }),
    {
        if self.check(kind) {
            assert(self.current < self.tokens.len());
            self.current += 1;
            true
        } else {
            false
        }
    }

    /// A copy of the next token; at the end of the tokens, a token that marks the end.
    fn peek(&self) -> (token: Token)
        requires
            self.wf(),
        ensures
            self.faces(token),
    {
        if self.current < self.tokens.len() {
            self.tokens[self.current].duplicate()
        } else if self.tokens.len() > 0 {
            self.tokens[self.tokens.len() - 1].duplicate()
        } else {
            Token::new(TokenType::Eof, String::new(), LiteralType::Null, 1)
        }
    }

    /// A copy of the token taken last.
    fn previous(&self) -> (token: Token)
        requires
            self.wf(),
        ensures
            self.current() > 0 ==> same_token(token, self.tokens()[self.current() - 1]),
            self.current() == 0 ==> self.faces(token),
    {
        if self.current > 0 {
            self.tokens[self.current - 1].duplicate()
        } else {
            self.peek()
        }
    }

    /// The line of the token taken last.
    fn previous_line(&self) -> (line: u32)
        requires
            self.wf(),
        ensures
            self.current() > 0 ==> line == self.tokens()[self.current() - 1].line,
    {
        if self.current > 0 {
            self.tokens[self.current - 1].line
        } else {
            0
        }
    }

    /// The line of the next token.
    fn next_line(&self) -> (line: u32)
        requires
            self.wf(),
        ensures
            self.current() < self.tokens().len() ==> line == self.tokens()[self.current()].line,
    {
        if self.current < self.tokens.len() {
            self.tokens[self.current].line
        } else {
            u32::MAX
        }
    }

    /// An error at the token that the parser faces.
    fn error_here(&self, message: &str) -> (error: Error)
        requires
            self.wf(),
        ensures
            error matches Error::ParseError(token, text) && text@ == message@ && self.faces(token),
    {
        Error::ParseError(self.peek(), String::from_str(message))
    }

    /// Takes the next token, which must be of the given kind.
    fn consume(&mut self, kind: TokenType, message: &str) -> (result: Result<Token, Error>)
        requires
            old(self).wf(),
        ensures
            final(self).moved(*old(self)),
            result is Ok <==> old(self).next_is(kind),
            match result {
                Ok(token) => final(self).current() == old(self).current() + 1 && token.token_type
                    == kind && same_token(token, old(self).tokens()[old(self).current()]),
                Err(error) => final(self).current() == old(self).current() && (
                error matches Error::ParseError(token, text) && text@ == message@ && old(self).faces(token)),
            },
    {
        if self.check(kind) {
            assert(self.current < self.tokens.len());
            self.current += 1;
            Ok(self.previous())
        } else {
            Err(self.error_here(message))
        }
    }

    /// Parses the statements of a program. Where a statement does not parse, the error
    /// is kept and parsing goes on where the next statement begins. What is parsed is
    /// structured. No error is found exactly where the tokens are declarations and
    /// statements up to their end, as [`accepted`] says; the statements then spell the
    /// tokens that were taken, one behind the other.
    pub fn parse(&mut self) -> (statements: Vec<Stmt>)
        requires
            old(self).wf(),
        ensures
            final(self).wf(),
            final(self).tokens() == old(self).tokens(),
            final(self).at_end(),
            old(self).errors().len() <= final(self).errors().len(),
            block_structured(statements@),
            !old(self).at_end() ==> statements@.len() + final(self).errors().len() > old(self).errors().len(),
            statements@.len() <= final(self).current() - old(self).current(),
            final(self).errors().len() == old(self).errors().len() <==> accepted(
                old(self).tokens(),
                old(self).current(),
            ),
            final(self).errors().len() == old(self).errors().len() ==> block_spelled(
                statements@,
                statements@.len() as int,
                old(self).tokens(),
                old(self).current(),
                final(self).current(),
            ),
    {
        let mut statements: Vec<Stmt> = Vec::new();
        while !self.is_at_end()
            invariant
                self.wf(),
                self.tokens() == old(self).tokens(),
                old(self).errors().len() <= self.errors().len(),
                block_structured(statements@),
                self.current() >= old(self).current(),
                self.current() > old(self).current() ==> statements@.len() + self.errors().len()
                    > old(self).errors().len(),
                statements@.len() <= self.current() - old(self).current(),
                self.errors().len() == old(self).errors().len() ==> block_spelled(
                    statements@,
                    statements@.len() as int,
                    self.tokens(),
                    old(self).current(),
                    self.current(),
                ),
                if self.errors().len() == old(self).errors().len() {
                    accepted(self.tokens(), self.current()) == accepted(
                        old(self).tokens(),
                        old(self).current(),
                    )
                } else {
                    !accepted(old(self).tokens(), old(self).current())
                },
            decreases self.remaining(),
        {
            let ghost before = *self;
            let ghost parsed = statements@;
            match self.declaration() {
                Ok(stmt) => {
                    statements.push(stmt);
                    proof {
                        assert(between(old(self).current(), before.current(), self.current()));
                        lemma_block_spelled_prefix(
                            parsed,
                            statements@,
                            parsed.len() as int,
                            self.tokens(),
                            old(self).current(),
                            before.current(),
                        );
                    }
                    assert forall|i: int| 0 <= i < statements@.len() implies stmt_structured(
                        #[trigger] statements@[i],
                    ) by {
                        if i < parsed.len() {
                            assert(statements@[i] == parsed[i]);
                        }
                    }
                },
                Err(error) => {
                    self.errors.push(error);
                    self.synchronize(Ghost(before.current()));
                },
            }
        }
        statements
    }

    /// After an error, skips to where the next statement begins: behind the next
    /// semicolon, or at the next keyword that begins a statement.
    fn synchronize(&mut self, Ghost(from): Ghost<int>)
        requires
            old(self).wf(),
            from <= old(self).current(),
            from < old(self).tokens().len(),
            !(from == old(self).current() && old(self).at_end()),
        ensures
            final(self).wf(),
            final(self).tokens() == old(self).tokens(),
            final(self).errors() == old(self).errors(),
            final(self).current() > from,
    {
        if self.current < self.tokens.len() && !self.is_at_end() {
            self.current += 1;
        } else if self.current < self.tokens.len() {
            return ;
        }
        while !self.is_at_end()
            invariant
                self.wf(),
                self.tokens() == old(self).tokens(),
                self.errors() == old(self).errors(),
                self.current() > from,
            decreases self.remaining(),
        {
            if self.current > 0 && self.tokens[self.current - 1].token_type
                == TokenType::Semicolon {
                return ;
            }
            let kind = self.tokens[self.current].token_type;
            if kind == TokenType::Class || kind == TokenType::Funk || kind == TokenType::Var
                || kind == TokenType::For || kind == TokenType::If || kind == TokenType::While
                || kind == TokenType::Print || kind == TokenType::Return {
                return ;
            }
            assert(self.current < self.tokens.len());
            self.current += 1;
        }
    }

    /// Parses a declaration, or a statement that declares nothing.
    fn declaration(&mut self) -> (result: Result<Stmt, Error>)
        requires
            old(self).wf(),
        ensures
            final(self).moved(*old(self)),
            result matches Ok(stmt) ==> final(self).consumed(*old(self)) && stmt_structured(stmt)
                && begins(old(self).tokens()[old(self).current()].token_type, stmt),
            result matches Ok(stmt) ==> stmt_spelled(
                stmt,
                old(self).tokens(),
                old(self).current(),
                final(self).current(),
            ),
            result is Ok <==> declaration_end(old(self).tokens(), old(self).current()) is Some,
            result is Ok ==> declaration_end(old(self).tokens(), old(self).current())
                == Some(final(self).current()),
            result matches Err(error) ==> error is ParseError,
        decreases old(self).remaining(), 20nat,
    {
        if self.match_token(TokenType::Class) {
            return self.class_declaration();
        }
        if self.match_token(TokenType::Funk) {
            return match self.function() {
                Ok(function) => Ok(Stmt::Function(function)),
                Err(error) => Err(error),
            };
        }
        if self.match_token(TokenType::Var) {
            return self.variable_declaration();
        }
        self.statement()
    }

    /// Parses a class, whose keyword has been taken: its name and its methods in braces.
    fn class_declaration(&mut self) -> (result: Result<Stmt, Error>)
        requires
            old(self).wf(),
            kind_at(old(self).tokens(), old(self).current() - 1, TokenType::Class),
        ensures
            final(self).moved(*old(self)),
            result matches Ok(stmt) ==> final(self).consumed(*old(self)) && stmt_structured(stmt),
            result matches Ok(stmt) ==> stmt is Class,
            result matches Ok(stmt) ==> stmt_spelled(
                stmt,
                old(self).tokens(),
                old(self).current() - 1,
                final(self).current(),
            ),
            result is Ok <==> class_end(old(self).tokens(), old(self).current()) is Some,
            result is Ok ==> class_end(old(self).tokens(), old(self).current())
                == Some(final(self).current()),
            result matches Err(error) ==> error is ParseError,
        decreases old(self).remaining(), 18nat,
    {
        let name = self.consume(TokenType::Identifier, "Expected class name.")?;
        let _ = self.consume(TokenType::LeftBrace, "Expected '{' before class body.")?;
        let mut methods: Vec<Function> = Vec::new();
        while !self.check(TokenType::RightBrace) && !self.is_at_end()
            invariant
                self.consumed(*old(self)),
                forall|i: int|
                    0 <= i < methods@.len() ==> block_structured((#[trigger] methods@[i]).body@),
                methods_spelled(
                    methods@,
                    methods@.len() as int,
                    self.tokens(),
                    old(self).current() + 2,
                    self.current(),
                ),
                methods_end(self.tokens(), self.current()) == methods_end(
                    old(self).tokens(),
                    old(self).current() + 2,
                ),
            decreases self.remaining(),
        {
            let ghost parsed = methods@;
            let ghost at = self.current();
            let method = self.function()?;
            methods.push(method);
            proof {
                assert(between(old(self).current() + 2, at, self.current()));
                lemma_methods_spelled_prefix(
                    parsed,
                    methods@,
                    parsed.len() as int,
                    self.tokens(),
                    old(self).current() + 2,
                    at,
                );
            }
            assert forall|i: int| 0 <= i < methods@.len() implies block_structured(
                (#[trigger] methods@[i]).body@,
            ) by {
                if i < parsed.len() {
                    assert(methods@[i] == parsed[i]);
                }
            }
        }
        let _ = self.consume(TokenType::RightBrace, "Expected '}' after class body.")?;
        Ok(Stmt::Class(Class { name, methods }))
    }

    /// Parses a function or a method: its name, its parameters in parentheses, and its
    /// body in braces.
    fn function(&mut self) -> (result: Result<Function, Error>)
        requires
            old(self).wf(),
        ensures
            final(self).moved(*old(self)),
            result matches Ok(function) ==> final(self).consumed(*old(self)) && block_structured(
                function.body@,
            ),
            result matches Ok(function) ==> function_spelled(
                function,
                old(self).tokens(),
                old(self).current(),
                final(self).current(),
            ),
            result is Ok <==> function_end(old(self).tokens(), old(self).current()) is Some,
            result is Ok ==> function_end(old(self).tokens(), old(self).current())
                == Some(final(self).current()),
            result matches Err(error) ==> error is ParseError,
        decreases old(self).remaining(), 18nat,
    {
        let name = self.consume(TokenType::Identifier, "Expected function name.")?;
        let _ = self.consume(TokenType::LeftParen, "Expected '(' after function name.")?;
        let mut params: Vec<Token> = Vec::new();
        if !self.check(TokenType::RightParen) {
            let first = self.consume(TokenType::Identifier, "Expected parameter name.")?;
            params.push(first);
            while self.match_token(TokenType::Comma)
                invariant
                    self.consumed(*old(self)),
                    params@.len() >= 1,
                    self.current() == params_end(params@, old(self).current() + 2),
                    params_spelled(params@, self.tokens(), old(self).current() + 2),
                    params_rest(self.tokens(), self.current()) == params_close(
                        old(self).tokens(),
                        old(self).current() + 2,
                    ),
                decreases self.remaining(),
            {
                let ghost taken = params@;
                let next = self.consume(TokenType::Identifier, "Expected parameter name.")?;
                params.push(next);
                assert forall|i: int| 0 <= i < params@.len() implies token_at(
                    self.tokens(),
                    old(self).current() + 2 + 2 * i,
                    TokenType::Identifier,
                    #[trigger] params@[i],
                ) && (i > 0 ==> kind_at(
                    self.tokens(),
                    old(self).current() + 2 + 2 * i - 1,
                    TokenType::Comma,
                )) by {
                    if i < taken.len() {
                        assert(params@[i] == taken[i]);
                    }
                }
            }
        }
        let _ = self.consume(TokenType::RightParen, "Expected ')' after parameters.")?;
        let _ = self.consume(TokenType::LeftBrace, "Expected '{' before function body.")?;
        let body = self.block()?;
        Ok(Function { name, params, body })
    }

    /// Parses the declaration of a variable, whose keyword has been taken.
    fn variable_declaration(&mut self) -> (result: Result<Stmt, Error>)
        requires
            old(self).wf(),
            kind_at(old(self).tokens(), old(self).current() - 1, TokenType::Var),
        ensures
            final(self).moved(*old(self)),
            result matches Ok(stmt) ==> final(self).consumed(*old(self)) && stmt_structured(stmt),
            result matches Ok(stmt) ==> stmt is Variable,
            result matches Ok(stmt) ==> stmt_spelled(
                stmt,
                old(self).tokens(),
                old(self).current() - 1,
                final(self).current(),
            ),
            result is Ok <==> variable_end(old(self).tokens(), old(self).current()) is Some,
            result is Ok ==> variable_end(old(self).tokens(), old(self).current())
                == Some(final(self).current()),
            result matches Err(error) ==> error is ParseError,
        decreases old(self).remaining(), 18nat,
    {
        let name = self.consume(TokenType::Identifier, "Expected variable name.")?;
        let initializer = if self.match_token(TokenType::Equal) {
            Some(self.expression()?)
        } else {
            None
        };
        let ghost at = self.current();
        self.check_statement_end()?;
        assert(ended(self.tokens(), at, self.current()));
        Ok(Stmt::Variable(crate::statements::Variable { name, initializer }))
    }

    /// Parses a statement that declares nothing.
    fn statement(&mut self) -> (result: Result<Stmt, Error>)
        requires
            old(self).wf(),
        ensures
            final(self).moved(*old(self)),
            result matches Ok(stmt) ==> final(self).consumed(*old(self)) && simple(stmt)
                && stmt_structured(stmt) && begins(
                old(self).tokens()[old(self).current()].token_type,
                stmt,
            ),
            result matches Ok(stmt) ==> stmt_spelled(
                stmt,
                old(self).tokens(),
                old(self).current(),
                final(self).current(),
            ),
            !old(self).at_end() && (old(self).tokens()[old(self).current()].token_type
                == TokenType::Class || old(self).tokens()[old(self).current()].token_type
                == TokenType::Funk || old(self).tokens()[old(self).current()].token_type
                == TokenType::Var) ==> result is Err,
            result is Ok <==> statement_end(old(self).tokens(), old(self).current()) is Some,
            result is Ok ==> statement_end(old(self).tokens(), old(self).current())
                == Some(final(self).current()),
            result matches Err(error) ==> error is ParseError,
        decreases old(self).remaining(), 19nat,
    {
        if self.match_token(TokenType::If) {
            return self.if_statement();
        }
        if self.match_token(TokenType::While) {
            return self.while_statement();
        }
        if self.match_token(TokenType::For) {
            return self.for_statement();
        }
        if self.match_token(TokenType::Print) {
            let expression = self.expression()?;
            let ghost at = self.current();
            self.check_statement_end()?;
            assert(ended(self.tokens(), at, self.current()));
            return Ok(Stmt::Print(Print { expression }));
        }
        if self.match_token(TokenType::Return) {
            return self.return_statement();
        }
        if self.match_token(TokenType::LeftBrace) {
            let statements = self.block()?;
            return Ok(Stmt::Block(Box::new(Block { statements })));
        }
        self.expression_statement()
    }

    /// Parses an `if`, whose keyword has been taken.
    fn if_statement(&mut self) -> (result: Result<Stmt, Error>)
        requires
            old(self).wf(),
            kind_at(old(self).tokens(), old(self).current() - 1, TokenType::If),
        ensures
            final(self).moved(*old(self)),
            result matches Ok(stmt) ==> final(self).consumed(*old(self)) && simple(stmt)
                && stmt_structured(stmt),
            result matches Ok(stmt) ==> stmt is If,
            result matches Ok(stmt) ==> stmt_spelled(
                stmt,
                old(self).tokens(),
                old(self).current() - 1,
                final(self).current(),
            ),
            result is Ok <==> if_end(old(self).tokens(), old(self).current()) is Some,
            result is Ok ==> if_end(old(self).tokens(), old(self).current())
                == Some(final(self).current()),
            result matches Err(error) ==> error is ParseError,
        decreases old(self).remaining(), 18nat,
    {
        let _ = self.consume(TokenType::LeftParen, "Expected '(' after 'if'.")?;
        let condition = self.expression()?;
        let ghost close = self.current();
        let _ = self.consume(TokenType::RightParen, "Expected ')' after condition.")?;
        let then_branch = self.statement()?;
        let ghost middle = self.current();
        let else_branch = if self.match_token(TokenType::Else) {
            Some(self.statement()?)
        } else {
            None
        };
        proof {
            assert(kind_at(self.tokens(), close, TokenType::RightParen));
            if else_branch is Some {
                assert(kind_at(self.tokens(), middle, TokenType::Else));
            }
        }
        Ok(Stmt::If(Box::new(If { condition, then_branch, else_branch })))
    }

    /// Parses a `while`, whose keyword has been taken.
    fn while_statement(&mut self) -> (result: Result<Stmt, Error>)
        requires
            old(self).wf(),
            kind_at(old(self).tokens(), old(self).current() - 1, TokenType::While),
        ensures
            final(self).moved(*old(self)),
            result matches Ok(stmt) ==> final(self).consumed(*old(self)) && simple(stmt)
                && stmt_structured(stmt),
            result matches Ok(stmt) ==> stmt is While,
            result matches Ok(stmt) ==> stmt_spelled(
                stmt,
                old(self).tokens(),
                old(self).current() - 1,
                final(self).current(),
            ),
            result is Ok <==> while_end(old(self).tokens(), old(self).current()) is Some,
            result is Ok ==> while_end(old(self).tokens(), old(self).current())
                == Some(final(self).current()),
            result matches Err(error) ==> error is ParseError,
        decreases old(self).remaining(), 18nat,
    {
        let _ = self.consume(TokenType::LeftParen, "Expected '(' after 'while'.")?;
        let condition = self.expression()?;
        let ghost close = self.current();
        let _ = self.consume(TokenType::RightParen, "Expected ')' after condition.")?;
        let body = self.statement()?;
        assert(kind_at(self.tokens(), close, TokenType::RightParen));
        Ok(Stmt::While(Box::new(While { condition, body })))
    }

    /// Parses a `for`, whose keyword has been taken. The loop
    /// `for (initializer; condition; step) body` is the block
    /// `{ initializer; while (condition) { body; step; } }`.
    fn for_statement(&mut self) -> (result: Result<Stmt, Error>)
        requires
            old(self).wf(),
            kind_at(old(self).tokens(), old(self).current() - 1, TokenType::For),
        ensures
            final(self).moved(*old(self)),
            result matches Ok(stmt) ==> final(self).consumed(*old(self)) && simple(stmt)
                && stmt_structured(stmt),
            result matches Ok(stmt) ==> stmt is Block,
            result matches Ok(stmt) ==> stmt_spelled(
                stmt,
                old(self).tokens(),
                old(self).current() - 1,
                final(self).current(),
            ),
            result is Ok <==> for_end(old(self).tokens(), old(self).current()) is Some,
            result is Ok ==> for_end(old(self).tokens(), old(self).current())
                == Some(final(self).current()),
            result matches Err(error) ==> error is ParseError,
        decreases old(self).remaining(), 18nat,
    {
        let _ = self.consume(TokenType::LeftParen, "Expected '(' after 'for'.")?;
        let mut statements: Vec<Stmt> = Vec::new();
        if self.match_token(TokenType::Semicolon) {
        } else if self.match_token(TokenType::Var) {
            let initializer = self.variable_declaration()?;
            statements.push(initializer);
        } else {
            let initializer = self.expression_statement()?;
            statements.push(initializer);
        }
        assert(block_structured(statements@));
        let ghost from = old(self).current() - 1;
        let ghost first = self.current();
        let ghost initial = statements@;
        let condition = if self.check(TokenType::Semicolon) {
            Expr::Literal(Literal { value: LiteralType::Bool(true) })
        } else {
            self.expression()?
        };
        let ghost second = self.current();
        let _ = self.consume(TokenType::Semicolon, "Expected ';' after loop condition.")?;
        let step = if self.check(TokenType::RightParen) {
            None
        } else {
            Some(self.expression()?)
        };
        let ghost close = self.current();
        let _ = self.consume(TokenType::RightParen, "Expected ')' after for clauses.")?;
        let inner = self.statement()?;
        proof {
            assert(between(from + 3, first, second));
            assert(kind_at(self.tokens(), second, TokenType::Semicolon));
            assert(kind_at(self.tokens(), close, TokenType::RightParen));
            assert(stmt_spelled(inner, self.tokens(), close + 1, self.current()));
        }
        let mut body: Vec<Stmt> = Vec::new();
        body.push(inner);
        match step {
            Some(step) => {
                body.push(Stmt::Expression(Expression { expression: step }));
            },
            None => {},
        }
        assert(block_structured(body@));
        let inner_block = Stmt::Block(Box::new(Block { statements: body }));
        assert(simple(inner_block) && stmt_structured(inner_block));
        let repeat = Stmt::While(Box::new(While { condition, body: inner_block }));
        assert(stmt_structured(repeat));
        let ghost before = statements@;
        statements.push(repeat);
        assert forall|i: int| 0 <= i < statements@.len() implies stmt_structured(
            #[trigger] statements@[i],
        ) by {
            if i < before.len() {
                assert(statements@[i] == before[i]);
            }
        }
        assert(block_structured(statements@));
        assert(loop_spelled(statements@, self.tokens(), from, self.current()));
        Ok(Stmt::Block(Box::new(Block { statements })))
    }

    /// Parses a `return`, whose keyword has been taken. The value is left out where the
    /// statement ends right behind the keyword.
    fn return_statement(&mut self) -> (result: Result<Stmt, Error>)
        requires
            old(self).wf(),
            kind_at(old(self).tokens(), old(self).current() - 1, TokenType::Return),
        ensures
            final(self).moved(*old(self)),
            result matches Ok(stmt) ==> simple(stmt) && stmt_structured(stmt),
            result matches Ok(stmt) ==> stmt is Return,
            result matches Ok(stmt) ==> stmt_spelled(
                stmt,
                old(self).tokens(),
                old(self).current() - 1,
                final(self).current(),
            ),
            result is Ok <==> return_end(old(self).tokens(), old(self).current()) is Some,
            result is Ok ==> return_end(old(self).tokens(), old(self).current())
                == Some(final(self).current()),
            result matches Err(error) ==> error is ParseError,
        decreases old(self).remaining(), 18nat,
    {
        let keyword = self.previous();
        let ends = self.check(TokenType::Semicolon) || self.check(TokenType::RightBrace)
            || self.is_at_end() || keyword.line < self.next_line();
        let value = if ends {
            None
        } else {
            Some(self.expression()?)
        };
        let ghost at = self.current();
        self.check_statement_end()?;
        assert(ended(self.tokens(), at, self.current()));
        Ok(Stmt::Return(Return { keyword, value }))
    }

    /// Parses the statements of a block, whose opening brace has been taken, and the
    /// closing brace.
    fn block(&mut self) -> (result: Result<Vec<Stmt>, Error>)
        requires
            old(self).wf(),
        ensures
            final(self).moved(*old(self)),
            result matches Ok(statements) ==> final(self).consumed(*old(self))
                && block_structured(statements@),
            result matches Ok(statements) ==> kind_at(
                old(self).tokens(),
                final(self).current() - 1,
                TokenType::RightBrace,
            ) && block_spelled(
                statements@,
                statements@.len() as int,
                old(self).tokens(),
                old(self).current(),
                final(self).current() - 1,
            ),
            result is Ok <==> block_end(old(self).tokens(), old(self).current()) is Some,
            result is Ok ==> block_end(old(self).tokens(), old(self).current())
                == Some(final(self).current()),
            result matches Err(error) ==> error is ParseError,
        decreases old(self).remaining(), 21nat,
    {
        let mut statements: Vec<Stmt> = Vec::new();
        while !self.check(TokenType::RightBrace) && !self.is_at_end()
            invariant
                self.moved(*old(self)),
                block_structured(statements@),
                block_end(self.tokens(), self.current()) == block_end(
                    old(self).tokens(),
                    old(self).current(),
                ),
                block_spelled(
                    statements@,
                    statements@.len() as int,
                    self.tokens(),
                    old(self).current(),
                    self.current(),
                ),
            decreases self.remaining(),
        {
            let ghost parsed = statements@;
            let ghost at = self.current();
            let stmt = self.declaration()?;
            statements.push(stmt);
            proof {
                assert(between(old(self).current(), at, self.current()));
                lemma_block_spelled_prefix(
                    parsed,
                    statements@,
                    parsed.len() as int,
                    self.tokens(),
                    old(self).current(),
                    at,
                );
            }
            assert forall|i: int| 0 <= i < statements@.len() implies stmt_structured(
                #[trigger] statements@[i],
            ) by {
                if i < parsed.len() {
                    assert(statements@[i] == parsed[i]);
                }
            }
        }
        let _ = self.consume(TokenType::RightBrace, "Expected '}' after block.")?;
        Ok(statements)
    }

    /// Parses an expression that stands as a statement.
    fn expression_statement(&mut self) -> (result: Result<Stmt, Error>)
        requires
            old(self).wf(),
        ensures
            final(self).moved(*old(self)),
            result matches Ok(stmt) ==> final(self).consumed(*old(self)) && simple(stmt)
                && stmt_structured(stmt),
            result is Ok ==> old(self).expression_starts(),
            result matches Ok(stmt) ==> stmt is Expression,
            result matches Ok(stmt) ==> stmt_spelled(
                stmt,
                old(self).tokens(),
                old(self).current(),
                final(self).current(),
            ),
            result is Ok <==> closed_expression(old(self).tokens(), old(self).current()) is Some,
            result is Ok ==> closed_expression(old(self).tokens(), old(self).current())
                == Some(final(self).current()),
            result matches Err(error) ==> error is ParseError,
        decreases old(self).remaining(), 18nat,
    {
        let expression = self.expression()?;
        let ghost at = self.current();
        self.check_statement_end()?;
        assert(ended(self.tokens(), at, self.current()));
        Ok(Stmt::Expression(Expression { expression }))
    }

    /// Checks that a statement ends here: with a semicolon, which is taken, at the end of
    /// the line, before a closing brace, or at the end of the tokens.
    fn check_statement_end(&mut self) -> (result: Result<(), Error>)
        requires
            old(self).wf(),
        ensures
            final(self).moved(*old(self)),
            result is Ok ==> ended(old(self).tokens(), old(self).current(), final(self).current()),
            result is Ok <==> statement_closed(old(self).tokens(), old(self).current()) is Some,
            result is Ok ==> statement_closed(old(self).tokens(), old(self).current())
                == Some(final(self).current()),
            result matches Err(error) ==> error is ParseError,
    {
        if self.match_token(TokenType::Semicolon) {
            return Ok(());
        }
        if self.is_at_end() || self.check(TokenType::RightBrace) {
            return Ok(());
        }
        if self.current > 0 && self.previous_line() < self.next_line() {
            return Ok(());
        }
        Err(self.error_here("Expected ';' or new line after expression."))
    }

    /// Parses an expression.
    fn expression(&mut self) -> (result: Result<Expr, Error>)
        requires
            old(self).wf(),
        ensures
            final(self).moved(*old(self)),
            result is Ok ==> final(self).consumed(*old(self)) && old(self).expression_starts(),
            result matches Ok(expr) ==> expr_spelled(
                expr,
                old(self).tokens(),
                old(self).current(),
                final(self).current(),
            ),
            result is Ok <==> expression_end(old(self).tokens(), old(self).current()) is Some,
            result matches Ok(expr) ==> reaches(
                expression_end(old(self).tokens(), old(self).current()),
                final(self).current(),
                target_of(expr),
            ),
            result matches Err(error) ==> error is ParseError,
        decreases old(self).remaining(), 10nat,
    {
        self.assignment()
    }

    /// Parses an assignment, or what binds tighter. The target of an assignment is a
    /// variable, a property or an item of an array. `a += b` is `a = a + b`, and `a++`
    /// is `a = a + 1`, for a variable `a`.
    fn assignment(&mut self) -> (result: Result<Expr, Error>)
        requires
            old(self).wf(),
        ensures
            final(self).moved(*old(self)),
            result is Ok ==> final(self).consumed(*old(self)) && old(self).expression_starts(),
            result matches Ok(expr) ==> expr_spelled(
                expr,
                old(self).tokens(),
                old(self).current(),
                final(self).current(),
            ),
            result is Ok <==> assignment_end(old(self).tokens(), old(self).current()) is Some,
            result matches Ok(expr) ==> reaches(
                assignment_end(old(self).tokens(), old(self).current()),
                final(self).current(),
                target_of(expr),
            ),
            result matches Err(error) ==> error is ParseError,
        decreases old(self).remaining(), 9nat,
    {
        let ghost from = self.current();
        let expr = self.or()?;
        let ghost target = expr;
        let ghost middle = self.current();
        if self.match_token(TokenType::Equal) {
            let equals = self.previous();
            let value = self.assignment()?;
            return match expr {
                Expr::Variable(variable) => Ok(
                    Expr::Assign(Box::new(Assign { name: variable.name, value, distance: None })),
                ),
                Expr::Get(get) => {
                    let Get { object, name } = *get;
                    proof {
                        assert(expr_spelled(object, self.tokens(), from, middle - 2));
                    }
                    Ok(Expr::SetExpr(Box::new(SetExpr { object, name, value })))
                },
                Expr::Index(index) => {
                    let Index { object, bracket, index } = *index;
                    proof {
                        let at = choose|at: int|
                            from < at < middle && #[trigger] kind_at(
                                self.tokens(),
                                at,
                                TokenType::LeftSquare,
                            ) && expr_spelled(object, self.tokens(), from, at) && expr_spelled(
                                index,
                                self.tokens(),
                                at + 1,
                                middle - 1,
                            );
                        assert(expr_spelled(object, self.tokens(), from, at));
                        assert(expr_spelled(index, self.tokens(), at + 1, middle - 1));
                    }
                    Ok(Expr::AssignIndex(Box::new(AssignIndex { object, bracket, index, value })))
                },
                _ => Err(Error::ParseError(equals, String::from_str("Invalid assignment target."))),
            };
        }
        if self.match_token(TokenType::PlusEqual) || self.match_token(TokenType::MinusEqual)
            || self.match_token(TokenType::StarEqual) || self.match_token(TokenType::SlashEqual) {
            let operator = self.previous();
            let right = self.assignment()?;
            return match expr {
                Expr::Variable(variable) => {
                    let name = variable.name.duplicate();
                    let left = Expr::Variable(variable);
                    proof {
                        assert(expr_spelled(left, self.tokens(), from, from + 1));
                        assert(expr_spelled(right, self.tokens(), from + 2, self.current()));
                    }
                    let value = Expr::Binary(Box::new(Binary { left, operator, right }));
                    assert(expr_spelled(value, self.tokens(), from, self.current()));
                    Ok(Expr::Assign(Box::new(Assign { name, value, distance: None })))
                },
                _ => Err(
                    Error::ParseError(operator, String::from_str("Invalid assignment target.")),
                ),
            };
        }
        if self.match_token(TokenType::PlusPlus) || self.match_token(TokenType::MinusMinus) {
            let operator = self.previous();
            return match expr {
                Expr::Variable(variable) => {
                    let name = variable.name.duplicate();
                    let left = Expr::Variable(variable);
                    let right = Expr::Literal(Literal { value: LiteralType::Number(ONE) });
                    proof {
                        assert(expr_spelled(left, self.tokens(), from, from + 1));
                    }
                    let value = Expr::Binary(Box::new(Binary { left, operator, right }));
                    Ok(Expr::Assign(Box::new(Assign { name, value, distance: None })))
                },
                _ => Err(
                    Error::ParseError(operator, String::from_str("Invalid assignment target.")),
                ),
            };
        }
        Ok(expr)
    }

    /// Parses a chain of `or`, or what binds tighter.
    fn or(&mut self) -> (result: Result<Expr, Error>)
        requires
            old(self).wf(),
        ensures
            final(self).moved(*old(self)),
            result is Ok ==> final(self).consumed(*old(self)) && old(self).expression_starts(),
            result matches Ok(expr) ==> expr_spelled(
                expr,
                old(self).tokens(),
                old(self).current(),
                final(self).current(),
            ),
            result is Ok <==> (binary_end(old(self).tokens(), old(self).current(), OR as nat)
                is Some),
            result matches Ok(expr) ==> reaches(
                binary_end(old(self).tokens(), old(self).current(), OR as nat),
                final(self).current(),
                target_of(expr),
            ),
            result matches Err(error) ==> error is ParseError,
        decreases old(self).remaining(), 8nat,
    {
        assert(operand_end(self.tokens(), self.current(), OR as nat)
            == binary_end(self.tokens(), self.current(), AND as nat));
        let mut expr = self.and()?;
        while self.match_token(TokenType::Or)
            invariant
                self.consumed(*old(self)),
                old(self).expression_starts(),
                expr_spelled(expr, self.tokens(), old(self).current(), self.current()),
                binary_rest(self.tokens(), self.current(), OR as nat, target_of(expr))
                    == binary_end(old(self).tokens(), old(self).current(), OR as nat),
            decreases self.remaining(),
        {
            let ghost at = self.current() - 1;
            let ghost left = expr;
            let operator = self.previous();
            assert(operand_end(self.tokens(), self.current(), OR as nat)
                == binary_end(self.tokens(), self.current(), AND as nat));
            let right = self.and()?;
            expr = Expr::Logical(Box::new(Logical { left: expr, operator, right }));
            proof {
                assert(expr_spelled(left, self.tokens(), old(self).current(), at));
                assert(expr_spelled(right, self.tokens(), at + 1, self.current()));
            }
        }
        Ok(expr)
    }

    /// Parses a chain of `and`, or what binds tighter.
    fn and(&mut self) -> (result: Result<Expr, Error>)
        requires
            old(self).wf(),
        ensures
            final(self).moved(*old(self)),
            result is Ok ==> final(self).consumed(*old(self)) && old(self).expression_starts(),
            result matches Ok(expr) ==> expr_spelled(
                expr,
                old(self).tokens(),
                old(self).current(),
                final(self).current(),
            ),
            result is Ok <==> (binary_end(old(self).tokens(), old(self).current(), AND as nat)
                is Some),
            result matches Ok(expr) ==> reaches(
                binary_end(old(self).tokens(), old(self).current(), AND as nat),
                final(self).current(),
                target_of(expr),
            ),
            result matches Err(error) ==> error is ParseError,
        decreases old(self).remaining(), 7nat,
    {
        assert(operand_end(self.tokens(), self.current(), AND as nat)
            == binary_end(self.tokens(), self.current(), EQUALITY as nat));
        let mut expr = self.equality()?;
        while self.match_token(TokenType::And)
            invariant
                self.consumed(*old(self)),
                old(self).expression_starts(),
                expr_spelled(expr, self.tokens(), old(self).current(), self.current()),
                binary_rest(self.tokens(), self.current(), AND as nat, target_of(expr))
                    == binary_end(old(self).tokens(), old(self).current(), AND as nat),
            decreases self.remaining(),
        {
            let ghost at = self.current() - 1;
            let ghost left = expr;
            let operator = self.previous();
            assert(operand_end(self.tokens(), self.current(), AND as nat)
                == binary_end(self.tokens(), self.current(), EQUALITY as nat));
            let right = self.equality()?;
            expr = Expr::Logical(Box::new(Logical { left: expr, operator, right }));
            proof {
                assert(expr_spelled(left, self.tokens(), old(self).current(), at));
                assert(expr_spelled(right, self.tokens(), at + 1, self.current()));
            }
        }
        Ok(expr)
    }

    /// Parses a chain of `==` and `!=`, or what binds tighter.
    fn equality(&mut self) -> (result: Result<Expr, Error>)
        requires
            old(self).wf(),
        ensures
            final(self).moved(*old(self)),
            result is Ok ==> final(self).consumed(*old(self)) && old(self).expression_starts(),
            result matches Ok(expr) ==> expr_spelled(
                expr,
                old(self).tokens(),
                old(self).current(),
                final(self).current(),
            ),
            result is Ok <==> (binary_end(old(self).tokens(), old(self).current(), EQUALITY as nat)
                is Some),
            result matches Ok(expr) ==> reaches(
                binary_end(old(self).tokens(), old(self).current(), EQUALITY as nat),
                final(self).current(),
                target_of(expr),
            ),
            result matches Err(error) ==> error is ParseError,
        decreases old(self).remaining(), 6nat,
    {
        assert(operand_end(self.tokens(), self.current(), EQUALITY as nat)
            == binary_end(self.tokens(), self.current(), COMPARISON as nat));
        let mut expr = self.comparison()?;
        while self.match_token(TokenType::BangEqual) || self.match_token(TokenType::EqualEqual)
            invariant
                self.consumed(*old(self)),
                old(self).expression_starts(),
                expr_spelled(expr, self.tokens(), old(self).current(), self.current()),
                binary_rest(self.tokens(), self.current(), EQUALITY as nat, target_of(expr))
                    == binary_end(old(self).tokens(), old(self).current(), EQUALITY as nat),
            decreases self.remaining(),
        {
            let ghost at = self.current() - 1;
            let ghost left = expr;
            let operator = self.previous();
            assert(operand_end(self.tokens(), self.current(), EQUALITY as nat)
                == binary_end(self.tokens(), self.current(), COMPARISON as nat));
            let right = self.comparison()?;
            expr = Expr::Binary(Box::new(Binary { left: expr, operator, right }));
            proof {
                assert(expr_spelled(left, self.tokens(), old(self).current(), at));
                assert(expr_spelled(right, self.tokens(), at + 1, self.current()));
            }
        }
        Ok(expr)
    }

    /// Parses a chain of comparisons, or what binds tighter.
    fn comparison(&mut self) -> (result: Result<Expr, Error>)
        requires
            old(self).wf(),
        ensures
            final(self).moved(*old(self)),
            result is Ok ==> final(self).consumed(*old(self)) && old(self).expression_starts(),
            result matches Ok(expr) ==> expr_spelled(
                expr,
                old(self).tokens(),
                old(self).current(),
                final(self).current(),
            ),
            result is Ok <==> (binary_end(old(self).tokens(), old(self).current(), COMPARISON as nat)
                is Some),
            result matches Ok(expr) ==> reaches(
                binary_end(old(self).tokens(), old(self).current(), COMPARISON as nat),
                final(self).current(),
                target_of(expr),
            ),
            result matches Err(error) ==> error is ParseError,
        decreases old(self).remaining(), 5nat,
    {
        assert(operand_end(self.tokens(), self.current(), COMPARISON as nat)
            == binary_end(self.tokens(), self.current(), TERM as nat));
        let mut expr = self.term()?;
        while self.match_token(TokenType::Greater) || self.match_token(TokenType::GreaterEqual)
            || self.match_token(TokenType::Less) || self.match_token(TokenType::LessEqual)
            invariant
                self.consumed(*old(self)),
                old(self).expression_starts(),
                expr_spelled(expr, self.tokens(), old(self).current(), self.current()),
                binary_rest(self.tokens(), self.current(), COMPARISON as nat, target_of(expr))
                    == binary_end(old(self).tokens(), old(self).current(), COMPARISON as nat),
            decreases self.remaining(),
        {
            let ghost at = self.current() - 1;
            let ghost left = expr;
            let operator = self.previous();
            assert(operand_end(self.tokens(), self.current(), COMPARISON as nat)
                == binary_end(self.tokens(), self.current(), TERM as nat));
            let right = self.term()?;
            expr = Expr::Binary(Box::new(Binary { left: expr, operator, right }));
            proof {
                assert(expr_spelled(left, self.tokens(), old(self).current(), at));
                assert(expr_spelled(right, self.tokens(), at + 1, self.current()));
            }
        }
        Ok(expr)
    }

    /// Parses a chain of `+` and `-`, or what binds tighter.
    fn term(&mut self) -> (result: Result<Expr, Error>)
        requires
            old(self).wf(),
        ensures
            final(self).moved(*old(self)),
            result is Ok ==> final(self).consumed(*old(self)) && old(self).expression_starts(),
            result matches Ok(expr) ==> expr_spelled(
                expr,
                old(self).tokens(),
                old(self).current(),
                final(self).current(),
            ),
            result is Ok <==> (binary_end(old(self).tokens(), old(self).current(), TERM as nat)
                is Some),
            result matches Ok(expr) ==> reaches(
                binary_end(old(self).tokens(), old(self).current(), TERM as nat),
                final(self).current(),
                target_of(expr),
            ),
            result matches Err(error) ==> error is ParseError,
        decreases old(self).remaining(), 4nat,
    {
        assert(operand_end(self.tokens(), self.current(), TERM as nat)
            == binary_end(self.tokens(), self.current(), FACTOR as nat));
        let mut expr = self.factor()?;
        while self.match_token(TokenType::Minus) || self.match_token(TokenType::Plus)
            invariant
                self.consumed(*old(self)),
                old(self).expression_starts(),
                expr_spelled(expr, self.tokens(), old(self).current(), self.current()),
                binary_rest(self.tokens(), self.current(), TERM as nat, target_of(expr))
                    == binary_end(old(self).tokens(), old(self).current(), TERM as nat),
            decreases self.remaining(),
        {
            let ghost at = self.current() - 1;
            let ghost left = expr;
            let operator = self.previous();
            assert(operand_end(self.tokens(), self.current(), TERM as nat)
                == binary_end(self.tokens(), self.current(), FACTOR as nat));
            let right = self.factor()?;
            expr = Expr::Binary(Box::new(Binary { left: expr, operator, right }));
            proof {
                assert(expr_spelled(left, self.tokens(), old(self).current(), at));
                assert(expr_spelled(right, self.tokens(), at + 1, self.current()));
            }
        }
        Ok(expr)
    }

    /// Parses a chain of `*`, `/` and `%`, or what binds tighter.
    fn factor(&mut self) -> (result: Result<Expr, Error>)
        requires
            old(self).wf(),
        ensures
            final(self).moved(*old(self)),
            result is Ok ==> final(self).consumed(*old(self)) && old(self).expression_starts(),
            result matches Ok(expr) ==> expr_spelled(
                expr,
                old(self).tokens(),
                old(self).current(),
                final(self).current(),
            ),
            result is Ok <==> (binary_end(old(self).tokens(), old(self).current(), FACTOR as nat)
                is Some),
            result matches Ok(expr) ==> reaches(
                binary_end(old(self).tokens(), old(self).current(), FACTOR as nat),
                final(self).current(),
                target_of(expr),
            ),
            result matches Err(error) ==> error is ParseError,
        decreases old(self).remaining(), 3nat,
    {
        assert(operand_end(self.tokens(), self.current(), FACTOR as nat)
            == unary_end(self.tokens(), self.current()));
        let mut expr = self.unary()?;
        while self.match_token(TokenType::Slash) || self.match_token(TokenType::Star)
            || self.match_token(TokenType::Modulo)
            invariant
                self.consumed(*old(self)),
                old(self).expression_starts(),
                expr_spelled(expr, self.tokens(), old(self).current(), self.current()),
                binary_rest(self.tokens(), self.current(), FACTOR as nat, target_of(expr))
                    == binary_end(old(self).tokens(), old(self).current(), FACTOR as nat),
            decreases self.remaining(),
        {
            let ghost at = self.current() - 1;
            let ghost left = expr;
            let operator = self.previous();
            assert(operand_end(self.tokens(), self.current(), FACTOR as nat)
                == unary_end(self.tokens(), self.current()));
            let right = self.unary()?;
            expr = Expr::Binary(Box::new(Binary { left: expr, operator, right }));
            proof {
                assert(expr_spelled(left, self.tokens(), old(self).current(), at));
                assert(expr_spelled(right, self.tokens(), at + 1, self.current()));
            }
        }
        Ok(expr)
    }

    /// Parses `!` or `-` before an operand, or what binds tighter.
    fn unary(&mut self) -> (result: Result<Expr, Error>)
        requires
            old(self).wf(),
        ensures
            final(self).moved(*old(self)),
            result is Ok ==> final(self).consumed(*old(self)) && old(self).expression_starts(),
            result matches Ok(expr) ==> expr_spelled(
                expr,
                old(self).tokens(),
                old(self).current(),
                final(self).current(),
            ),
            result is Ok <==> unary_end(old(self).tokens(), old(self).current()) is Some,
            result matches Ok(expr) ==> reaches(
                unary_end(old(self).tokens(), old(self).current()),
                final(self).current(),
                target_of(expr),
            ),
            result matches Err(error) ==> error is ParseError,
        decreases old(self).remaining(), 2nat,
    {
        if self.match_token(TokenType::Bang) || self.match_token(TokenType::Minus) {
            let operator = self.previous();
            let right = self.unary()?;
            return Ok(Expr::Unary(Box::new(Unary { operator, right })));
        }
        self.call()
    }

    /// Parses the arguments of a call or the items of an array, separated by commas, up
    /// to the token of the given kind that closes them.
    fn list(&mut self, closing: TokenType) -> (result: Result<Vec<Expr>, Error>)
        requires
            old(self).wf(),
        ensures
            final(self).moved(*old(self)),
            old(self).next_is(closing) ==> result is Ok && final(self).current() == old(self).current(),
            result matches Ok(items) ==> (items@.len() == 0 <==> old(self).next_is(closing)),
            result matches Ok(items) ==> list_spelled(
                items@,
                items@.len() as int,
                old(self).tokens(),
                old(self).current(),
                final(self).current(),
            ),
            result matches Ok(items) ==> items@.len() > 0 ==> old(self).expression_starts()
                && !final(self).next_is(TokenType::Comma),
            result is Ok <==> list_end(old(self).tokens(), old(self).current(), closing) is Some,
            result is Ok ==> list_end(old(self).tokens(), old(self).current(), closing)
                == Some(final(self).current()),
            result matches Err(error) ==> error is ParseError,
        decreases old(self).remaining(), 11nat,
    {
        let mut items: Vec<Expr> = Vec::new();
        if !self.check(closing) {
            let first = self.expression()?;
            items.push(first);
            while self.match_token(TokenType::Comma)
                invariant
                    self.consumed(*old(self)),
                    !old(self).next_is(closing),
                    old(self).expression_starts(),
                    items@.len() >= 1,
                    list_rest(self.tokens(), self.current()) == list_end(
                        old(self).tokens(),
                        old(self).current(),
                        closing,
                    ),
                    list_spelled(
                        items@,
                        items@.len() as int,
                        self.tokens(),
                        old(self).current(),
                        self.current(),
                    ),
                decreases self.remaining(),
            {
                let ghost at = self.current() - 1;
                let ghost before = items@;
                let next = self.expression()?;
                items.push(next);
                proof {
                    assert(kind_at(self.tokens(), at, TokenType::Comma));
                    lemma_list_spelled_prefix(
                        before,
                        items@,
                        before.len() as int,
                        self.tokens(),
                        old(self).current(),
                        at,
                    );
                    assert(list_spelled(
                        items@,
                        items@.len() - 1,
                        self.tokens(),
                        old(self).current(),
                        at,
                    ));
                }
            }
        }
        Ok(items)
    }

    /// Parses a primary expression and what follows it: calls, properties and indexes.
    #[verifier::rlimit(60)]
    fn call(&mut self) -> (result: Result<Expr, Error>)
        requires
            old(self).wf(),
        ensures
            final(self).moved(*old(self)),
            result is Ok ==> final(self).consumed(*old(self)) && old(self).expression_starts(),
            result matches Ok(expr) ==> expr_spelled(
                expr,
                old(self).tokens(),
                old(self).current(),
                final(self).current(),
            ),
            result is Ok <==> call_end(old(self).tokens(), old(self).current()) is Some,
            result matches Ok(expr) ==> reaches(
                call_end(old(self).tokens(), old(self).current()),
                final(self).current(),
                target_of(expr),
            ),
            result matches Err(error) ==> error is ParseError,
        decreases old(self).remaining(), 1nat,
    {
        let mut expr = self.primary()?;
        loop
            invariant
                self.consumed(*old(self)),
                old(self).expression_starts(),
                expr_spelled(expr, self.tokens(), old(self).current(), self.current()),
                call_rest(self.tokens(), self.current(), target_of(expr)) == call_end(
                    old(self).tokens(),
                    old(self).current(),
                ),
            decreases self.remaining(),
        {
            let ghost at = self.current();
            let ghost inner = expr;
            if self.match_token(TokenType::LeftParen) {
                let arguments = self.list(TokenType::RightParen)?;
                let paren = self.consume(TokenType::RightParen, "Expected ')' after arguments.")?;
                proof {
                    assert(kind_at(self.tokens(), at, TokenType::LeftParen));
                    assert(expr_spelled(inner, self.tokens(), old(self).current(), at));
                }
                expr = Expr::Call(Box::new(Call { callee: expr, paren, arguments }));
            } else if self.match_token(TokenType::Dot) {
                let name = self.consume(
                    TokenType::Identifier,
                    "Expected property name after '.'.",
                )?;
                expr = Expr::Get(Box::new(Get { object: expr, name }));
            } else if self.match_token(TokenType::LeftSquare) {
                let index = self.expression()?;
                let bracket = self.consume(TokenType::RightSquare, "Expected ']' after index.")?;
                proof {
                    assert(kind_at(self.tokens(), at, TokenType::LeftSquare));
                    assert(expr_spelled(inner, self.tokens(), old(self).current(), at));
                    assert(expr_spelled(index, self.tokens(), at + 1, self.current() - 1));
                }
                expr = Expr::Index(Box::new(Index { object: expr, bracket, index }));
            } else {
                return Ok(expr);
            }
        }
    }

    /// Parses a literal, a name, `this`, `super` with its method, an expression in
    /// parentheses, or an array in square brackets.
    fn primary(&mut self) -> (result: Result<Expr, Error>)
        requires
            old(self).wf(),
        ensures
            final(self).moved(*old(self)),
            result is Ok ==> final(self).consumed(*old(self)) && old(self).expression_starts(),
            result matches Ok(expr) ==> expr_spelled(
                expr,
                old(self).tokens(),
                old(self).current(),
                final(self).current(),
            ),
            result is Ok <==> primary_end(old(self).tokens(), old(self).current()) is Some,
            result matches Ok(expr) ==> reaches(
                primary_end(old(self).tokens(), old(self).current()),
                final(self).current(),
                target_of(expr),
            ),
            result matches Err(error) ==> error is ParseError,
        decreases old(self).remaining(), 0nat,
    {
        if self.match_token(TokenType::False) {
            return Ok(Expr::Literal(Literal { value: LiteralType::Bool(false) }));
        }
        if self.match_token(TokenType::True) {
            return Ok(Expr::Literal(Literal { value: LiteralType::Bool(true) }));
        }
        if self.match_token(TokenType::Null) {
            return Ok(Expr::Literal(Literal { value: LiteralType::Null }));
        }
        if self.match_token(TokenType::Number) || self.match_token(TokenType::String) {
            let Token { token_type: _, lexeme: _, literal, line: _ } = self.previous();
            return Ok(Expr::Literal(Literal { value: literal }));
        }
        if self.match_token(TokenType::This) {
            return Ok(Expr::This(This { keyword: self.previous(), distance: None }));
        }
        if self.match_token(TokenType::Super) {
            let keyword = self.previous();
            let _ = self.consume(TokenType::Dot, "Expected '.' after 'super'.")?;
            let method = self.consume(TokenType::Identifier, "Expected superclass method name.")?;
            return Ok(Expr::Super(Super { keyword, method }));
        }
        if self.match_token(TokenType::Identifier) {
            return Ok(Expr::Variable(Variable { name: self.previous(), distance: None }));
        }
        if self.match_token(TokenType::LeftParen) {
            let expression = self.expression()?;
            let _ = self.consume(TokenType::RightParen, "Expect ')' after expression.")?;
            return Ok(Expr::Grouping(Box::new(Grouping { expression })));
        }
        if self.match_token(TokenType::LeftSquare) {
            let values = self.list(TokenType::RightSquare)?;
            let _ = self.consume(TokenType::RightSquare, "Expected ']' after array items.")?;
            return Ok(Expr::Array(Box::new(Array { values })));
        }
        Err(self.error_here("Expected expression."))
    }
}

} // verus!
