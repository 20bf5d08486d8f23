//! How a syntax tree is spelled in tokens.
//!
//! A tree spells a run of tokens when the tokens are those of its parts in order, with
//! the punctuation of the language between them. Parentheses around an expression are a
//! node of the tree, so what is nested in what is read off the tree; which operator binds
//! tighter is not part of the spelling.

use vstd::prelude::*;
use crate::expressions::Expr;
use crate::statements::{Function, Stmt};
use crate::token::{Token, TokenType, Value};

verus! {

/// The bit pattern of the number one.
pub const ONE: u64 = 0x3ff0_0000_0000_0000;

/// A copy of a token: the same kind, text, literal content and line.
pub open spec fn same_token(copy: Token, token: Token) -> bool {
    copy.token_type == token.token_type && copy.lexeme@ == token.lexeme@ && copy.literal@
        == token.literal@ && copy.line == token.line
}

/// Whether the token at a place is of a kind.
pub open spec fn kind_at(tokens: Seq<Token>, at: int, kind: TokenType) -> bool {
    0 <= at < tokens.len() && tokens[at].token_type == kind
}

/// Whether a token of the tree is the token at a place, which is of a kind.
pub open spec fn token_at(tokens: Seq<Token>, at: int, kind: TokenType, token: Token) -> bool {
    kind_at(tokens, at, kind) && same_token(token, tokens[at])
}

/// The value of a literal token: `false`, `true` and `null` are their values, and a
/// number or a string is the literal that the token carries.
pub open spec fn literal_of(token: Token, value: Value) -> bool {
    match token.token_type {
        TokenType::False => value == Value::Bool(false),
        TokenType::True => value == Value::Bool(true),
        TokenType::Null => value == Value::Null,
        TokenType::Number => value == token.literal@,
        TokenType::String => value == token.literal@,
        _ => false,
    }
}

/// A binary operator between two operands.
pub open spec fn infix(kind: TokenType) -> bool {
    kind == TokenType::BangEqual || kind == TokenType::EqualEqual || kind == TokenType::Greater
        || kind == TokenType::GreaterEqual || kind == TokenType::Less || kind
        == TokenType::LessEqual || kind == TokenType::Minus || kind == TokenType::Plus || kind
        == TokenType::Slash || kind == TokenType::Star || kind == TokenType::Modulo
}

/// An operator that assigns what it computes: `a += b` is `a = a + b`.
pub open spec fn compound(kind: TokenType) -> bool {
    kind == TokenType::PlusEqual || kind == TokenType::MinusEqual || kind == TokenType::StarEqual
        || kind == TokenType::SlashEqual
}

/// An operator that steps a variable by one: `a++` is `a = a + 1`.
pub open spec fn stepping(kind: TokenType) -> bool {
    kind == TokenType::PlusPlus || kind == TokenType::MinusMinus
}

/// The tokens from `from` up to `to` spell the expression.
pub open spec fn expr_spelled(expr: Expr, tokens: Seq<Token>, from: int, to: int) -> bool
    decreases expr, 0nat,
{
    &&& 0 <= from < to <= tokens.len()
    &&& match expr {
        Expr::Literal(e) => to == from + 1 && literal_of(tokens[from], e.value@),
        Expr::Variable(e) => to == from + 1 && token_at(
            tokens,
            from,
            TokenType::Identifier,
            e.name,
        ) && e.distance is None,
        Expr::This(e) => to == from + 1 && token_at(tokens, from, TokenType::This, e.keyword)
            && e.distance is None,
        Expr::Super(e) => to == from + 3 && token_at(tokens, from, TokenType::Super, e.keyword)
            && kind_at(tokens, from + 1, TokenType::Dot) && token_at(
            tokens,
            from + 2,
            TokenType::Identifier,
            e.method,
        ),
        Expr::Grouping(e) => kind_at(tokens, from, TokenType::LeftParen) && kind_at(
            tokens,
            to - 1,
            TokenType::RightParen,
        ) && expr_spelled(e.expression, tokens, from + 1, to - 1),
        Expr::Array(e) => kind_at(tokens, from, TokenType::LeftSquare) && kind_at(
            tokens,
            to - 1,
            TokenType::RightSquare,
        ) && list_spelled(e.values@, e.values@.len() as int, tokens, from + 1, to - 1),
        Expr::Unary(e) => (tokens[from].token_type == TokenType::Bang || tokens[from].token_type
            == TokenType::Minus) && same_token(e.operator, tokens[from]) && expr_spelled(
            e.right,
            tokens,
            from + 1,
            to,
        ),
        Expr::Binary(e) => exists|at: int|
            from < at < to && (infix(#[trigger] tokens[at].token_type) || compound(
                tokens[at].token_type,
            )) && same_token(e.operator, tokens[at]) && expr_spelled(e.left, tokens, from, at)
                && expr_spelled(e.right, tokens, at + 1, to),
        Expr::Logical(e) => exists|at: int|
            from < at < to && (#[trigger] tokens[at].token_type == TokenType::And
                || tokens[at].token_type == TokenType::Or) && same_token(e.operator, tokens[at])
                && expr_spelled(e.left, tokens, from, at) && expr_spelled(
                e.right,
                tokens,
                at + 1,
                to,
            ),
        Expr::Assign(e) => token_at(tokens, from, TokenType::Identifier, e.name) && e.distance
            is None && from + 1 < to && if tokens[from + 1].token_type == TokenType::Equal {
            expr_spelled(e.value, tokens, from + 2, to)
        } else if compound(tokens[from + 1].token_type) {
            expr_spelled(e.value, tokens, from, to) && e.value is Binary
        } else {
            stepping(tokens[from + 1].token_type) && to == from + 2 && (
            e.value matches Expr::Binary(step) && same_token(step.operator, tokens[from + 1])
                && expr_spelled(step.left, tokens, from, from + 1) && (
            step.right matches Expr::Literal(one) && one.value@ == Value::Number(ONE)))
        },
        Expr::Call(e) => token_at(tokens, to - 1, TokenType::RightParen, e.paren) && exists|at: int|
            from < at < to && #[trigger] kind_at(tokens, at, TokenType::LeftParen) && expr_spelled(
                e.callee,
                tokens,
                from,
                at,
            ) && list_spelled(e.arguments@, e.arguments@.len() as int, tokens, at + 1, to - 1),
        Expr::Get(e) => kind_at(tokens, to - 2, TokenType::Dot) && token_at(
            tokens,
            to - 1,
            TokenType::Identifier,
            e.name,
        ) && expr_spelled(e.object, tokens, from, to - 2),
        Expr::Index(e) => token_at(tokens, to - 1, TokenType::RightSquare, e.bracket) && exists|
            at: int,
        |
            from < at < to && #[trigger] kind_at(tokens, at, TokenType::LeftSquare) && expr_spelled(
                e.object,
                tokens,
                from,
                at,
            ) && expr_spelled(e.index, tokens, at + 1, to - 1),
        Expr::SetExpr(e) => exists|at: int|
            from < at < to && #[trigger] kind_at(tokens, at, TokenType::Dot) && token_at(
                tokens,
                at + 1,
                TokenType::Identifier,
                e.name,
            ) && kind_at(tokens, at + 2, TokenType::Equal) && expr_spelled(
                e.object,
                tokens,
                from,
                at,
            ) && expr_spelled(e.value, tokens, at + 3, to),
        Expr::AssignIndex(e) => exists|at: int, close: int|
            from < at < close < to && #[trigger] kind_at(tokens, at, TokenType::LeftSquare)
                && #[trigger] kind_at(tokens, close, TokenType::RightSquare) && same_token(
                e.bracket,
                tokens[close],
            ) && kind_at(
                tokens,
                close + 1,
                TokenType::Equal,
            ) && expr_spelled(e.object, tokens, from, at) && expr_spelled(
                e.index,
                tokens,
                at + 1,
                close,
            ) && expr_spelled(
                e.value,
                tokens,
                close + 2,
                to,
            ),
    }
}

/// The tokens from `from` up to `to` spell the first `count` expressions of a list,
/// with commas between them.
pub open spec fn list_spelled(items: Seq<Expr>, count: int, tokens: Seq<Token>, from: int, to: int) -> bool
    decreases items, count,
{
    if count <= 0 || count > items.len() {
        count == 0 && from == to
    } else if count == 1 {
        expr_spelled(items[0], tokens, from, to)
    } else {
        exists|at: int|
            from < at < to && #[trigger] kind_at(tokens, at, TokenType::Comma) && list_spelled(
                items,
                count - 1,
                tokens,
                from,
                at,
            ) && expr_spelled(items[count - 1], tokens, at + 1, to)
    }
}

/// A statement may end without a semicolon here: at the end of the tokens, before a
/// closing brace, or where the next token stands on a later line than the one before it.
pub open spec fn breaks(tokens: Seq<Token>, at: int) -> bool {
    at >= tokens.len() || (at >= 0 && (tokens[at].token_type == TokenType::Eof
        || tokens[at].token_type == TokenType::RightBrace || (at > 0 && tokens[at - 1].line
        < tokens[at].line)))
}

/// A statement ends at `at`, and `to` is the place behind it: a semicolon there belongs
/// to the statement, and without one the statement must be able to end there.
pub open spec fn ended(tokens: Seq<Token>, at: int, to: int) -> bool {
    if kind_at(tokens, at, TokenType::Semicolon) {
        to == at + 1
    } else {
        to == at && breaks(tokens, at)
    }
}

/// A place between two others.
pub open spec fn between(low: int, at: int, high: int) -> bool {
    low <= at <= high
}

/// The names of the parameters stand from `from` on, with commas between them.
pub open spec fn params_spelled(params: Seq<Token>, tokens: Seq<Token>, from: int) -> bool {
    forall|i: int|
        0 <= i < params.len() ==> token_at(tokens, from + 2 * i, TokenType::Identifier, #[trigger] params[i])
            && (i > 0 ==> kind_at(tokens, from + 2 * i - 1, TokenType::Comma))
}

/// The place of the parenthesis that closes the parameters, which begin at `from`.
pub open spec fn params_end(params: Seq<Token>, from: int) -> int {
    if params.len() == 0 {
        from
    } else {
        from + 2 * params.len() - 1
    }
}

/// The tokens from `from` up to `to` spell the statement. A statement begins with its
/// keyword, and a block with its brace. The loop `for (initializer; condition; step) body`
/// spells the block `{ initializer; while (condition) { body; step; } }`.
pub open spec fn stmt_spelled(stmt: Stmt, tokens: Seq<Token>, from: int, to: int) -> bool
    decreases stmt, 0nat,
{
    &&& 0 <= from < to <= tokens.len()
    &&& match stmt {
        Stmt::Expression(s) => exists|at: int|
            expr_spelled(s.expression, tokens, from, at) && #[trigger] ended(tokens, at, to),
        Stmt::Print(s) => kind_at(tokens, from, TokenType::Print) && exists|at: int|
            expr_spelled(s.expression, tokens, from + 1, at) && #[trigger] ended(tokens, at, to),
        Stmt::Variable(s) => kind_at(tokens, from, TokenType::Var) && token_at(
            tokens,
            from + 1,
            TokenType::Identifier,
            s.name,
        ) && match s.initializer {
            None => ended(tokens, from + 2, to),
            Some(value) => kind_at(tokens, from + 2, TokenType::Equal) && exists|at: int|
                expr_spelled(value, tokens, from + 3, at) && #[trigger] ended(tokens, at, to),
        },
        Stmt::Return(s) => token_at(tokens, from, TokenType::Return, s.keyword) && match s.value {
            None => ended(tokens, from + 1, to),
            Some(value) => !breaks(tokens, from + 1) && exists|at: int|
                expr_spelled(value, tokens, from + 1, at) && #[trigger] ended(tokens, at, to),
        },
        Stmt::Block(s) => if kind_at(tokens, from, TokenType::For) {
            loop_spelled(s.statements@, tokens, from, to)
        } else {
            kind_at(tokens, from, TokenType::LeftBrace) && kind_at(
                tokens,
                to - 1,
                TokenType::RightBrace,
            ) && block_spelled(
                s.statements@,
                s.statements@.len() as int,
                tokens,
                from + 1,
                to - 1,
            )
        },
        Stmt::If(s) => kind_at(tokens, from, TokenType::If) && kind_at(
            tokens,
            from + 1,
            TokenType::LeftParen,
        ) && match s.else_branch {
            None => !kind_at(tokens, to, TokenType::Else) && exists|close: int|
                #[trigger] kind_at(tokens, close, TokenType::RightParen) && expr_spelled(
                    s.condition,
                    tokens,
                    from + 2,
                    close,
                ) && stmt_spelled(s.then_branch, tokens, close + 1, to),
            Some(otherwise) => exists|close: int, middle: int|
                #[trigger] kind_at(tokens, close, TokenType::RightParen) && #[trigger] kind_at(
                    tokens,
                    middle,
                    TokenType::Else,
                ) && expr_spelled(s.condition, tokens, from + 2, close) && stmt_spelled(
                    s.then_branch,
                    tokens,
                    close + 1,
                    middle,
                ) && stmt_spelled(otherwise, tokens, middle + 1, to),
        },
        Stmt::While(s) => kind_at(tokens, from, TokenType::While) && kind_at(
            tokens,
            from + 1,
            TokenType::LeftParen,
        ) && exists|close: int|
            #[trigger] kind_at(tokens, close, TokenType::RightParen) && expr_spelled(
                s.condition,
                tokens,
                from + 2,
                close,
            ) && stmt_spelled(s.body, tokens, close + 1, to),
        Stmt::Function(s) => kind_at(tokens, from, TokenType::Funk) && function_spelled(
            s,
            tokens,
            from + 1,
            to,
        ),
        Stmt::Class(s) => kind_at(tokens, from, TokenType::Class) && token_at(
            tokens,
            from + 1,
            TokenType::Identifier,
            s.name,
        ) && kind_at(tokens, from + 2, TokenType::LeftBrace) && kind_at(
            tokens,
            to - 1,
            TokenType::RightBrace,
        ) && methods_spelled(s.methods@, s.methods@.len() as int, tokens, from + 3, to - 1),
    }
}

/// The tokens from `from` up to `to` spell a `for` loop, and the statements are those of
/// the block that it stands for: the initializer, where there is one, and a `while` whose
/// body is a block of the loop's body and its step. A condition left out is `true`.
pub open spec fn loop_spelled(statements: Seq<Stmt>, tokens: Seq<Token>, from: int, to: int) -> bool
    decreases statements, 0nat,
{
    &&& 1 <= statements.len() <= 2
    &&& kind_at(tokens, from, TokenType::For)
    &&& kind_at(tokens, from + 1, TokenType::LeftParen)
    &&& match statements[statements.len() - 1] {
        Stmt::While(repeat) => match repeat.body {
            Stmt::Block(inner) => 1 <= inner.statements@.len() <= 2 && exists|
                first: int,
                second: int,
                close: int,
            |
                #[trigger] between(from + 3, first, second) && #[trigger] kind_at(
                    tokens,
                    second,
                    TokenType::Semicolon,
                ) && #[trigger] kind_at(tokens, close, TokenType::RightParen) && (if statements.len()
                    == 1 {
                    kind_at(tokens, from + 2, TokenType::Semicolon) && first == from + 3
                } else {
                    (statements[0] is Variable || statements[0] is Expression) && stmt_spelled(
                        statements[0],
                        tokens,
                        from + 2,
                        first,
                    )
                }) && (if first == second {
                    repeat.condition matches Expr::Literal(always) && always.value@ == Value::Bool(
                        true,
                    )
                } else {
                    expr_spelled(repeat.condition, tokens, first, second)
                }) && (if close == second + 1 {
                    inner.statements@.len() == 1
                } else {
                    inner.statements@.len() == 2 && (
                    inner.statements@[1] matches Stmt::Expression(step) && expr_spelled(
                        step.expression,
                        tokens,
                        second + 1,
                        close,
                    ))
                }) && stmt_spelled(inner.statements@[0], tokens, close + 1, to),
            _ => false,
        },
        _ => false,
    }
}

/// The tokens from `from` up to `to` spell a function behind its keyword: its name, its
/// parameters in parentheses, and its body in braces.
pub open spec fn function_spelled(function: Function, tokens: Seq<Token>, from: int, to: int) -> bool
    decreases function, 0nat,
{
    let close = params_end(function.params@, from + 2);
    &&& 0 <= from
    &&& to <= tokens.len()
    &&& token_at(tokens, from, TokenType::Identifier, function.name)
    &&& kind_at(tokens, from + 1, TokenType::LeftParen)
    &&& params_spelled(function.params@, tokens, from + 2)
    &&& kind_at(tokens, close, TokenType::RightParen)
    &&& kind_at(tokens, close + 1, TokenType::LeftBrace)
    &&& kind_at(tokens, to - 1, TokenType::RightBrace)
    &&& block_spelled(function.body@, function.body@.len() as int, tokens, close + 2, to - 1)
}

/// The tokens from `from` up to `to` spell the first `count` statements of a sequence,
/// one behind the other.
pub open spec fn block_spelled(
    statements: Seq<Stmt>,
    count: int,
    tokens: Seq<Token>,
    from: int,
    to: int,
) -> bool
    decreases statements, count,
{
    if count <= 0 || count > statements.len() {
        count == 0 && from == to
    } else {
        exists|at: int| #[trigger]
            between(from, at, to) && block_spelled(statements, count - 1, tokens, from, at)
                && stmt_spelled(statements[count - 1], tokens, at, to)
    }
}

/// The tokens from `from` up to `to` spell the first `count` methods of a class, one
/// behind the other.
pub open spec fn methods_spelled(
    methods: Seq<Function>,
    count: int,
    tokens: Seq<Token>,
    from: int,
    to: int,
) -> bool
    decreases methods, count,
{
    if count <= 0 || count > methods.len() {
        count == 0 && from == to
    } else {
        exists|at: int| #[trigger]
            between(from, at, to) && methods_spelled(methods, count - 1, tokens, from, at)
                && function_spelled(methods[count - 1], tokens, at, to)
    }
}

/// The spelling of the first statements of a sequence does not look at the later ones.
pub proof fn lemma_block_spelled_prefix(
    first: Seq<Stmt>,
    second: Seq<Stmt>,
    count: int,
    tokens: Seq<Token>,
    from: int,
    to: int,
)
    requires
        0 <= count <= first.len(),
        count <= second.len(),
        forall|i: int| 0 <= i < count ==> first[i] == second[i],
    ensures
        block_spelled(first, count, tokens, from, to) == block_spelled(second, count, tokens, from, to),
    decreases count,
{
    if count > 0 {
        assert forall|at: int| #[trigger] between(from, at, to) implies block_spelled(
            first,
            count - 1,
            tokens,
            from,
            at,
        ) == block_spelled(second, count - 1, tokens, from, at) by {
            lemma_block_spelled_prefix(first, second, count - 1, tokens, from, at);
        }
    }
}

/// The spelling of the first methods of a class does not look at the later ones.
pub proof fn lemma_methods_spelled_prefix(
    first: Seq<Function>,
    second: Seq<Function>,
    count: int,
    tokens: Seq<Token>,
    from: int,
    to: int,
)
    requires
        0 <= count <= first.len(),
        count <= second.len(),
        forall|i: int| 0 <= i < count ==> first[i] == second[i],
    ensures
        methods_spelled(first, count, tokens, from, to) == methods_spelled(
            second,
            count,
            tokens,
            from,
            to,
        ),
    decreases count,
{
    if count > 0 {
        assert forall|at: int| #[trigger] between(from, at, to) implies methods_spelled(
            first,
            count - 1,
            tokens,
            from,
            at,
        ) == methods_spelled(second, count - 1, tokens, from, at) by {
            lemma_methods_spelled_prefix(first, second, count - 1, tokens, from, at);
        }
    }
}

/// The spelling of the first expressions of a list does not look at the later ones.
pub proof fn lemma_list_spelled_prefix(
    first: Seq<Expr>,
    second: Seq<Expr>,
    count: int,
    tokens: Seq<Token>,
    from: int,
    to: int,
)
    requires
        0 <= count <= first.len(),
        count <= second.len(),
        forall|i: int| 0 <= i < count ==> first[i] == second[i],
    ensures
        list_spelled(first, count, tokens, from, to) == list_spelled(second, count, tokens, from, to),
    decreases count,
{
    if count > 1 {
        assert forall|at: int| #[trigger]
            kind_at(tokens, at, TokenType::Comma) implies list_spelled(first, count - 1, tokens, from, at) == list_spelled(
                second,
                count - 1,
                tokens,
                from,
                at,
            ) by {
            lemma_list_spelled_prefix(first, second, count - 1, tokens, from, at);
        }
    }
}

} // verus!
