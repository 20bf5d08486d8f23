//! Which tokens parse.
//!
//! For every part of the grammar a function says whether that part stands at a place in
//! the tokens, and where it ends. The binary operators are read in levels, from the
//! tightest to the loosest; an expression of a level is a chain of expressions of the
//! level below it. What can be assigned to is a variable, a property or an item of an
//! array, so the functions for expressions also say which of these the expression is.

use vstd::prelude::*;
use crate::expressions::Expr;
use crate::grammar::{breaks, compound, stepping};
use crate::token::{Token, TokenType};

verus! {

/// What an expression is, seen as the target of an assignment.
pub enum Target {
    /// A variable.
    Variable,
    /// A property of an object.
    Property,
    /// An item of an array.
    Item,
    /// Nothing that can be assigned to.
    Other,
}

/// The place behind an expression, and what the expression is as a target.
pub ghost struct Reach {
    pub at: int,
    pub target: Target,
}

/// What a tree is as the target of an assignment.
pub open spec fn target_of(expr: Expr) -> Target {
    match expr {
        Expr::Variable(_) => Target::Variable,
        Expr::Get(_) => Target::Property,
        Expr::Index(_) => Target::Item,
        _ => Target::Other,
    }
}

/// An expression was found that ends at a place and is the given target.
pub open spec fn reaches(found: Option<Reach>, at: int, target: Target) -> bool {
    found == Some(Reach { at, target })
}

/// The level of `*`, `/` and `%`.
pub const FACTOR: u8 = 1;

/// The level of `+` and `-`.
pub const TERM: u8 = 2;

/// The level of `<`, `<=`, `>` and `>=`.
pub const COMPARISON: u8 = 3;

/// The level of `==` and `!=`.
pub const EQUALITY: u8 = 4;

/// The level of `and`.
pub const AND: u8 = 5;

/// The level of `or`.
pub const OR: u8 = 6;

/// Whether a token of the kind is an operator of the level.
pub open spec fn operator_of(level: nat, kind: TokenType) -> bool {
    if level == FACTOR {
        kind == TokenType::Slash || kind == TokenType::Star || kind == TokenType::Modulo
    } else if level == TERM {
        kind == TokenType::Minus || kind == TokenType::Plus
    } else if level == COMPARISON {
        kind == TokenType::Greater || kind == TokenType::GreaterEqual || kind == TokenType::Less
            || kind == TokenType::LessEqual
    } else if level == EQUALITY {
        kind == TokenType::BangEqual || kind == TokenType::EqualEqual
    } else if level == AND {
        kind == TokenType::And
    } else if level == OR {
        kind == TokenType::Or
    } else {
        false
    }
}

/// Whether the tokens have ended at a place: behind the last token, or at the token that
/// marks the end of the text.
pub open spec fn ended_at(tokens: Seq<Token>, at: int) -> bool {
    at < 0 || at >= tokens.len() || tokens[at].token_type == TokenType::Eof
}

/// Whether the tokens have not ended at a place and the token there is of a kind.
pub open spec fn next_kind(tokens: Seq<Token>, at: int, kind: TokenType) -> bool {
    !ended_at(tokens, at) && tokens[at].token_type == kind
}

/// A later place within the tokens.
pub open spec fn ahead(tokens: Seq<Token>, from: int, to: int) -> bool {
    from < to <= tokens.len()
}

/// The end of a primary expression at a place: a literal, a name, `this`, `super` with
/// its method, an expression in parentheses, or an array in square brackets.
pub open spec fn primary_end(tokens: Seq<Token>, at: int) -> Option<Reach>
    decreases tokens.len() - at, 0nat,
{
    if ended_at(tokens, at) {
        None
    } else {
        let kind = tokens[at].token_type;
        if kind == TokenType::False || kind == TokenType::True || kind == TokenType::Null || kind
            == TokenType::Number || kind == TokenType::String || kind == TokenType::This {
            Some(Reach { at: at + 1, target: Target::Other })
        } else if kind == TokenType::Super {
            if next_kind(tokens, at + 1, TokenType::Dot) && next_kind(
                tokens,
                at + 2,
                TokenType::Identifier,
            ) {
                Some(Reach { at: at + 3, target: Target::Other })
            } else {
                None
            }
        } else if kind == TokenType::Identifier {
            Some(Reach { at: at + 1, target: Target::Variable })
        } else if kind == TokenType::LeftParen {
            match expression_end(tokens, at + 1) {
                Some(inner) => if next_kind(tokens, inner.at, TokenType::RightParen) {
                    Some(Reach { at: inner.at + 1, target: Target::Other })
                } else {
                    None
                },
                None => None,
            }
        } else if kind == TokenType::LeftSquare {
            match list_end(tokens, at + 1, TokenType::RightSquare) {
                Some(close) => if next_kind(tokens, close, TokenType::RightSquare) {
                    Some(Reach { at: close + 1, target: Target::Other })
                } else {
                    None
                },
                None => None,
            }
        } else {
            None
        }
    }
}

/// The end of a list of expressions with commas between them, which is empty where the
/// token that closes it stands at the place.
pub open spec fn list_end(tokens: Seq<Token>, at: int, closing: TokenType) -> Option<int>
    decreases tokens.len() - at, 22nat,
{
    if next_kind(tokens, at, closing) {
        Some(at)
    } else {
        match expression_end(tokens, at) {
            Some(first) => if ahead(tokens, at, first.at) {
                list_rest(tokens, first.at)
            } else {
                None
            },
            None => None,
        }
    }
}

/// The end of a list that has been read up to a place: every comma is followed by one
/// more expression.
pub open spec fn list_rest(tokens: Seq<Token>, at: int) -> Option<int>
    decreases tokens.len() - at, 0nat,
{
    if next_kind(tokens, at, TokenType::Comma) {
        match expression_end(tokens, at + 1) {
            Some(next) => if ahead(tokens, at, next.at) {
                list_rest(tokens, next.at)
            } else {
                None
            },
            None => None,
        }
    } else {
        Some(at)
    }
}

/// The end of a primary expression with the calls, properties and indexes that follow.
pub open spec fn call_end(tokens: Seq<Token>, at: int) -> Option<Reach>
    decreases tokens.len() - at, 1nat,
{
    match primary_end(tokens, at) {
        Some(first) => if ahead(tokens, at, first.at) {
            call_rest(tokens, first.at, first.target)
        } else {
            None
        },
        None => None,
    }
}

/// The end of what follows an expression that has been read up to a place and is the
/// given target: arguments in parentheses, a dot and a name, or an index in square
/// brackets, as often as one of them stands there.
pub open spec fn call_rest(tokens: Seq<Token>, at: int, target: Target) -> Option<Reach>
    decreases tokens.len() - at, 0nat,
{
    if next_kind(tokens, at, TokenType::LeftParen) {
        match list_end(tokens, at + 1, TokenType::RightParen) {
            Some(close) => if close > at && next_kind(tokens, close, TokenType::RightParen) {
                call_rest(tokens, close + 1, Target::Other)
            } else {
                None
            },
            None => None,
        }
    } else if next_kind(tokens, at, TokenType::Dot) {
        if next_kind(tokens, at + 1, TokenType::Identifier) {
            call_rest(tokens, at + 2, Target::Property)
        } else {
            None
        }
    } else if next_kind(tokens, at, TokenType::LeftSquare) {
        match expression_end(tokens, at + 1) {
            Some(index) => if index.at > at && next_kind(
                tokens,
                index.at,
                TokenType::RightSquare,
            ) {
                call_rest(tokens, index.at + 1, Target::Item)
            } else {
                None
            },
            None => None,
        }
    } else {
        Some(Reach { at, target })
    }
}

/// The end of an expression with its unary operators `!` and `-` in front.
pub open spec fn unary_end(tokens: Seq<Token>, at: int) -> Option<Reach>
    decreases tokens.len() - at, 2nat,
{
    if next_kind(tokens, at, TokenType::Bang) || next_kind(tokens, at, TokenType::Minus) {
        match unary_end(tokens, at + 1) {
            Some(operand) => Some(Reach { at: operand.at, target: Target::Other }),
            None => None,
        }
    } else {
        call_end(tokens, at)
    }
}

/// The end of an operand of a level: an expression of the level below, and below the
/// first level an expression with its unary operators.
pub open spec fn operand_end(tokens: Seq<Token>, at: int, level: nat) -> Option<Reach>
    decreases tokens.len() - at, 3 + level * 2,
{
    if level <= FACTOR {
        unary_end(tokens, at)
    } else {
        binary_end(tokens, at, (level - 1) as nat)
    }
}

/// The end of an expression of a level: operands with operators of the level between
/// them.
pub open spec fn binary_end(tokens: Seq<Token>, at: int, level: nat) -> Option<Reach>
    decreases tokens.len() - at, 4 + level * 2,
{
    if level < FACTOR {
        None
    } else {
        match operand_end(tokens, at, level) {
            Some(first) => if ahead(tokens, at, first.at) {
                binary_rest(tokens, first.at, level, first.target)
            } else {
                None
            },
            None => None,
        }
    }
}

/// The end of a chain of a level that has been read up to a place and is the given
/// target: every operator of the level is followed by one more operand.
pub open spec fn binary_rest(tokens: Seq<Token>, at: int, level: nat, target: Target) -> Option<
    Reach,
>
    decreases tokens.len() - at, 0nat,
{
    if level >= FACTOR && !ended_at(tokens, at) && operator_of(level, tokens[at].token_type) {
        match operand_end(tokens, at + 1, level) {
            Some(next) => if ahead(tokens, at, next.at) {
                binary_rest(tokens, next.at, level, Target::Other)
            } else {
                None
            },
            None => None,
        }
    } else {
        Some(Reach { at, target })
    }
}

/// The end of an assignment, or of an expression of the loosest level. Behind `=` stands
/// what is assigned, and the expression in front of it must be a target. In front of an
/// operator that assigns what it computes or steps by one, it must be a variable.
pub open spec fn assignment_end(tokens: Seq<Token>, at: int) -> Option<Reach>
    decreases tokens.len() - at, 20nat,
{
    match binary_end(tokens, at, OR as nat) {
        Some(left) => if !ahead(tokens, at, left.at) {
            None
        } else if next_kind(tokens, left.at, TokenType::Equal) {
            match assignment_end(tokens, left.at + 1) {
                Some(value) => if left.target is Other {
                    None
                } else {
                    Some(Reach { at: value.at, target: Target::Other })
                },
                None => None,
            }
        } else if !ended_at(tokens, left.at) && compound(tokens[left.at].token_type) {
            match assignment_end(tokens, left.at + 1) {
                Some(value) => if left.target is Variable {
                    Some(Reach { at: value.at, target: Target::Other })
                } else {
                    None
                },
                None => None,
            }
        } else if !ended_at(tokens, left.at) && stepping(tokens[left.at].token_type) {
            if left.target is Variable {
                Some(Reach { at: left.at + 1, target: Target::Other })
            } else {
                None
            }
        } else {
            Some(left)
        },
        None => None,
    }
}

/// The end of an expression.
pub open spec fn expression_end(tokens: Seq<Token>, at: int) -> Option<Reach>
    decreases tokens.len() - at, 21nat,
{
    assignment_end(tokens, at)
}

/// The place behind a statement whose last part ends at a place: behind a semicolon, or
/// the place itself where a statement may end without one.
pub open spec fn statement_closed(tokens: Seq<Token>, at: int) -> Option<int> {
    if next_kind(tokens, at, TokenType::Semicolon) {
        Some(at + 1)
    } else if breaks(tokens, at) {
        Some(at)
    } else {
        None
    }
}

/// The place behind a statement that ends with an expression, which begins at a place.
pub open spec fn closed_expression(tokens: Seq<Token>, at: int) -> Option<int> {
    match expression_end(tokens, at) {
        Some(value) => statement_closed(tokens, value.at),
        None => None,
    }
}

/// The end of the declaration of a variable behind its keyword: the name, and an
/// initial value behind `=` where there is one.
pub open spec fn variable_end(tokens: Seq<Token>, at: int) -> Option<int> {
    if !next_kind(tokens, at, TokenType::Identifier) {
        None
    } else if next_kind(tokens, at + 1, TokenType::Equal) {
        closed_expression(tokens, at + 2)
    } else {
        statement_closed(tokens, at + 1)
    }
}

/// The end of a `return` behind its keyword: it has no value where the statement can
/// end right there.
pub open spec fn return_end(tokens: Seq<Token>, at: int) -> Option<int> {
    if next_kind(tokens, at, TokenType::Semicolon) || breaks(tokens, at) {
        statement_closed(tokens, at)
    } else {
        closed_expression(tokens, at)
    }
}

/// The end of the names of the parameters that follow the first one: every comma is
/// followed by one more name.
pub open spec fn params_rest(tokens: Seq<Token>, at: int) -> Option<int>
    decreases tokens.len() - at,
{
    if next_kind(tokens, at, TokenType::Comma) {
        if next_kind(tokens, at + 1, TokenType::Identifier) {
            params_rest(tokens, at + 2)
        } else {
            None
        }
    } else {
        Some(at)
    }
}

/// The end of the parameters of a function behind the opening parenthesis.
pub open spec fn params_close(tokens: Seq<Token>, at: int) -> Option<int> {
    if next_kind(tokens, at, TokenType::RightParen) {
        Some(at)
    } else if next_kind(tokens, at, TokenType::Identifier) {
        params_rest(tokens, at + 1)
    } else {
        None
    }
}

/// The end of a statement that declares nothing.
pub open spec fn statement_end(tokens: Seq<Token>, at: int) -> Option<int>
    decreases tokens.len() - at, 30nat,
{
    if next_kind(tokens, at, TokenType::If) {
        if_end(tokens, at + 1)
    } else if next_kind(tokens, at, TokenType::While) {
        while_end(tokens, at + 1)
    } else if next_kind(tokens, at, TokenType::For) {
        for_end(tokens, at + 1)
    } else if next_kind(tokens, at, TokenType::Print) {
        closed_expression(tokens, at + 1)
    } else if next_kind(tokens, at, TokenType::Return) {
        return_end(tokens, at + 1)
    } else if next_kind(tokens, at, TokenType::LeftBrace) {
        block_end(tokens, at + 1)
    } else {
        closed_expression(tokens, at)
    }
}

/// The end of an `if` behind its keyword: the condition in parentheses, a statement,
/// and behind `else` another one.
pub open spec fn if_end(tokens: Seq<Token>, at: int) -> Option<int>
    decreases tokens.len() - at, 31nat,
{
    if !next_kind(tokens, at, TokenType::LeftParen) {
        None
    } else {
        match expression_end(tokens, at + 1) {
            Some(condition) => if condition.at > at && next_kind(
                tokens,
                condition.at,
                TokenType::RightParen,
            ) {
                match statement_end(tokens, condition.at + 1) {
                    Some(then) => if then > at && next_kind(tokens, then, TokenType::Else) {
                        statement_end(tokens, then + 1)
                    } else {
                        Some(then)
                    },
                    None => None,
                }
            } else {
                None
            },
            None => None,
        }
    }
}

/// The end of a `while` behind its keyword: the condition in parentheses and a
/// statement.
pub open spec fn while_end(tokens: Seq<Token>, at: int) -> Option<int>
    decreases tokens.len() - at, 31nat,
{
    if !next_kind(tokens, at, TokenType::LeftParen) {
        None
    } else {
        match expression_end(tokens, at + 1) {
            Some(condition) => if condition.at > at && next_kind(
                tokens,
                condition.at,
                TokenType::RightParen,
            ) {
                statement_end(tokens, condition.at + 1)
            } else {
                None
            },
            None => None,
        }
    }
}

/// The end of the first clause of a `for`, which begins at a place: a semicolon alone,
/// the declaration of a variable, or an expression statement.
pub open spec fn for_initializer_end(tokens: Seq<Token>, at: int) -> Option<int> {
    if next_kind(tokens, at, TokenType::Semicolon) {
        Some(at + 1)
    } else if next_kind(tokens, at, TokenType::Var) {
        variable_end(tokens, at + 1)
    } else {
        closed_expression(tokens, at)
    }
}

/// The end of a clause of a `for` that may be left out in front of the token that closes
/// it.
pub open spec fn for_clause_end(tokens: Seq<Token>, at: int, closing: TokenType) -> Option<
    int,
> {
    if next_kind(tokens, at, closing) {
        Some(at)
    } else {
        match expression_end(tokens, at) {
            Some(clause) => Some(clause.at),
            None => None,
        }
    }
}

/// The place of the parenthesis that closes the clauses of a `for`, which begin at a
/// place.
pub open spec fn for_clauses_end(tokens: Seq<Token>, at: int) -> Option<int> {
    match for_initializer_end(tokens, at) {
        Some(first) => match for_clause_end(tokens, first, TokenType::Semicolon) {
            Some(second) => if next_kind(tokens, second, TokenType::Semicolon) {
                match for_clause_end(tokens, second + 1, TokenType::RightParen) {
                    Some(close) => if next_kind(tokens, close, TokenType::RightParen) {
                        Some(close)
                    } else {
                        None
                    },
                    None => None,
                }
            } else {
                None
            },
            None => None,
        },
        None => None,
    }
}

/// The end of a `for` behind its keyword: three clauses in parentheses and a statement.
pub open spec fn for_end(tokens: Seq<Token>, at: int) -> Option<int>
    decreases tokens.len() - at, 31nat,
{
    if !next_kind(tokens, at, TokenType::LeftParen) {
        None
    } else {
        match for_clauses_end(tokens, at + 1) {
            Some(close) => if close > at && close < tokens.len() {
                statement_end(tokens, close + 1)
            } else {
                None
            },
            None => None,
        }
    }
}

/// The end of a block behind its opening brace: declarations up to the closing brace.
pub open spec fn block_end(tokens: Seq<Token>, at: int) -> Option<int>
    decreases tokens.len() - at, 41nat,
{
    if next_kind(tokens, at, TokenType::RightBrace) {
        Some(at + 1)
    } else if ended_at(tokens, at) {
        None
    } else {
        match declaration_end(tokens, at) {
            Some(next) => if ahead(tokens, at, next) {
                block_end(tokens, next)
            } else {
                None
            },
            None => None,
        }
    }
}

/// The end of a function behind its keyword, or of a method: the name, the parameters in
/// parentheses, and the body in braces.
pub open spec fn function_end(tokens: Seq<Token>, at: int) -> Option<int>
    decreases tokens.len() - at, 38nat,
{
    if next_kind(tokens, at, TokenType::Identifier) && next_kind(
        tokens,
        at + 1,
        TokenType::LeftParen,
    ) {
        match params_close(tokens, at + 2) {
            Some(close) => if close > at && next_kind(tokens, close, TokenType::RightParen)
                && next_kind(tokens, close + 1, TokenType::LeftBrace) {
                block_end(tokens, close + 2)
            } else {
                None
            },
            None => None,
        }
    } else {
        None
    }
}

/// The end of the methods of a class, which begin at a place: functions up to the
/// closing brace.
pub open spec fn methods_end(tokens: Seq<Token>, at: int) -> Option<int>
    decreases tokens.len() - at, 39nat,
{
    if next_kind(tokens, at, TokenType::RightBrace) {
        Some(at + 1)
    } else if ended_at(tokens, at) {
        None
    } else {
        match function_end(tokens, at) {
            Some(next) => if ahead(tokens, at, next) {
                methods_end(tokens, next)
            } else {
                None
            },
            None => None,
        }
    }
}

/// The end of a class behind its keyword: the name and the methods in braces.
pub open spec fn class_end(tokens: Seq<Token>, at: int) -> Option<int>
    decreases tokens.len() - at, 39nat,
{
    if next_kind(tokens, at, TokenType::Identifier) && next_kind(
        tokens,
        at + 1,
        TokenType::LeftBrace,
    ) {
        methods_end(tokens, at + 2)
    } else {
        None
    }
}

/// The end of a declaration, or of a statement that declares nothing.
pub open spec fn declaration_end(tokens: Seq<Token>, at: int) -> Option<int>
    decreases tokens.len() - at, 40nat,
{
    if next_kind(tokens, at, TokenType::Class) {
        class_end(tokens, at + 1)
    } else if next_kind(tokens, at, TokenType::Funk) {
        function_end(tokens, at + 1)
    } else if next_kind(tokens, at, TokenType::Var) {
        variable_end(tokens, at + 1)
    } else {
        statement_end(tokens, at)
    }
}

/// Whether the tokens from a place on are declarations and statements, one behind the
/// other, up to the end of the tokens.
pub open spec fn accepted(tokens: Seq<Token>, at: int) -> bool
    decreases tokens.len() - at,
{
    if ended_at(tokens, at) {
        true
    } else {
        match declaration_end(tokens, at) {
            Some(next) => ahead(tokens, at, next) && accepted(tokens, next),
            None => false,
        }
    }
}

} // verus!
