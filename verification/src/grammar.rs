//! The grammar, as functions from source bytes and a position to a tree.
//!
//! ```text
//! Program     = { Eol | Declaration (Eol | end) }
//! Block       = "{" { Eol | Statement Eol } [ Statement ] "}"
//! Statement   = Declaration | Expr
//! Declaration = "var" Identifier [ "=" Expr ]
//! Expr        = Identifier "=" Expr | Binary(1)
//! Binary(n)   = Operand { Operator(power >= n) Binary(power + 1) }
//! Operand     = Primary { "(" [ Expr { "," Expr } ] ")" }
//! Primary     = Str | Num | "true" | "false" | Identifier
//!             | "do" Block | "loop" Block
//!             | ("not" | "!" | "-") Primary | "(" Expr ")"
//! ```
//!
//! A position is the byte offset behind the last token taken. Every function
//! here reads on from such a position and gives the tree together with the
//! position behind it, or the one error that stops the parse.

use vstd::prelude::*;
use crate::ast_nodes::{BinaryOp, LiteralView, Syntax, Tree, UnaryOp};
use crate::lang_errors::{LangError, Reason};
use crate::spans::Span;
use crate::text::span_text;
use crate::token_lexer::{lemma_scan_advances, scan, span_of, Lexeme};
use crate::tokens::{Token, TokenKind};

verus! {

/// A tree and the position behind it, or the error that stopped the parse.
pub type Parsed = Result<(Tree, nat), LangError>;

/// Several trees and the position behind them, or the error.
pub type ParsedList = Result<(Seq<Tree>, nat), LangError>;

/// The lexeme that a scan from `pos` gives.
pub open spec fn peek(bytes: Seq<u8>, pos: nat) -> Lexeme {
    scan(bytes, pos as int).0
}

/// The position behind the lexeme that a scan from `pos` gives.
pub open spec fn after(bytes: Seq<u8>, pos: nat) -> nat {
    scan(bytes, pos as int).1 as nat
}

/// A scan that gives a lexeme ends behind the position it started from.
pub proof fn lemma_after(bytes: Seq<u8>, pos: nat)
    ensures
        peek(bytes, pos) is Some ==> pos < after(bytes, pos) <= bytes.len(),
        peek(bytes, pos) is None ==> after(bytes, pos) >= pos,
{
    lemma_scan_advances(bytes, pos);
}

/// The position `next` lies behind `pos` and inside the text. That holds of
/// every position that a parse started at `pos` has reached, as the laws on
/// the placement of trees show, so the tests on it below never fail where
/// the text is well formed; they let the grammar be seen to terminate.
pub open spec fn ahead(bytes: Seq<u8>, pos: nat, next: nat) -> bool {
    pos < next <= bytes.len()
}

/// The failure for a reason at a span.
pub open spec fn error_at(reason: Reason, span: Span) -> LangError {
    LangError { reason, span }
}

/// The empty span at the end of the input.
pub open spec fn end_span(bytes: Seq<u8>) -> Span {
    span_of(bytes.len() as int, bytes.len() as int)
}

/// The next token, where one is needed: the end of the input is an error.
pub open spec fn need_token(bytes: Seq<u8>, pos: nat) -> Result<Token, LangError> {
    match peek(bytes, pos) {
        Some(Ok(token)) => Ok(token),
        Some(Err(error)) => Err(error),
        None => Err(error_at(Reason::UnexpectedEnd, end_span(bytes))),
    }
}

/// The binary operator that a token denotes.
pub open spec fn binary_op(kind: TokenKind) -> Option<BinaryOp> {
    match kind {
        TokenKind::Plus => Some(BinaryOp::Add),
        TokenKind::Minus => Some(BinaryOp::Subtract),
        TokenKind::Star => Some(BinaryOp::Multiply),
        TokenKind::Slash => Some(BinaryOp::Divide),
        TokenKind::Percent => Some(BinaryOp::Modulo),
        TokenKind::Greater => Some(BinaryOp::Greater),
        TokenKind::GreaterEqual => Some(BinaryOp::GreaterEqual),
        TokenKind::Lesser => Some(BinaryOp::Lesser),
        TokenKind::LesserEqual => Some(BinaryOp::LesserEqual),
        TokenKind::DoubleEqual => Some(BinaryOp::IsEqual),
        TokenKind::BangEqual => Some(BinaryOp::IsDifferent),
        TokenKind::And | TokenKind::Ampersand => Some(BinaryOp::And),
        TokenKind::Or | TokenKind::Pipe => Some(BinaryOp::Or),
        _ => None,
    }
}

/// How tightly a binary operator binds: `or` least, then `and`, equality,
/// the relations, the additive and the multiplicative operators.
pub open spec fn binding_power(op: BinaryOp) -> nat {
    match op {
        BinaryOp::Or => 1,
        BinaryOp::And => 2,
        BinaryOp::IsEqual | BinaryOp::IsDifferent => 3,
        BinaryOp::Greater | BinaryOp::GreaterEqual | BinaryOp::Lesser | BinaryOp::LesserEqual => 4,
        BinaryOp::Add | BinaryOp::Subtract => 5,
        BinaryOp::Multiply | BinaryOp::Divide | BinaryOp::Modulo => 6,
    }
}

/// The unary operator that a token denotes.
pub open spec fn unary_op(kind: TokenKind) -> Option<UnaryOp> {
    match kind {
        TokenKind::Not | TokenKind::Bang => Some(UnaryOp::Not),
        TokenKind::Minus => Some(UnaryOp::Negative),
        _ => None,
    }
}

/// The span of a string literal without its two quotes.
pub open spec fn inside_quotes(span: Span) -> Span {
    span_of(span.start + 1, span.end - 1)
}

/// A node with its span.
pub open spec fn leaf(node: Syntax, span: Span) -> Tree {
    Tree { node, span }
}

/// The node for a token that is a whole primary by itself.
pub open spec fn atom(bytes: Seq<u8>, token: Token) -> Option<Syntax> {
    match token.kind {
        TokenKind::Str => Some(
            Syntax::Literal(LiteralView::Str(span_text(bytes, inside_quotes(token.span)))),
        ),
        TokenKind::Num => Some(Syntax::Literal(LiteralView::Number(span_text(bytes, token.span)))),
        TokenKind::True => Some(Syntax::Literal(LiteralView::Bool(true))),
        TokenKind::False => Some(Syntax::Literal(LiteralView::Bool(false))),
        TokenKind::Identifier => Some(Syntax::Variable { name: span_text(bytes, token.span) }),
        _ => None,
    }
}

/// What must follow the expression inside parentheses: the closing one.
pub open spec fn close_paren(bytes: Seq<u8>, open: Token, inner: Tree, pos: nat) -> Parsed {
    match peek(bytes, pos) {
        None => Err(error_at(Reason::UnterminatedParen, open.span)),
        Some(Err(error)) => Err(error),
        Some(Ok(token)) => if token.kind is RParen {
            Ok(
                (
                    Tree {
                        node: inner.node,
                        span: span_of(open.span.start as int, after(bytes, pos) as int),
                    },
                    after(bytes, pos),
                ),
            )
        } else {
            Err(
                error_at(
                    Reason::Expected { expected: TokenKind::RParen, found: token.kind },
                    token.span,
                ),
            )
        },
    }
}

/// A primary.
pub open spec fn primary(bytes: Seq<u8>, pos: nat) -> Parsed
    decreases bytes.len() - pos, 0int,
{
    match need_token(bytes, pos) {
        Err(error) => Err(error),
        Ok(token) => {
            let p1 = after(bytes, pos);
            if atom(bytes, token) is Some {
                Ok((leaf(atom(bytes, token)->0, token.span), p1))
            } else if token.kind is Func {
                Err(error_at(Reason::UnsupportedSyntax, token.span))
            } else if token.kind is Do || token.kind is Loop || unary_op(token.kind) is Some
                || token.kind is LParen {
                proof {
                    lemma_after(bytes, pos);
                }
                compound(bytes, token, p1)
            } else {
                Err(error_at(Reason::UnexpectedToken { found: token.kind }, token.span))
            }
        },
    }
}

/// A primary that holds another expression or a block, from behind its
/// first token: `do` or `loop` with its block, a unary operator with its
/// operand, an expression in parentheses.
pub open spec fn compound(bytes: Seq<u8>, first: Token, pos: nat) -> Parsed
    decreases bytes.len() - pos, 9int,
{
    if first.kind is Do || first.kind is Loop {
        match block(bytes, pos) {
            Err(error) => Err(error),
            Ok((body, p2)) => Ok(
                (
                    Tree {
                        node: if first.kind is Do {
                            Syntax::DoBlock { body: Box::new(body) }
                        } else {
                            Syntax::Loop { body: Box::new(body) }
                        },
                        span: span_of(first.span.start as int, p2 as int),
                    },
                    p2,
                ),
            ),
        }
    } else if unary_op(first.kind) is Some {
        match primary(bytes, pos) {
            Err(error) => Err(error),
            Ok((operand, p2)) => Ok(
                (
                    Tree {
                        node: Syntax::UnaryExpr {
                            op: unary_op(first.kind)->0,
                            operand: Box::new(operand),
                        },
                        span: span_of(first.span.start as int, p2 as int),
                    },
                    p2,
                ),
            ),
        }
    } else {
        match expr(bytes, pos) {
            Err(error) => Err(error),
            Ok((inner, p2)) => close_paren(bytes, first, inner, p2),
        }
    }
}

/// A primary and the calls made of it.
pub open spec fn operand(bytes: Seq<u8>, pos: nat) -> Parsed
    decreases bytes.len() - pos, 1int,
{
    match primary(bytes, pos) {
        Err(error) => Err(error),
        Ok((callee, p1)) => if ahead(bytes, pos, p1) {
            calls(bytes, callee, p1)
        } else {
            Ok((callee, p1))
        },
    }
}

/// The argument lists that follow a callee, each making a call of what
/// stands before it.
pub open spec fn calls(bytes: Seq<u8>, callee: Tree, pos: nat) -> Parsed
    decreases bytes.len() - pos, 0int,
{
    match peek(bytes, pos) {
        Some(Err(error)) => Err(error),
        Some(Ok(token)) => if token.kind is LParen {
            proof {
                lemma_after(bytes, pos);
            }
            match arguments(bytes, after(bytes, pos), token.span) {
                Err(error) => Err(error),
                Ok((args, p2)) => {
                    let call = Tree {
                        node: Syntax::Call { callee: Box::new(callee), args },
                        span: span_of(callee.span.start as int, p2 as int),
                    };
                    if ahead(bytes, pos, p2) {
                        calls(bytes, call, p2)
                    } else {
                        Ok((call, p2))
                    }
                },
            }
        } else {
            Ok((callee, pos))
        },
        None => Ok((callee, pos)),
    }
}

/// The arguments of a call, from behind the opening parenthesis to behind
/// the closing one.
pub open spec fn arguments(bytes: Seq<u8>, pos: nat, open: Span) -> ParsedList
    decreases bytes.len() - pos, 6int,
{
    match peek(bytes, pos) {
        None => Err(error_at(Reason::UnterminatedParen, open)),
        Some(Err(error)) => Err(error),
        Some(Ok(token)) => if token.kind is RParen {
            Ok((Seq::empty(), after(bytes, pos)))
        } else {
            more_arguments(bytes, pos, Seq::empty(), open)
        },
    }
}

/// One argument and those after it, added to `done`.
pub open spec fn more_arguments(bytes: Seq<u8>, pos: nat, done: Seq<Tree>, open: Span) -> ParsedList
    decreases bytes.len() - pos, 5int,
{
    match expr(bytes, pos) {
        Err(error) => Err(error),
        Ok((arg, p1)) => match peek(bytes, p1) {
            None => Err(error_at(Reason::UnterminatedParen, open)),
            Some(Err(error)) => Err(error),
            Some(Ok(token)) => if token.kind is RParen {
                Ok((done.push(arg), after(bytes, p1)))
            } else if token.kind is Comma && ahead(bytes, pos, after(bytes, p1)) {
                more_arguments(bytes, after(bytes, p1), done.push(arg), open)
            } else {
                Err(error_at(Reason::UnexpectedToken { found: token.kind }, token.span))
            },
        },
    }
}

/// An operand and the operators of power `min` or more that follow it.
pub open spec fn binary(bytes: Seq<u8>, pos: nat, min: nat) -> Parsed
    decreases bytes.len() - pos, 2int,
{
    match operand(bytes, pos) {
        Err(error) => Err(error),
        Ok((left, p1)) => if ahead(bytes, pos, p1) {
            binary_rest(bytes, left, p1, min)
        } else {
            Ok((left, p1))
        },
    }
}

/// The operators of power `min` or more that follow `left`, applied from
/// left to right. The right operand of each takes only operators that bind
/// more tightly, so operators of one power group to the left.
pub open spec fn binary_rest(bytes: Seq<u8>, left: Tree, pos: nat, min: nat) -> Parsed
    decreases bytes.len() - pos, 0int,
{
    match peek(bytes, pos) {
        Some(Err(error)) => Err(error),
        Some(Ok(token)) => match binary_op(token.kind) {
            Some(op) => if binding_power(op) >= min {
                proof {
                    lemma_after(bytes, pos);
                }
                match binary(bytes, after(bytes, pos), binding_power(op) + 1) {
                    Err(error) => Err(error),
                    Ok((right, p2)) => {
                        let joined = Tree {
                            node: Syntax::BinaryExpr {
                                op,
                                left: Box::new(left),
                                right: Box::new(right),
                            },
                            span: span_of(left.span.start as int, p2 as int),
                        };
                        if ahead(bytes, pos, p2) {
                            binary_rest(bytes, joined, p2, min)
                        } else {
                            Ok((joined, p2))
                        }
                    },
                }
            } else {
                Ok((left, pos))
            },
            None => Ok((left, pos)),
        },
        None => Ok((left, pos)),
    }
}

/// Whether the tokens from `pos` to `end` are one identifier and no more.
pub open spec fn bare_identifier(bytes: Seq<u8>, pos: nat, end: nat) -> bool {
    match peek(bytes, pos) {
        Some(Ok(token)) => token.kind is Identifier && after(bytes, pos) == end,
        _ => false,
    }
}

/// An expression. Where `=` follows it, it must be one bare identifier:
/// the variable that is assigned the expression behind the `=`.
pub open spec fn expr(bytes: Seq<u8>, pos: nat) -> Parsed
    decreases bytes.len() - pos, 3int,
{
    match binary(bytes, pos, 1) {
        Err(error) => Err(error),
        Ok((left, p1)) => match peek(bytes, p1) {
            Some(Err(error)) => Err(error),
            Some(Ok(token)) => if token.kind is Equal {
                if bare_identifier(bytes, pos, p1) && ahead(bytes, pos, after(bytes, p1)) {
                    match expr(bytes, after(bytes, p1)) {
                        Err(error) => Err(error),
                        Ok((value, p2)) => Ok(
                            (
                                Tree {
                                    node: Syntax::Assignment {
                                        name: span_text(bytes, left.span),
                                        value: Box::new(value),
                                    },
                                    span: span_of(left.span.start as int, p2 as int),
                                },
                                p2,
                            ),
                        ),
                    }
                } else {
                    Err(error_at(Reason::InvalidAssignmentTarget, token.span))
                }
            } else {
                Ok((left, p1))
            },
            None => Ok((left, p1)),
        },
    }
}

/// A declaration from behind its `var`, which started at `start`.
pub open spec fn declaration(bytes: Seq<u8>, pos: nat, start: int) -> Parsed
    decreases bytes.len() - pos, 4int,
{
    match need_token(bytes, pos) {
        Err(error) => Err(error),
        Ok(name) => if name.kind is Identifier {
            proof {
                lemma_after(bytes, pos);
            }
            initialized(bytes, after(bytes, pos), name, start)
        } else {
            Err(
                error_at(
                    Reason::Expected { expected: TokenKind::Identifier, found: name.kind },
                    name.span,
                ),
            )
        },
    }
}

/// A declaration from behind the name of its variable: `=` and the initial
/// value follow, or the statement ends, and then the variable starts as
/// null. What ends the statement is not taken.
pub open spec fn initialized(bytes: Seq<u8>, pos: nat, name: Token, start: int) -> Parsed
    decreases bytes.len() - pos, 4int,
{
    let bare = Ok(
        (
            Tree {
                node: Syntax::Declaration {
                    name: span_text(bytes, name.span),
                    initializer: Box::new(leaf(Syntax::Literal(LiteralView::Null), name.span)),
                },
                span: span_of(start, pos as int),
            },
            pos,
        ),
    );
    match peek(bytes, pos) {
        None => bare,
        Some(Err(error)) => Err(error),
        Some(Ok(token)) => if token.kind is Equal {
            proof {
                lemma_after(bytes, pos);
            }
            match expr(bytes, after(bytes, pos)) {
                Err(error) => Err(error),
                Ok((initializer, p2)) => Ok(
                    (
                        Tree {
                            node: Syntax::Declaration {
                                name: span_text(bytes, name.span),
                                initializer: Box::new(initializer),
                            },
                            span: span_of(start, p2 as int),
                        },
                        p2,
                    ),
                ),
            }
        } else if token.kind is Eol || token.kind is RBrace {
            bare
        } else {
            Err(error_at(Reason::InvalidDeclaration, token.span))
        },
    }
}

/// A statement: a declaration where it starts with `var`, else an expression.
pub open spec fn statement(bytes: Seq<u8>, pos: nat) -> Parsed
    decreases bytes.len() - pos, 5int,
{
    match peek(bytes, pos) {
        Some(Ok(token)) => if token.kind is Var {
            proof {
                lemma_after(bytes, pos);
            }
            declaration(bytes, after(bytes, pos), token.span.start as int)
        } else {
            expr(bytes, pos)
        },
        _ => expr(bytes, pos),
    }
}

/// A statement of a block and what ends it, with the position behind that:
/// an end of line (`false`: the block goes on), or the closing brace
/// (`true`: the statement is the block's tail).
pub open spec fn item(bytes: Seq<u8>, pos: nat, open: Span) -> Result<(Tree, bool, nat), LangError>
    decreases bytes.len() - pos, 6int,
{
    match statement(bytes, pos) {
        Err(error) => Err(error),
        Ok((tree, p1)) => match peek(bytes, p1) {
            None => Err(error_at(Reason::UnterminatedBlock, open)),
            Some(Err(error)) => Err(error),
            Some(Ok(closer)) => if closer.kind is Eol {
                Ok((tree, false, after(bytes, p1)))
            } else if closer.kind is RBrace {
                Ok((tree, true, after(bytes, p1)))
            } else {
                Err(error_at(Reason::UnexpectedToken { found: closer.kind }, closer.span))
            },
        },
    }
}

/// A block, from its opening brace to behind its closing one.
pub open spec fn block(bytes: Seq<u8>, pos: nat) -> Parsed
    decreases bytes.len() - pos, 8int,
{
    match need_token(bytes, pos) {
        Err(error) => Err(error),
        Ok(token) => if token.kind is LBrace {
            proof {
                lemma_after(bytes, pos);
            }
            block_items(bytes, after(bytes, pos), Seq::empty(), token.span)
        } else {
            Err(
                error_at(
                    Reason::Expected { expected: TokenKind::LBrace, found: token.kind },
                    token.span,
                ),
            )
        },
    }
}

/// The rest of a block that has the statements `done` so far. A statement
/// that the closing brace follows with no end of line between is the tail.
pub open spec fn block_items(bytes: Seq<u8>, pos: nat, done: Seq<Tree>, open: Span) -> Parsed
    decreases bytes.len() - pos, 7int,
{
    match peek(bytes, pos) {
        None => Err(error_at(Reason::UnterminatedBlock, open)),
        Some(Err(error)) => Err(error),
        Some(Ok(token)) => if token.kind is RBrace {
            Ok(
                (
                    Tree {
                        node: Syntax::Block { statements: done, tail: None },
                        span: span_of(open.start as int, after(bytes, pos) as int),
                    },
                    after(bytes, pos),
                ),
            )
        } else if token.kind is Eol {
            proof {
                lemma_after(bytes, pos);
            }
            block_items(bytes, after(bytes, pos), done, open)
        } else {
            match item(bytes, pos, open) {
                Err(error) => Err(error),
                Ok((tree, last, p2)) => if last || !ahead(bytes, pos, p2) {
                    Ok(
                        (
                            Tree {
                                node: Syntax::Block { statements: done, tail: Some(Box::new(tree)) },
                                span: span_of(open.start as int, p2 as int),
                            },
                            p2,
                        ),
                    )
                } else {
                    block_items(bytes, p2, done.push(tree), open)
                },
            }
        },
    }
}

/// A top-level declaration from behind its `var`, together with the end of
/// line that closes it; the end of the text closes it too.
pub open spec fn closed_declaration(bytes: Seq<u8>, pos: nat, start: int) -> Parsed {
    match declaration(bytes, pos, start) {
        Err(error) => Err(error),
        Ok((tree, p1)) => match peek(bytes, p1) {
            None => Ok((tree, p1)),
            Some(Err(error)) => Err(error),
            Some(Ok(closer)) => if closer.kind is Eol {
                Ok((tree, after(bytes, p1)))
            } else {
                Err(
                    error_at(
                        Reason::Expected { expected: TokenKind::Eol, found: closer.kind },
                        closer.span,
                    ),
                )
            },
        },
    }
}

/// The next declaration of a program with the position behind the end of
/// line that closes it, or `None` where only blank lines are left.
#[verifier::opaque]
pub open spec fn top(bytes: Seq<u8>, pos: nat) -> Option<Parsed>
    decreases bytes.len() - pos,
{
    match peek(bytes, pos) {
        None => None,
        Some(Err(error)) => Some(Err(error)),
        Some(Ok(token)) => if token.kind is Eol {
            proof {
                lemma_after(bytes, pos);
            }
            top(bytes, after(bytes, pos))
        } else if token.kind is Var {
            Some(closed_declaration(bytes, after(bytes, pos), token.span.start as int))
        } else if token.kind is Func {
            Some(Err(error_at(Reason::UnsupportedSyntax, token.span)))
        } else {
            Some(Err(error_at(Reason::UnexpectedToken { found: token.kind }, token.span)))
        },
    }
}

/// The declarations of a program from `pos` on, added to `done`.
pub open spec fn declarations(bytes: Seq<u8>, pos: nat, done: Seq<Tree>) -> Result<
    Seq<Tree>,
    LangError,
>
    decreases bytes.len() - pos,
{
    match top(bytes, pos) {
        None => Ok(done),
        Some(Err(error)) => Err(error),
        Some(Ok((tree, p1))) => if ahead(bytes, pos, p1) {
            declarations(bytes, p1, done.push(tree))
        } else {
            Ok(done.push(tree))
        },
    }
}

/// The rest of a program from `pos` on: a block of its top-level
/// declarations that spans the text from there to its end.
pub open spec fn program_from(bytes: Seq<u8>, pos: nat) -> Result<Tree, LangError> {
    match declarations(bytes, pos, Seq::empty()) {
        Err(error) => Err(error),
        Ok(statements) => Ok(
            Tree {
                node: Syntax::Block { statements, tail: None },
                span: span_of(pos as int, bytes.len() as int),
            },
        ),
    }
}

/// A whole program.
pub open spec fn program(bytes: Seq<u8>) -> Result<Tree, LangError> {
    program_from(bytes, 0)
}

/// Only ends of line are left from `pos` on; else the first other lexeme.
pub open spec fn rest_is_blank(bytes: Seq<u8>, pos: nat) -> Result<(), LangError>
    decreases bytes.len() - pos,
{
    match peek(bytes, pos) {
        None => Ok(()),
        Some(Err(error)) => Err(error),
        Some(Ok(token)) => if token.kind is Eol {
            proof {
                lemma_after(bytes, pos);
            }
            rest_is_blank(bytes, after(bytes, pos))
        } else {
            Err(error_at(Reason::UnexpectedToken { found: token.kind }, token.span))
        },
    }
}

/// A text that holds one statement and nothing else.
pub open spec fn single(bytes: Seq<u8>) -> Result<Tree, LangError> {
    match statement(bytes, 0) {
        Err(error) => Err(error),
        Ok((tree, p1)) => match rest_is_blank(bytes, p1) {
            Err(error) => Err(error),
            Ok(_) => Ok(tree),
        },
    }
}

} // verus!
