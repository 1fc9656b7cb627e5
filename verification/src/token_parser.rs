//! The parser: recursive descent over the lexer's tokens, with one token of
//! lookahead, building the syntax tree that the grammar defines.

use vstd::prelude::*;
use vstd::string::*;
use vstd::utf8::encode_utf8_valid_utf8;
use crate::ast_nodes::{
    lemma_trees_push, lemma_widen, trees_of, well_spanned, BinaryOp, Literal, LiteralView, Node,
    NodeSpan, Syntax, Tree, UnaryOp,
};
use crate::grammar::{
    after, ahead, arguments, binary, binary_op, binary_rest, binding_power, block, block_items,
    calls, declaration, expr, initialized, leaf, lemma_after, more_arguments, operand, peek,
    primary,
    statement, unary_op, Parsed, ParsedList,
};
use crate::lang_errors::{LangError, Reason};
use crate::placement::{
    all_within, lemma_all_within_empty, lemma_all_within_push, lemma_all_within_widen,
    lemma_block_spanned, lemma_call_spanned, placed, placed_from, sited,
};
use crate::spans::Span;
use crate::text::{boundary, lemma_boundary_ends, on_boundaries, slice_text, span_text};
use crate::token_lexer::{scan, scan_fits, span_of, token_start, Lexeme, Lexer};
use crate::tokens::{Token, TokenKind};

verus! {

/// The tokens of a source text, one at a time, with one token of lookahead.
pub struct TokenIter<'a> {
    pub lexer: Lexer<'a>,
    /// The lexeme that was looked at and not yet taken.
    pub peeked: Option<Lexeme>,
    /// The position behind the last token taken.
    pub at: usize,
}

impl<'a> TokenIter<'a> {
    /// The bytes of the source text.
    pub open spec fn source(&self) -> Seq<u8> {
        self.lexer.source()
    }

    /// The position behind the last token taken.
    pub open spec fn position(&self) -> nat {
        self.at as nat
    }

    /// The lookahead, where there is one, is what a scan from the position gives.
    pub open spec fn wf(&self) -> bool {
        &&& self.lexer.wf()
        &&& self.at <= self.lexer.pos
        &&& boundary(self.source(), self.at as int)
        &&& match self.peeked {
            Some(lexeme) => (lexeme, self.lexer.pos as int) == scan(self.source(), self.at as int),
            None => self.lexer.pos == self.at,
        }
    }

    /// The tokens of a text, none taken yet.
    pub fn new(input: &'a str) -> (tokens: TokenIter<'a>)
        ensures
            tokens.wf(),
            tokens.lexer.input == input,
            tokens.position() == 0,
    {
        TokenIter { lexer: Lexer::new(input), peeked: None, at: 0 }
    }

    /// The next lexeme, which stays in place.
    pub fn peek(&mut self) -> (lexeme: Lexeme)
        requires
            old(self).wf(),
        ensures
            final(self).wf(),
            final(self).lexer.input == old(self).lexer.input,
            final(self).position() == old(self).position(),
            lexeme == peek(old(self).source(), old(self).position()),
            final(self).peeked == Some(lexeme),
            scan_fits(old(self).source(), old(self).position() as int),
    {
        match self.peeked {
            Some(lexeme) => {
                proof {
                    broadcast use encode_utf8_valid_utf8;

                    crate::token_lexer::lemma_scan_sound(self.source(), self.at as int);
                }
                lexeme
            },
            None => {
                let lexeme = self.lexer.next_token();
                self.peeked = Some(lexeme);
                lexeme
            },
        }
    }

    /// Takes the next lexeme.
    pub fn next(&mut self) -> (lexeme: Lexeme)
        requires
            old(self).wf(),
        ensures
            final(self).wf(),
            final(self).lexer.input == old(self).lexer.input,
            final(self).position() == after(old(self).source(), old(self).position()),
            final(self).peeked is None,
            lexeme == peek(old(self).source(), old(self).position()),
            scan_fits(old(self).source(), old(self).position() as int),
    {
        let lexeme = self.peek();
        self.peeked = None;
        self.at = self.lexer.pos;
        lexeme
    }
}

/// The parser's result is the one that the grammar gives, and the parser
/// stands where the grammar says.
pub open spec fn yields(result: Result<NodeSpan, LangError>, next: nat, expected: Parsed) -> bool {
    match expected {
        Ok((tree, end)) => result is Ok && result->Ok_0@ == tree && next == end,
        Err(error) => result is Err && result->Err_0 == error,
    }
}

/// The parser's result is the list that the grammar gives.
pub open spec fn yields_list(
    result: Result<Vec<NodeSpan>, LangError>,
    next: nat,
    expected: ParsedList,
) -> bool {
    match expected {
        Ok((trees, end)) => result is Ok && trees_of(result->Ok_0@) == trees && next == end,
        Err(error) => result is Err && result->Err_0 == error,
    }
}

fn binary_operator(kind: TokenKind) -> (op: Option<BinaryOp>)
    ensures
        op == binary_op(kind),
{
    match kind {
        TokenKind::Plus => Some(BinaryOp::Add),
        TokenKind::Minus => Some(BinaryOp::Subtract),
        TokenKind::Star => Some(BinaryOp::Multiply),
        TokenKind::Slash => Some(BinaryOp::Divide),
        TokenKind::Percent => Some(BinaryOp::Modulo),
        TokenKind::Greater => Some(BinaryOp::Greater),
        TokenKind::GreaterEqual => Some(BinaryOp::GreaterEqual),
        TokenKind::Lesser => Some(BinaryOp::Lesser),
        TokenKind::LesserEqual => Some(BinaryOp::LesserEqual),
        TokenKind::DoubleEqual => Some(BinaryOp::IsEqual),
        TokenKind::BangEqual => Some(BinaryOp::IsDifferent),
        TokenKind::And | TokenKind::Ampersand => Some(BinaryOp::And),
        TokenKind::Or | TokenKind::Pipe => Some(BinaryOp::Or),
        _ => None,
    }
}

fn power(op: BinaryOp) -> (p: u8)
    ensures
        p == binding_power(op),
{
    match op {
        BinaryOp::Or => 1,
        BinaryOp::And => 2,
        BinaryOp::IsEqual | BinaryOp::IsDifferent => 3,
        BinaryOp::Greater | BinaryOp::GreaterEqual | BinaryOp::Lesser | BinaryOp::LesserEqual => 4,
        BinaryOp::Add | BinaryOp::Subtract => 5,
        BinaryOp::Multiply | BinaryOp::Divide | BinaryOp::Modulo => 6,
    }
}

fn unary_operator(kind: TokenKind) -> (op: Option<UnaryOp>)
    ensures
        op == unary_op(kind),
{
    match kind {
        TokenKind::Not | TokenKind::Bang => Some(UnaryOp::Not),
        TokenKind::Minus => Some(UnaryOp::Negative),
        _ => None,
    }
}

/// The declaration of a variable that starts as null.
fn bare_declaration(name: String, name_span: Span, start: usize, end: usize) -> (node: NodeSpan)
    requires
        start <= name_span.start <= name_span.end <= end,
    ensures
        node@ == (Tree {
            node: Syntax::Declaration {
                name: name@,
                initializer: Box::new(leaf(Syntax::Literal(LiteralView::Null), name_span)),
            },
            span: span_of(start as int, end as int),
        }),
        well_spanned(node@),
{
    let null = NodeSpan { node: Node::Literal(Literal::Null), span: name_span };
    assert(null@ == leaf(Syntax::Literal(LiteralView::Null), name_span));
    assert(well_spanned(null@));
    NodeSpan {
        node: Node::Declaration { name, initializer: Box::new(null) },
        span: Span { start, end },
    }
}

/// A recursive-descent parser over one source text.
pub struct Parser<'a> {
    pub input: &'a str,
    pub tokens: TokenIter<'a>,
}

impl<'a> Parser<'a> {
    /// The bytes of the source text.
    pub open spec fn source(&self) -> Seq<u8> {
        self.input.spec_bytes()
    }

    /// The position behind the last token taken.
    pub open spec fn position(&self) -> nat {
        self.tokens.position()
    }

    /// The tokens are those of the parser's text.
    pub open spec fn wf(&self) -> bool {
        &&& self.tokens.wf()
        &&& self.tokens.lexer.input == self.input
    }

    /// A parser at the start of a text.
    pub fn new(input: &'a str) -> (parser: Parser<'a>)
        ensures
            parser.wf(),
            parser.input == input,
            parser.position() == 0,
    {
        Parser { input, tokens: TokenIter::new(input) }
    }

    /// The text of the source that a token was read from.
    pub fn text(&self, token: &Token) -> (text: String)
        requires
            on_boundaries(self.source(), token.span),
        ensures
            text@ == span_text(self.source(), token.span),
    {
        slice_text(self.input, token.span)
    }

    /// The empty span at the end of the text.
    fn end_span(&self) -> (span: Span)
        requires
            self.wf(),
        ensures
            span == crate::grammar::end_span(self.source()),
            on_boundaries(self.source(), span),
    {
        let len = self.input.len();
        proof {
            broadcast use encode_utf8_valid_utf8;

            lemma_boundary_ends(self.source());
        }
        Span { start: len, end: len }
    }

    /// Takes the next token; the end of the input is an error.
    fn take(&mut self) -> (result: Result<Token, LangError>)
        requires
            old(self).wf(),
        ensures
            final(self).wf(),
            final(self).input == old(self).input,
            result == crate::grammar::need_token(old(self).source(), old(self).position()),
            result is Ok ==> final(self).position() == after(
                old(self).source(),
                old(self).position(),
            ),
            sited(old(self).source(), result),
            scan_fits(old(self).source(), old(self).position() as int),
    {
        match self.tokens.next() {
            Some(Ok(token)) => Ok(token),
            Some(Err(error)) => Err(error),
            None => Err(LangError { reason: Reason::UnexpectedEnd, span: self.end_span() }),
        }
    }

    /// The node for a token that is a whole primary by itself.
    fn parse_atom(&self, token: Token) -> (node: Option<Node>)
        requires
            self.wf(),
            on_boundaries(self.source(), token.span),
            token.kind is Str ==> token.span.start + 2 <= token.span.end && on_boundaries(
                self.source(),
                crate::grammar::inside_quotes(token.span),
            ),
        ensures
            match crate::grammar::atom(self.source(), token) {
                Some(syntax) => node is Some && node->0@ == syntax,
                None => node is None,
            },
    {
        match token.kind {
            TokenKind::Str => {
                let inside = Span { start: token.span.start + 1, end: token.span.end - 1 };
                Some(Node::Literal(Literal::Str(slice_text(self.input, inside))))
            },
            TokenKind::Num => Some(Node::Literal(Literal::Number(slice_text(self.input, token.span)))),
            TokenKind::True => Some(Node::Literal(Literal::Bool(true))),
            TokenKind::False => Some(Node::Literal(Literal::Bool(false))),
            TokenKind::Identifier => Some(Node::Variable { name: slice_text(self.input, token.span) }),
            _ => None,
        }
    }

    fn parse_primary(&mut self) -> (result: Result<NodeSpan, LangError>)
        requires
            old(self).wf(),
        ensures
            final(self).wf(),
            final(self).input == old(self).input,
            yields(result, final(self).position(), primary(old(self).source(), old(self).position())),
            sited(old(self).source(), result),
            result is Ok ==> placed(
                old(self).source(),
                old(self).position(),
                result->Ok_0@,
                final(self).position(),
            ),
        decreases old(self).source().len() - old(self).position(), 0int,
    {
        let ghost bytes = self.source();
        let ghost pos = self.position();
        let token = match self.take() {
            Ok(token) => token,
            Err(error) => {
                return Err(error);
            },
        };
        proof {
            lemma_after(bytes, pos);
        }
        match self.parse_atom(token) {
            Some(node) => Ok(NodeSpan { node, span: token.span }),
            None => match token.kind {
                TokenKind::Func => Err(
                    LangError { reason: Reason::UnsupportedSyntax, span: token.span },
                ),
                TokenKind::Do
                | TokenKind::Loop
                | TokenKind::Not
                | TokenKind::Bang
                | TokenKind::Minus
                | TokenKind::LParen => self.parse_compound(token),
                found => Err(
                    LangError { reason: Reason::UnexpectedToken { found }, span: token.span },
                ),
            },
        }
    }

    /// Takes the closing parenthesis behind the expression `inner`, whose
    /// span then takes in both parentheses.
    fn close_paren(&mut self, open: Token, inner: NodeSpan) -> (result: Result<NodeSpan, LangError>)
        requires
            old(self).wf(),
            on_boundaries(old(self).source(), open.span),
            well_spanned(inner@),
            open.span.start <= inner@.span.start,
            inner@.span.end <= old(self).position(),
        ensures
            final(self).wf(),
            final(self).input == old(self).input,
            yields(
                result,
                final(self).position(),
                crate::grammar::close_paren(old(self).source(), open, inner@, old(self).position()),
            ),
            sited(old(self).source(), result),
            result is Ok ==> placed_from(
                old(self).source(),
                open.span.start as int,
                old(self).position(),
                result->Ok_0@,
                final(self).position(),
            ),
    {
        let ghost bytes = self.source();
        let ghost pos = self.position();
        match self.tokens.next() {
            None => Err(LangError { reason: Reason::UnterminatedParen, span: open.span }),
            Some(Err(error)) => Err(error),
            Some(Ok(closer)) => {
                proof {
                    lemma_after(bytes, pos);
                }
                match closer.kind {
                    TokenKind::RParen => {
                        let span = Span { start: open.span.start, end: self.tokens.at };
                        proof {
                            lemma_widen(inner@, span);
                        }
                        Ok(NodeSpan { node: inner.node, span })
                    },
                    found => Err(
                        LangError {
                            reason: Reason::Expected { expected: TokenKind::RParen, found },
                            span: closer.span,
                        },
                    ),
                }
            },
        }
    }

    /// Parses what follows the first token of a primary that holds another
    /// expression or a block.
    fn parse_compound(&mut self, first: Token) -> (result: Result<NodeSpan, LangError>)
        requires
            old(self).wf(),
            on_boundaries(old(self).source(), first.span),
            first.kind is Do || first.kind is Loop || unary_op(first.kind) is Some
                || first.kind is LParen,
            first.span.start < first.span.end <= old(self).position(),
        ensures
            final(self).wf(),
            final(self).input == old(self).input,
            yields(
                result,
                final(self).position(),
                crate::grammar::compound(old(self).source(), first, old(self).position()),
            ),
            sited(old(self).source(), result),
            result is Ok ==> placed_from(
                old(self).source(),
                first.span.start as int,
                old(self).position(),
                result->Ok_0@,
                final(self).position(),
            ),
        decreases old(self).source().len() - old(self).position(), 9int,
    {
        let ghost bytes = self.source();
        let ghost pos = self.position();
        match first.kind {
            TokenKind::Do | TokenKind::Loop => {
                let body = match self.parse_block() {
                    Ok(body) => body,
                    Err(error) => {
                        return Err(error);
                    },
                };
                let span = Span { start: first.span.start, end: self.tokens.at };
                let node = match first.kind {
                    TokenKind::Do => Node::DoBlock { body: Box::new(body) },
                    _ => Node::Loop { body: Box::new(body) },
                };
                Ok(NodeSpan { node, span })
            },
            TokenKind::LParen => {
                let inner = match self.parse_expr() {
                    Ok(inner) => inner,
                    Err(error) => {
                        return Err(error);
                    },
                };
                self.close_paren(first, inner)
            },
            _ => {
                let op = match first.kind {
                    TokenKind::Minus => UnaryOp::Negative,
                    _ => UnaryOp::Not,
                };
                let operand = match self.parse_primary() {
                    Ok(operand) => operand,
                    Err(error) => {
                        return Err(error);
                    },
                };
                let span = Span { start: first.span.start, end: self.tokens.at };
                Ok(NodeSpan { node: Node::UnaryExpr { op, operand: Box::new(operand) }, span })
            },
        }
    }

    /// Parses the arguments of a call, from behind the opening parenthesis,
    /// whose span is `open`, to behind the closing one.
    fn parse_arguments(&mut self, open: Span) -> (result: Result<Vec<NodeSpan>, LangError>)
        requires
            old(self).wf(),
            on_boundaries(old(self).source(), open),
        ensures
            final(self).wf(),
            final(self).input == old(self).input,
            yields_list(
                result,
                final(self).position(),
                arguments(old(self).source(), old(self).position(), open),
            ),
            sited(old(self).source(), result),
            result is Ok ==> ahead(old(self).source(), old(self).position(), final(self).position())
                && all_within(
                trees_of(result->Ok_0@),
                old(self).position(),
                final(self).position(),
            ),
        decreases old(self).source().len() - old(self).position(), 6int,
    {
        let ghost bytes = self.source();
        let ghost pos0 = self.position();
        let mut args: Vec<NodeSpan> = Vec::new();
        proof {
            lemma_trees_push(args@, arbitrary());
            lemma_after(bytes, pos0);
            lemma_all_within_empty(pos0, pos0);
            lemma_all_within_empty(pos0, after(bytes, pos0));
        }
        match self.tokens.peek() {
            None => {
                return Err(LangError { reason: Reason::UnterminatedParen, span: open });
            },
            Some(Err(error)) => {
                return Err(error);
            },
            Some(Ok(token)) => match token.kind {
                TokenKind::RParen => {
                    self.tokens.next();
                    return Ok(args);
                },
                _ => {},
            },
        }
        loop
            invariant
                self.wf(),
                self.input == old(self).input,
                bytes == self.source(),
                bytes == old(self).source(),
                pos0 == old(self).position(),
                pos0 <= self.position() <= bytes.len(),
                on_boundaries(bytes, open),
                all_within(trees_of(args@), pos0, self.position()),
                more_arguments(bytes, self.position(), trees_of(args@), open) == arguments(
                    bytes,
                    pos0,
                    open,
                ),
            decreases bytes.len() - self.position(),
        {
            let ghost pos = self.position();
            let ghost done = trees_of(args@);
            let arg = match self.parse_expr() {
                Ok(arg) => arg,
                Err(error) => {
                    return Err(error);
                },
            };
            let ghost p1 = self.position();
            proof {
                lemma_trees_push(args@, arg);
                lemma_after(bytes, p1);
                if peek(bytes, p1) is Some {
                    lemma_all_within_push(done, arg@, pos0, pos, after(bytes, p1));
                }
            }
            match self.tokens.next() {
                None => {
                    return Err(LangError { reason: Reason::UnterminatedParen, span: open });
                },
                Some(Err(error)) => {
                    return Err(error);
                },
                Some(Ok(token)) => match token.kind {
                    TokenKind::RParen => {
                        args.push(arg);
                        return Ok(args);
                    },
                    TokenKind::Comma => {
                        args.push(arg);
                    },
                    found => {
                        return Err(
                            LangError {
                                reason: Reason::UnexpectedToken { found },
                                span: token.span,
                            },
                        );
                    },
                },
            }
        }
    }

    /// Parses a primary and the calls made of it.
    fn parse_operand(&mut self) -> (result: Result<NodeSpan, LangError>)
        requires
            old(self).wf(),
        ensures
            final(self).wf(),
            final(self).input == old(self).input,
            yields(result, final(self).position(), operand(old(self).source(), old(self).position())),
            sited(old(self).source(), result),
            result is Ok ==> placed(
                old(self).source(),
                old(self).position(),
                result->Ok_0@,
                final(self).position(),
            ),
        decreases old(self).source().len() - old(self).position(), 1int,
    {
        let ghost bytes = self.source();
        let ghost pos0 = self.position();
        let mut callee = match self.parse_primary() {
            Ok(callee) => callee,
            Err(error) => {
                return Err(error);
            },
        };
        loop
            invariant
                self.wf(),
                self.input == old(self).input,
                bytes == self.source(),
                bytes == old(self).source(),
                pos0 == old(self).position(),
                placed(bytes, pos0, callee@, self.position()),
                calls(bytes, callee@, self.position()) == operand(bytes, pos0),
            ensures
                operand(bytes, pos0) == Ok::<(Tree, nat), LangError>((callee@, self.position())),
            decreases bytes.len() - self.position(),
        {
            let ghost pos = self.position();
            let open = match self.tokens.peek() {
                Some(Ok(token)) => token,
                Some(Err(error)) => {
                    return Err(error);
                },
                None => {
                    break ;
                },
            };
            match open.kind {
                TokenKind::LParen => {},
                _ => {
                    break ;
                },
            }
            self.tokens.next();
            proof {
                lemma_after(bytes, pos);
            }
            let args = match self.parse_arguments(open.span) {
                Ok(args) => args,
                Err(error) => {
                    return Err(error);
                },
            };
            let span = Span { start: callee.span.start, end: self.tokens.at };
            proof {
                lemma_call_spanned(
                    callee@,
                    trees_of(args@),
                    span,
                    after(bytes, pos),
                    self.position(),
                );
            }
            callee = NodeSpan { node: Node::Call { callee: Box::new(callee), args }, span };
        }
        Ok(callee)
    }

    /// Parses an operand and the binary operators of power `min` or more
    /// that follow it, grouping operators of one power to the left.
    fn parse_binary(&mut self, min: u8) -> (result: Result<NodeSpan, LangError>)
        requires
            old(self).wf(),
            min <= 7,
        ensures
            final(self).wf(),
            final(self).input == old(self).input,
            yields(
                result,
                final(self).position(),
                binary(old(self).source(), old(self).position(), min as nat),
            ),
            sited(old(self).source(), result),
            result is Ok ==> placed(
                old(self).source(),
                old(self).position(),
                result->Ok_0@,
                final(self).position(),
            ),
        decreases old(self).source().len() - old(self).position(), 2int,
    {
        let ghost bytes = self.source();
        let ghost pos0 = self.position();
        let mut left = match self.parse_operand() {
            Ok(left) => left,
            Err(error) => {
                return Err(error);
            },
        };
        loop
            invariant
                self.wf(),
                self.input == old(self).input,
                bytes == self.source(),
                bytes == old(self).source(),
                pos0 == old(self).position(),
                min <= 7,
                placed(bytes, pos0, left@, self.position()),
                binary_rest(bytes, left@, self.position(), min as nat) == binary(
                    bytes,
                    pos0,
                    min as nat,
                ),
            ensures
                binary(bytes, pos0, min as nat) == Ok::<(Tree, nat), LangError>(
                    (left@, self.position()),
                ),
            decreases bytes.len() - self.position(),
        {
            let ghost pos = self.position();
            let op = match self.tokens.peek() {
                Some(Ok(token)) => match binary_operator(token.kind) {
                    Some(op) => op,
                    None => {
                        break ;
                    },
                },
                Some(Err(error)) => {
                    return Err(error);
                },
                None => {
                    break ;
                },
            };
            if power(op) < min {
                break ;
            }
            self.tokens.next();
            proof {
                lemma_after(bytes, pos);
            }
            let right = match self.parse_binary(power(op) + 1) {
                Ok(right) => right,
                Err(error) => {
                    return Err(error);
                },
            };
            let span = left.span.union(right.span);
            left = NodeSpan {
                node: Node::BinaryExpr { op, left: Box::new(left), right: Box::new(right) },
                span,
            };
        }
        Ok(left)
    }

    /// Parses an expression: an assignment to a bare identifier, or operands
    /// joined by binary operators.
    pub fn parse_expr(&mut self) -> (result: Result<NodeSpan, LangError>)
        requires
            old(self).wf(),
        ensures
            final(self).wf(),
            final(self).input == old(self).input,
            yields(result, final(self).position(), expr(old(self).source(), old(self).position())),
            sited(old(self).source(), result),
            result is Ok ==> placed(
                old(self).source(),
                old(self).position(),
                result->Ok_0@,
                final(self).position(),
            ),
        decreases old(self).source().len() - old(self).position(), 3int,
    {
        let ghost bytes = self.source();
        let ghost pos0 = self.position();
        let first = self.tokens.peek();
        let left = match self.parse_binary(1) {
            Ok(left) => left,
            Err(error) => {
                return Err(error);
            },
        };
        let ghost p1 = self.position();
        let equal = match self.tokens.peek() {
            Some(Err(error)) => {
                return Err(error);
            },
            Some(Ok(token)) => match token.kind {
                TokenKind::Equal => token,
                _ => {
                    return Ok(left);
                },
            },
            None => {
                return Ok(left);
            },
        };
        let target = match first {
            Some(Ok(token)) => match token.kind {
                TokenKind::Identifier => if token.span.end == self.tokens.at {
                    Some(token)
                } else {
                    None
                },
                _ => None,
            },
            _ => None,
        };
        match target {
            None => Err(LangError { reason: Reason::InvalidAssignmentTarget, span: equal.span }),
            Some(name_token) => {
                let name = slice_text(self.input, name_token.span);
                self.tokens.next();
                proof {
                    lemma_after(bytes, p1);
                }
                let value = match self.parse_expr() {
                    Ok(value) => value,
                    Err(error) => {
                        return Err(error);
                    },
                };
                let span = Span { start: left.span.start, end: self.tokens.at };
                Ok(NodeSpan { node: Node::Assignment { name, value: Box::new(value) }, span })
            },
        }
    }

    /// Parses a declaration from behind its `var`, which started at `start`.
    pub fn parse_declaration(&mut self, start: usize) -> (result: Result<NodeSpan, LangError>)
        requires
            old(self).wf(),
            start < old(self).position(),
            boundary(old(self).source(), start as int),
        ensures
            final(self).wf(),
            final(self).input == old(self).input,
            yields(
                result,
                final(self).position(),
                declaration(old(self).source(), old(self).position(), start as int),
            ),
            sited(old(self).source(), result),
            result is Ok ==> placed_from(
                old(self).source(),
                start as int,
                old(self).position(),
                result->Ok_0@,
                final(self).position(),
            ),
        decreases old(self).source().len() - old(self).position(), 4int,
    {
        let ghost bytes = self.source();
        let ghost pos0 = self.position();
        let name_token = match self.take() {
            Ok(token) => token,
            Err(error) => {
                return Err(error);
            },
        };
        proof {
            lemma_after(bytes, pos0);
        }
        match name_token.kind {
            TokenKind::Identifier => {},
            found => {
                return Err(
                    LangError {
                        reason: Reason::Expected { expected: TokenKind::Identifier, found },
                        span: name_token.span,
                    },
                );
            },
        }
        let name = slice_text(self.input, name_token.span);
        self.parse_initialized(name, name_token, start)
    }

    /// Parses a declaration from behind the name of its variable.
    fn parse_initialized(&mut self, name: String, name_token: Token, start: usize) -> (result:
        Result<NodeSpan, LangError>)
        requires
            old(self).wf(),
            name@ == span_text(old(self).source(), name_token.span),
            on_boundaries(old(self).source(), name_token.span),
            start <= name_token.span.start < name_token.span.end == old(self).position(),
            boundary(old(self).source(), start as int),
        ensures
            final(self).wf(),
            final(self).input == old(self).input,
            yields(
                result,
                final(self).position(),
                initialized(old(self).source(), old(self).position(), name_token, start as int),
            ),
            sited(old(self).source(), result),
            result is Ok ==> {
                &&& old(self).position() <= final(self).position() <= old(self).source().len()
                &&& result->Ok_0@.span == span_of(start as int, final(self).position() as int)
                &&& on_boundaries(old(self).source(), result->Ok_0@.span)
                &&& well_spanned(result->Ok_0@)
            },
        decreases old(self).source().len() - old(self).position(), 4int,
    {
        let ghost bytes = self.source();
        let ghost p1 = self.position();
        match self.tokens.peek() {
            None => Ok(bare_declaration(name, name_token.span, start, self.tokens.at)),
            Some(Err(error)) => Err(error),
            Some(Ok(token)) => match token.kind {
                TokenKind::Equal => {
                    self.tokens.next();
                    proof {
                        lemma_after(bytes, p1);
                    }
                    let initializer = match self.parse_expr() {
                        Ok(initializer) => initializer,
                        Err(error) => {
                            return Err(error);
                        },
                    };
                    let span = Span { start, end: self.tokens.at };
                    Ok(
                        NodeSpan {
                            node: Node::Declaration { name, initializer: Box::new(initializer) },
                            span,
                        },
                    )
                },
                TokenKind::Eol | TokenKind::RBrace => Ok(
                    bare_declaration(name, name_token.span, start, self.tokens.at),
                ),
                _ => Err(LangError { reason: Reason::InvalidDeclaration, span: token.span }),
            },
        }
    }

    /// Parses a statement: a declaration or an expression.
    pub fn parse_statement(&mut self) -> (result: Result<NodeSpan, LangError>)
        requires
            old(self).wf(),
        ensures
            final(self).wf(),
            final(self).input == old(self).input,
            yields(
                result,
                final(self).position(),
                statement(old(self).source(), old(self).position()),
            ),
            sited(old(self).source(), result),
            result is Ok ==> placed(
                old(self).source(),
                old(self).position(),
                result->Ok_0@,
                final(self).position(),
            ),
        decreases old(self).source().len() - old(self).position(), 5int,
    {
        let ghost bytes = self.source();
        let ghost pos0 = self.position();
        let var = match self.tokens.peek() {
            Some(Ok(token)) => match token.kind {
                TokenKind::Var => Some(token),
                _ => None,
            },
            _ => None,
        };
        match var {
            Some(token) => {
                self.tokens.next();
                proof {
                    lemma_after(bytes, pos0);
                }
                self.parse_declaration(token.span.start)
            },
            None => self.parse_expr(),
        }
    }

    /// Parses a statement of a block and what ends it. The flag says
    /// whether that was the closing brace.
    fn parse_item(&mut self, open: Span) -> (result: Result<(NodeSpan, bool), LangError>)
        requires
            old(self).wf(),
            on_boundaries(old(self).source(), open),
        ensures
            final(self).wf(),
            final(self).input == old(self).input,
            match crate::grammar::item(old(self).source(), old(self).position(), open) {
                Ok((tree, last, end)) => result is Ok && result->Ok_0.0@ == tree && result->Ok_0.1
                    == last && final(self).position() == end,
                Err(error) => result is Err && result->Err_0 == error,
            },
            sited(old(self).source(), result),
            result is Ok ==> {
                &&& ahead(old(self).source(), old(self).position(), final(self).position())
                &&& well_spanned(result->Ok_0.0@)
                &&& old(self).position() <= result->Ok_0.0@.span.start
                &&& result->Ok_0.0@.span.end < final(self).position()
            },
        decreases old(self).source().len() - old(self).position(), 6int,
    {
        let ghost bytes = self.source();
        let item = match self.parse_statement() {
            Ok(item) => item,
            Err(error) => {
                return Err(error);
            },
        };
        let ghost p1 = self.position();
        proof {
            lemma_after(bytes, p1);
        }
        match self.tokens.next() {
            None => Err(LangError { reason: Reason::UnterminatedBlock, span: open }),
            Some(Err(error)) => Err(error),
            Some(Ok(closer)) => match closer.kind {
                TokenKind::Eol => Ok((item, false)),
                TokenKind::RBrace => Ok((item, true)),
                found => Err(
                    LangError { reason: Reason::UnexpectedToken { found }, span: closer.span },
                ),
            },
        }
    }

    /// Parses a block, from its opening brace to its closing one.
    pub fn parse_block(&mut self) -> (result: Result<NodeSpan, LangError>)
        requires
            old(self).wf(),
        ensures
            final(self).wf(),
            final(self).input == old(self).input,
            yields(result, final(self).position(), block(old(self).source(), old(self).position())),
            sited(old(self).source(), result),
            result is Ok ==> placed(
                old(self).source(),
                old(self).position(),
                result->Ok_0@,
                final(self).position(),
            ),
        decreases old(self).source().len() - old(self).position(), 8int,
    {
        let ghost bytes = self.source();
        let ghost pos0 = self.position();
        let open = match self.take() {
            Ok(token) => token,
            Err(error) => {
                return Err(error);
            },
        };
        proof {
            lemma_after(bytes, pos0);
        }
        match open.kind {
            TokenKind::LBrace => {},
            found => {
                return Err(
                    LangError {
                        reason: Reason::Expected { expected: TokenKind::LBrace, found },
                        span: open.span,
                    },
                );
            },
        }
        let statements: Vec<NodeSpan> = Vec::new();
        proof {
            lemma_trees_push(statements@, arbitrary());
            lemma_all_within_empty(after(bytes, pos0), after(bytes, pos0));
        }
        self.parse_block_items(statements, open.span, Ghost(after(bytes, pos0)))
    }

    /// Parses the rest of a block that has `statements` so far, up to its
    /// closing brace. `inside` is the position behind the opening brace.
    fn parse_block_items(
        &mut self,
        statements: Vec<NodeSpan>,
        open: Span,
        Ghost(inside): Ghost<nat>,
    ) -> (result: Result<NodeSpan, LangError>)
        requires
            old(self).wf(),
            on_boundaries(old(self).source(), open),
            open.start < open.end <= inside <= old(self).position(),
            all_within(trees_of(statements@), inside, old(self).position()),
        ensures
            final(self).wf(),
            final(self).input == old(self).input,
            yields(
                result,
                final(self).position(),
                block_items(
                    old(self).source(),
                    old(self).position(),
                    trees_of(statements@),
                    open,
                ),
            ),
            sited(old(self).source(), result),
            result is Ok ==> placed_from(
                old(self).source(),
                open.start as int,
                old(self).position(),
                result->Ok_0@,
                final(self).position(),
            ),
        decreases old(self).source().len() - old(self).position(), 7int,
    {
        let ghost bytes = self.source();
        let ghost pos = self.position();
        let mut statements = statements;
        let token = match self.tokens.peek() {
            None => {
                return Err(LangError { reason: Reason::UnterminatedBlock, span: open });
            },
            Some(Err(error)) => {
                return Err(error);
            },
            Some(Ok(token)) => token,
        };
        proof {
            lemma_after(bytes, pos);
        }
        match token.kind {
            TokenKind::RBrace => {
                self.tokens.next();
                let span = Span { start: open.start, end: self.tokens.at };
                proof {
                    lemma_block_spanned(trees_of(statements@), None, span, inside, pos);
                }
                Ok(NodeSpan { node: Node::Block { statements, tail: None }, span })
            },
            TokenKind::Eol => {
                self.tokens.next();
                proof {
                    lemma_all_within_widen(trees_of(statements@), inside, pos, self.position());
                }
                self.parse_block_items(statements, open, Ghost(inside))
            },
            _ => {
                let (item, last) = match self.parse_item(open) {
                    Ok(parsed) => parsed,
                    Err(error) => {
                        return Err(error);
                    },
                };
                proof {
                    lemma_trees_push(statements@, item);
                }
                if last {
                    let span = Span { start: open.start, end: self.tokens.at };
                    proof {
                        lemma_block_spanned(
                            trees_of(statements@),
                            Some(Box::new(item@)),
                            span,
                            inside,
                            pos,
                        );
                    }
                    Ok(NodeSpan { node: Node::Block { statements, tail: Some(Box::new(item)) }, span })
                } else {
                    proof {
                        lemma_all_within_push(
                            trees_of(statements@),
                            item@,
                            inside,
                            pos,
                            self.position(),
                        );
                    }
                    statements.push(item);
                    self.parse_block_items(statements, open, Ghost(inside))
                }
            },
        }
    }

}

} // verus!
