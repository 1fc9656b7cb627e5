//! Where the trees and the failures of a parse lie in the text.

use vstd::prelude::*;
use vstd::utf8::valid_utf8;
use crate::ast_nodes::{lemma_widen, well_spanned, Syntax, Tree};
use crate::grammar::{
    after, ahead, arguments, atom, binary, binary_op, binary_rest, binding_power, block,
    block_items, calls, close_paren, closed_declaration, compound, declaration, declarations,
    expr, initialized, item, more_arguments, need_token, operand, peek, primary, program_from, rest_is_blank,
    single, statement, top, unary_op, Parsed, ParsedList,
};
use crate::lang_errors::LangError;
use crate::spans::Span;
use crate::text::{boundary, lemma_boundary_ends, on_boundaries};
use crate::token_lexer::{lemma_scan_sound, scan_fits, span_of, token_start};
use crate::tokens::Token;

verus! {

/// A failure points at a span of the text that cuts no character.
pub open spec fn sited<T>(bytes: Seq<u8>, result: Result<T, LangError>) -> bool {
    result is Err ==> on_boundaries(bytes, result->Err_0.span)
}

/// A tree that was parsed from `pos` to `next` spans exactly the tokens
/// between the two: from the start of the first to the end of the last. Its
/// descendants lie within, each within its parent.
pub open spec fn placed(bytes: Seq<u8>, pos: nat, tree: Tree, next: nat) -> bool {
    &&& ahead(bytes, pos, next)
    &&& pos <= token_start(bytes, pos as int) < next
    &&& tree.span == span_of(token_start(bytes, pos as int), next as int)
    &&& on_boundaries(bytes, tree.span)
    &&& well_spanned(tree)
}

/// A tree that was parsed from `pos` to `next`, behind tokens that began
/// at `start`, spans from `start` to `next`, and its descendants lie within.
pub open spec fn placed_from(bytes: Seq<u8>, start: int, pos: nat, tree: Tree, next: nat) -> bool {
    &&& ahead(bytes, pos, next)
    &&& tree.span == span_of(start, next as int)
    &&& on_boundaries(bytes, tree.span)
    &&& well_spanned(tree)
}

/// Each of the trees is well spanned and lies between `from` and `to`.
#[verifier::opaque]
pub open spec fn all_within(trees: Seq<Tree>, from: nat, to: nat) -> bool {
    forall|i: int|
        0 <= i < trees.len() ==> well_spanned(#[trigger] trees[i]) && from <= trees[i].span.start
            && trees[i].span.end <= to
}

/// No trees lie within any bounds.
pub proof fn lemma_all_within_empty(from: nat, to: nat)
    ensures
        all_within(Seq::empty(), from, to),
{
    reveal(all_within);
}

/// Trees that lie within bounds still do with one more behind them and a
/// later upper bound.
pub proof fn lemma_all_within_push(trees: Seq<Tree>, tree: Tree, from: nat, to: nat, beyond: nat)
    requires
        all_within(trees, from, to),
        to <= beyond,
        well_spanned(tree),
        from <= tree.span.start,
        tree.span.end <= beyond,
    ensures
        all_within(trees.push(tree), from, beyond),
        all_within(trees, from, beyond),
{
    reveal(all_within);
}

/// Trees that lie within bounds lie within wider ones.
pub proof fn lemma_all_within_widen(trees: Seq<Tree>, from: nat, to: nat, beyond: nat)
    requires
        all_within(trees, from, to),
        to <= beyond,
    ensures
        all_within(trees, from, beyond),
{
    reveal(all_within);
}

/// A block whose span takes in its statements and its tail is well spanned.
pub proof fn lemma_block_spanned(statements: Seq<Tree>, tail: Option<Box<Tree>>, span: Span, from: nat, to: nat)
    requires
        all_within(statements, from, to),
        span.start <= from,
        to <= span.end,
        span.wf(),
        tail is Some ==> well_spanned(*tail->0) && span.covers(tail->0.span),
    ensures
        well_spanned(Tree { node: Syntax::Block { statements, tail }, span }),
{
    reveal(all_within);
}

/// A call whose span takes in its callee and, behind that, its arguments is
/// well spanned.
pub proof fn lemma_call_spanned(callee: Tree, args: Seq<Tree>, span: Span, from: nat, to: nat)
    requires
        all_within(args, from, to),
        well_spanned(callee),
        span.covers(callee.span),
        callee.span.end <= from,
        to <= span.end,
    ensures
        well_spanned(
            Tree { node: Syntax::Call { callee: Box::new(callee), args }, span },
        ),
{
    reveal(all_within);
}

/// A position at which a parse of well-formed text can start: it lies in
/// the text, where a character starts.
pub open spec fn start_point(bytes: Seq<u8>, pos: nat) -> bool {
    &&& valid_utf8(bytes)
    &&& bytes.len() <= usize::MAX
    &&& pos <= bytes.len()
    &&& boundary(bytes, pos as int)
}

/// What was parsed from `pos` is placed: the tree spans its tokens, or the
/// failure points at a span that cuts no character.
pub open spec fn parse_placed(bytes: Seq<u8>, pos: nat, parsed: Parsed) -> bool {
    match parsed {
        Ok((tree, next)) => placed(bytes, pos, tree, next),
        Err(error) => on_boundaries(bytes, error.span),
    }
}

/// What was parsed from `pos`, behind tokens that began at `start`, is placed.
pub open spec fn parse_placed_from(bytes: Seq<u8>, start: int, pos: nat, parsed: Parsed) -> bool {
    match parsed {
        Ok((tree, next)) => placed_from(bytes, start, pos, tree, next),
        Err(error) => on_boundaries(bytes, error.span),
    }
}

/// The trees that were parsed up to a position behind `pos` lie behind `from`.
pub open spec fn list_placed(bytes: Seq<u8>, from: nat, pos: nat, parsed: ParsedList) -> bool {
    match parsed {
        Ok((trees, next)) => ahead(bytes, pos, next) && boundary(bytes, next as int)
            && all_within(trees, from, next),
        Err(error) => on_boundaries(bytes, error.span),
    }
}

proof fn lemma_peek(bytes: Seq<u8>, pos: nat)
    requires
        start_point(bytes, pos),
    ensures
        scan_fits(bytes, pos as int),
        pos <= after(bytes, pos) <= bytes.len(),
        start_point(bytes, after(bytes, pos)),
        on_boundaries(bytes, crate::grammar::end_span(bytes)),
        need_token(bytes, pos) is Ok ==> pos < after(bytes, pos),
        need_token(bytes, pos) is Err ==> on_boundaries(bytes, need_token(bytes, pos)->Err_0.span),
{
    lemma_scan_sound(bytes, pos as int);
    lemma_boundary_ends(bytes);
}

proof fn lemma_close_paren(bytes: Seq<u8>, open: Token, inner: Tree, pos: nat)
    requires
        start_point(bytes, pos),
        on_boundaries(bytes, open.span),
        well_spanned(inner),
        open.span.start <= inner.span.start,
        inner.span.end <= pos,
    ensures
        parse_placed_from(bytes, open.span.start as int, pos, close_paren(bytes, open, inner, pos)),
{
    lemma_peek(bytes, pos);
    match peek(bytes, pos) {
        Some(Ok(token)) => {
            if token.kind is RParen {
                lemma_widen(inner, span_of(open.span.start as int, after(bytes, pos) as int));
            }
        },
        _ => {},
    }
}

proof fn lemma_primary(bytes: Seq<u8>, pos: nat)
    requires
        start_point(bytes, pos),
    ensures
        parse_placed(bytes, pos, primary(bytes, pos)),
    decreases bytes.len() - pos, 0int,
{
    lemma_peek(bytes, pos);
    match need_token(bytes, pos) {
        Ok(token) => {
            let p1 = after(bytes, pos);
            if atom(bytes, token) is Some {
            } else if token.kind is Func {
            } else if token.kind is Do || token.kind is Loop || unary_op(token.kind) is Some
                || token.kind is LParen {
                lemma_compound(bytes, token, p1);
            }
        },
        Err(_) => {},
    }
}

proof fn lemma_compound(bytes: Seq<u8>, first: Token, pos: nat)
    requires
        start_point(bytes, pos),
        on_boundaries(bytes, first.span),
        first.span.start < first.span.end <= pos,
    ensures
        parse_placed_from(bytes, first.span.start as int, pos, compound(bytes, first, pos)),
    decreases bytes.len() - pos, 9int,
{
    if first.kind is Do || first.kind is Loop {
        lemma_block(bytes, pos);
    } else if unary_op(first.kind) is Some {
        lemma_primary(bytes, pos);
    } else {
        lemma_expr(bytes, pos);
        match expr(bytes, pos) {
            Ok((inner, p2)) => {
                lemma_close_paren(bytes, first, inner, p2);
            },
            Err(_) => {},
        }
    }
}

proof fn lemma_operand(bytes: Seq<u8>, pos: nat)
    requires
        start_point(bytes, pos),
    ensures
        parse_placed(bytes, pos, operand(bytes, pos)),
    decreases bytes.len() - pos, 1int,
{
    lemma_primary(bytes, pos);
    match primary(bytes, pos) {
        Ok((callee, p1)) => {
            lemma_calls(bytes, callee, pos, p1);
        },
        Err(_) => {},
    }
}

proof fn lemma_calls(bytes: Seq<u8>, callee: Tree, from: nat, pos: nat)
    requires
        valid_utf8(bytes),
        bytes.len() <= usize::MAX,
        placed(bytes, from, callee, pos),
    ensures
        parse_placed(bytes, from, calls(bytes, callee, pos)),
    decreases bytes.len() - pos, 0int,
{
    lemma_peek(bytes, pos);
    match peek(bytes, pos) {
        Some(Ok(token)) => {
            if token.kind is LParen {
                lemma_arguments(bytes, after(bytes, pos), token.span);
                match arguments(bytes, after(bytes, pos), token.span) {
                    Ok((args, p2)) => {
                        let span = span_of(callee.span.start as int, p2 as int);
                        lemma_call_spanned(callee, args, span, after(bytes, pos), p2);
                        lemma_calls(
                            bytes,
                            Tree { node: Syntax::Call { callee: Box::new(callee), args }, span },
                            from,
                            p2,
                        );
                    },
                    Err(_) => {},
                }
            }
        },
        _ => {},
    }
}

proof fn lemma_arguments(bytes: Seq<u8>, pos: nat, open: Span)
    requires
        start_point(bytes, pos),
        on_boundaries(bytes, open),
    ensures
        list_placed(bytes, pos, pos, arguments(bytes, pos, open)),
    decreases bytes.len() - pos, 6int,
{
    lemma_peek(bytes, pos);
    match peek(bytes, pos) {
        Some(Ok(token)) => {
            if token.kind is RParen {
                lemma_all_within_empty(pos, after(bytes, pos));
            } else {
                lemma_all_within_empty(pos, pos);
                lemma_more_arguments(bytes, pos, Seq::empty(), open, pos);
            }
        },
        _ => {},
    }
}

proof fn lemma_more_arguments(bytes: Seq<u8>, pos: nat, done: Seq<Tree>, open: Span, from: nat)
    requires
        start_point(bytes, pos),
        on_boundaries(bytes, open),
        from <= pos,
        all_within(done, from, pos),
    ensures
        list_placed(bytes, from, pos, more_arguments(bytes, pos, done, open)),
    decreases bytes.len() - pos, 5int,
{
    lemma_expr(bytes, pos);
    match expr(bytes, pos) {
        Ok((arg, p1)) => {
            lemma_peek(bytes, p1);
            match peek(bytes, p1) {
                Some(Ok(token)) => {
                    if token.kind is RParen || token.kind is Comma {
                        lemma_all_within_push(done, arg, from, pos, after(bytes, p1));
                    }
                    if !(token.kind is RParen) && token.kind is Comma {
                        lemma_more_arguments(bytes, after(bytes, p1), done.push(arg), open, from);
                    }
                },
                _ => {},
            }
        },
        Err(_) => {},
    }
}

proof fn lemma_binary(bytes: Seq<u8>, pos: nat, min: nat)
    requires
        start_point(bytes, pos),
    ensures
        parse_placed(bytes, pos, binary(bytes, pos, min)),
    decreases bytes.len() - pos, 2int,
{
    lemma_operand(bytes, pos);
    match operand(bytes, pos) {
        Ok((left, p1)) => {
            lemma_binary_rest(bytes, left, pos, p1, min);
        },
        Err(_) => {},
    }
}

proof fn lemma_binary_rest(bytes: Seq<u8>, left: Tree, from: nat, pos: nat, min: nat)
    requires
        valid_utf8(bytes),
        bytes.len() <= usize::MAX,
        placed(bytes, from, left, pos),
    ensures
        parse_placed(bytes, from, binary_rest(bytes, left, pos, min)),
    decreases bytes.len() - pos, 0int,
{
    lemma_peek(bytes, pos);
    match peek(bytes, pos) {
        Some(Ok(token)) => match binary_op(token.kind) {
            Some(op) => {
                if binding_power(op) >= min {
                    lemma_binary(bytes, after(bytes, pos), binding_power(op) + 1);
                    match binary(bytes, after(bytes, pos), binding_power(op) + 1) {
                        Ok((right, p2)) => {
                            lemma_binary_rest(
                                bytes,
                                Tree {
                                    node: Syntax::BinaryExpr {
                                        op,
                                        left: Box::new(left),
                                        right: Box::new(right),
                                    },
                                    span: span_of(left.span.start as int, p2 as int),
                                },
                                from,
                                p2,
                                min,
                            );
                        },
                        Err(_) => {},
                    }
                }
            },
            None => {},
        },
        _ => {},
    }
}

/// Every expression that the grammar gives spans exactly its tokens, from
/// the start of the first to the end of the last, with its descendants
/// nested inside; every failure points at a span that cuts no character;
/// and the parse has moved on.
pub proof fn lemma_expr(bytes: Seq<u8>, pos: nat)
    requires
        start_point(bytes, pos),
    ensures
        parse_placed(bytes, pos, expr(bytes, pos)),
    decreases bytes.len() - pos, 3int,
{
    lemma_binary(bytes, pos, 1);
    lemma_peek(bytes, pos);
    match binary(bytes, pos, 1) {
        Ok((left, p1)) => {
            lemma_peek(bytes, p1);
            match peek(bytes, p1) {
                Some(Ok(token)) => {
                    if token.kind is Equal && crate::grammar::bare_identifier(bytes, pos, p1) {
                        lemma_expr(bytes, after(bytes, p1));
                    }
                },
                _ => {},
            }
        },
        Err(_) => {},
    }
}

proof fn lemma_declaration(bytes: Seq<u8>, pos: nat, start: int)
    requires
        start_point(bytes, pos),
        0 <= start < pos,
        boundary(bytes, start),
    ensures
        parse_placed_from(bytes, start, pos, declaration(bytes, pos, start)),
    decreases bytes.len() - pos, 4int,
{
    lemma_peek(bytes, pos);
    match need_token(bytes, pos) {
        Ok(name) => {
            if name.kind is Identifier {
                lemma_initialized(bytes, after(bytes, pos), name, start);
            }
        },
        Err(_) => {},
    }
}

proof fn lemma_initialized(bytes: Seq<u8>, pos: nat, name: Token, start: int)
    requires
        start_point(bytes, pos),
        on_boundaries(bytes, name.span),
        0 <= start <= name.span.start < name.span.end == pos,
        boundary(bytes, start),
    ensures
        match initialized(bytes, pos, name, start) {
            Ok((tree, next)) => {
                &&& pos <= next <= bytes.len()
                &&& tree.span == span_of(start, next as int)
                &&& on_boundaries(bytes, tree.span)
                &&& well_spanned(tree)
            },
            Err(error) => on_boundaries(bytes, error.span),
        },
    decreases bytes.len() - pos, 4int,
{
    lemma_peek(bytes, pos);
    assert(well_spanned(
        crate::grammar::leaf(Syntax::Literal(crate::ast_nodes::LiteralView::Null), name.span),
    ));
    match peek(bytes, pos) {
        Some(Ok(token)) => {
            if token.kind is Equal {
                lemma_expr(bytes, after(bytes, pos));
            }
        },
        _ => {},
    }
}

/// Every statement that the grammar gives is placed as an expression is.
pub proof fn lemma_statement(bytes: Seq<u8>, pos: nat)
    requires
        start_point(bytes, pos),
    ensures
        parse_placed(bytes, pos, statement(bytes, pos)),
    decreases bytes.len() - pos, 5int,
{
    lemma_peek(bytes, pos);
    match peek(bytes, pos) {
        Some(Ok(token)) => {
            if token.kind is Var {
                lemma_declaration(bytes, after(bytes, pos), token.span.start as int);
            } else {
                lemma_expr(bytes, pos);
            }
        },
        _ => {
            lemma_expr(bytes, pos);
        },
    }
}

proof fn lemma_item(bytes: Seq<u8>, pos: nat, open: Span)
    requires
        start_point(bytes, pos),
        on_boundaries(bytes, open),
    ensures
        match item(bytes, pos, open) {
            Ok((tree, last, next)) => {
                &&& ahead(bytes, pos, next)
                &&& boundary(bytes, next as int)
                &&& well_spanned(tree)
                &&& pos <= tree.span.start
                &&& tree.span.end < next
            },
            Err(error) => on_boundaries(bytes, error.span),
        },
    decreases bytes.len() - pos, 6int,
{
    lemma_statement(bytes, pos);
    match statement(bytes, pos) {
        Ok((tree, p1)) => {
            lemma_peek(bytes, p1);
        },
        Err(_) => {},
    }
}

/// Every block that the grammar gives is placed as an expression is.
pub proof fn lemma_block(bytes: Seq<u8>, pos: nat)
    requires
        start_point(bytes, pos),
    ensures
        parse_placed(bytes, pos, block(bytes, pos)),
    decreases bytes.len() - pos, 8int,
{
    lemma_peek(bytes, pos);
    match need_token(bytes, pos) {
        Ok(token) => {
            if token.kind is LBrace {
                lemma_all_within_empty(after(bytes, pos), after(bytes, pos));
                lemma_block_items(
                    bytes,
                    after(bytes, pos),
                    Seq::empty(),
                    token.span,
                    after(bytes, pos),
                );
            }
        },
        Err(_) => {},
    }
}

proof fn lemma_block_items(bytes: Seq<u8>, pos: nat, done: Seq<Tree>, open: Span, inside: nat)
    requires
        start_point(bytes, pos),
        on_boundaries(bytes, open),
        open.start < open.end <= inside <= pos,
        all_within(done, inside, pos),
    ensures
        parse_placed_from(bytes, open.start as int, pos, block_items(bytes, pos, done, open)),
    decreases bytes.len() - pos, 7int,
{
    lemma_peek(bytes, pos);
    match peek(bytes, pos) {
        Some(Ok(token)) => {
            if token.kind is RBrace {
                lemma_block_spanned(
                    done,
                    None,
                    span_of(open.start as int, after(bytes, pos) as int),
                    inside,
                    pos,
                );
            } else if token.kind is Eol {
                lemma_all_within_widen(done, inside, pos, after(bytes, pos));
                lemma_block_items(bytes, after(bytes, pos), done, open, inside);
            } else {
                lemma_item(bytes, pos, open);
                match item(bytes, pos, open) {
                    Ok((tree, last, p2)) => {
                        if last {
                            lemma_block_spanned(
                                done,
                                Some(Box::new(tree)),
                                span_of(open.start as int, p2 as int),
                                inside,
                                pos,
                            );
                        } else {
                            lemma_all_within_push(done, tree, inside, pos, p2);
                            lemma_block_items(bytes, p2, done.push(tree), open, inside);
                        }
                    },
                    Err(_) => {},
                }
            }
        },
        _ => {},
    }
}

proof fn lemma_closed_declaration(bytes: Seq<u8>, pos: nat, start: int)
    requires
        start_point(bytes, pos),
        0 <= start < pos,
        boundary(bytes, start),
    ensures
        match closed_declaration(bytes, pos, start) {
            Ok((tree, next)) => {
                &&& ahead(bytes, pos, next)
                &&& start_point(bytes, next)
                &&& well_spanned(tree)
                &&& on_boundaries(bytes, tree.span)
                &&& tree.span.start == start
                &&& tree.span.end <= next
            },
            Err(error) => on_boundaries(bytes, error.span),
        },
{
    lemma_declaration(bytes, pos, start);
    match declaration(bytes, pos, start) {
        Ok((tree, p1)) => {
            lemma_peek(bytes, p1);
        },
        Err(_) => {},
    }
}

proof fn lemma_top(bytes: Seq<u8>, pos: nat)
    requires
        start_point(bytes, pos),
    ensures
        match top(bytes, pos) {
            Some(Ok((tree, next))) => {
                &&& ahead(bytes, pos, next)
                &&& start_point(bytes, next)
                &&& well_spanned(tree)
                &&& on_boundaries(bytes, tree.span)
                &&& pos <= tree.span.start
                &&& tree.span.end <= next
            },
            Some(Err(error)) => on_boundaries(bytes, error.span),
            None => true,
        },
    decreases bytes.len() - pos,
{
    reveal(top);
    lemma_peek(bytes, pos);
    match peek(bytes, pos) {
        Some(Ok(token)) => {
            if token.kind is Eol {
                lemma_top(bytes, after(bytes, pos));
            } else if token.kind is Var {
                lemma_closed_declaration(bytes, after(bytes, pos), token.span.start as int);
            }
        },
        _ => {},
    }
}

proof fn lemma_declarations(bytes: Seq<u8>, pos: nat, done: Seq<Tree>, from: nat)
    requires
        start_point(bytes, pos),
        from <= pos,
        all_within(done, from, pos),
    ensures
        match declarations(bytes, pos, done) {
            Ok(trees) => all_within(trees, from, bytes.len()),
            Err(error) => on_boundaries(bytes, error.span),
        },
    decreases bytes.len() - pos,
{
    lemma_top(bytes, pos);
    match top(bytes, pos) {
        Some(Ok((tree, p1))) => {
            lemma_all_within_push(done, tree, from, pos, p1);
            lemma_declarations(bytes, p1, done.push(tree), from);
        },
        Some(Err(_)) => {},
        None => {
            lemma_all_within_widen(done, from, pos, bytes.len());
        },
    }
}

/// Every program that the grammar gives is a block that spans the text
/// from where the parse started to its end, with its declarations nested
/// inside; every failure points at a span that cuts no character.
pub proof fn lemma_program(bytes: Seq<u8>, pos: nat)
    requires
        start_point(bytes, pos),
    ensures
        match program_from(bytes, pos) {
            Ok(tree) => well_spanned(tree) && on_boundaries(bytes, tree.span) && tree.span
                == span_of(pos as int, bytes.len() as int),
            Err(error) => on_boundaries(bytes, error.span),
        },
{
    lemma_all_within_empty(pos, pos);
    lemma_declarations(bytes, pos, Seq::empty(), pos);
    lemma_boundary_ends(bytes);
    match declarations(bytes, pos, Seq::empty()) {
        Ok(statements) => {
            lemma_block_spanned(
                statements,
                None,
                span_of(pos as int, bytes.len() as int),
                pos,
                bytes.len(),
            );
        },
        Err(_) => {},
    }
}

proof fn lemma_rest_is_blank(bytes: Seq<u8>, pos: nat)
    requires
        start_point(bytes, pos),
    ensures
        rest_is_blank(bytes, pos) is Err ==> on_boundaries(
            bytes,
            rest_is_blank(bytes, pos)->Err_0.span,
        ),
    decreases bytes.len() - pos,
{
    lemma_peek(bytes, pos);
    match peek(bytes, pos) {
        Some(Ok(token)) => {
            if token.kind is Eol {
                lemma_rest_is_blank(bytes, after(bytes, pos));
            }
        },
        _ => {},
    }
}

/// The one statement of a text is placed as any statement is: it spans its
/// tokens, from the first of the text on; a failure points at a span that
/// cuts no character.
pub proof fn lemma_single(bytes: Seq<u8>)
    requires
        start_point(bytes, 0),
    ensures
        match single(bytes) {
            Ok(tree) => statement(bytes, 0) is Ok && placed(
                bytes,
                0,
                tree,
                statement(bytes, 0)->Ok_0.1,
            ),
            Err(error) => on_boundaries(bytes, error.span),
        },
{
    lemma_statement(bytes, 0);
    match statement(bytes, 0) {
        Ok((tree, p1)) => {
            lemma_rest_is_blank(bytes, p1);
        },
        Err(_) => {},
    }
}

} // verus!
