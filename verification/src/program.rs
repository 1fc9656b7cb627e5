//! Whole texts: a program of top-level declarations, or one statement.

use vstd::prelude::*;
use vstd::string::*;
use crate::ast_nodes::{lemma_trees_push, trees_of, well_spanned, Node, NodeSpan, Tree};
use crate::grammar::{
    ahead, closed_declaration, declarations, lemma_after, program, program_from, rest_is_blank,
    single, statement, top,
};
use crate::lang_errors::{LangError, Reason};
use vstd::utf8::encode_utf8_valid_utf8;
use crate::spans::Span;
use crate::text::{boundary, lemma_boundary_ends, on_boundaries};
use crate::placement::{
    all_within, lemma_all_within_empty, lemma_all_within_push, lemma_all_within_widen,
    lemma_block_spanned, placed, sited,
};
use crate::token_parser::{yields, Parser};
use crate::tokens::TokenKind;

verus! {

impl<'a> Parser<'a> {
    /// Parses a top-level declaration from behind its `var`, which started at
    /// `start`, and takes the end of line that closes it.
    fn parse_closed_declaration(&mut self, start: usize) -> (result: Result<NodeSpan, LangError>)
        requires
            old(self).wf(),
            start < old(self).position(),
            boundary(old(self).source(), start as int),
        ensures
            final(self).wf(),
            final(self).input == old(self).input,
            yields(
                result,
                final(self).position(),
                closed_declaration(
                    old(self).source(),
                    old(self).position(),
                    start as int,
                ),
            ),
            sited(old(self).source(), result),
            result is Ok ==> {
                &&& ahead(old(self).source(), old(self).position(), final(self).position())
                &&& well_spanned(result->Ok_0@)
                &&& on_boundaries(old(self).source(), result->Ok_0@.span)
                &&& start == result->Ok_0@.span.start
                &&& result->Ok_0@.span.end <= final(self).position()
            },
    {
        let ghost bytes = self.source();
        let ghost pos = self.position();
        let tree = match self.parse_declaration(start) {
            Ok(tree) => tree,
            Err(error) => {
                return Err(error);
            },
        };
        let ghost p1 = self.position();
        proof {
            lemma_after(bytes, p1);
        }
        match self.tokens.peek() {
            None => Ok(tree),
            Some(Err(error)) => Err(error),
            Some(Ok(closer)) => match closer.kind {
                TokenKind::Eol => {
                    self.tokens.next();
                    Ok(tree)
                },
                found => Err(
                    LangError {
                        reason: Reason::Expected { expected: TokenKind::Eol, found },
                        span: closer.span,
                    },
                ),
            },
        }
    }

    /// Parses the next top-level declaration and the end of line that closes
    /// it. Blank lines before it are skipped; `None` where only those are left.
    pub fn parse_top(&mut self) -> (result: Option<Result<NodeSpan, LangError>>)
        requires
            old(self).wf(),
        ensures
            final(self).wf(),
            final(self).input == old(self).input,
            match top(old(self).source(), old(self).position()) {
                None => result is None,
                Some(parsed) => result is Some && yields(result->0, final(self).position(), parsed),
            },
            result is None ==> old(self).position() <= final(self).position() <= old(
                self,
            ).source().len(),
            result is Some ==> sited(old(self).source(), result->0),
            result is Some && result->0 is Ok ==> {
                &&& ahead(old(self).source(), old(self).position(), final(self).position())
                &&& well_spanned(result->0->Ok_0@)
                &&& on_boundaries(old(self).source(), result->0->Ok_0@.span)
                &&& old(self).position() <= result->0->Ok_0@.span.start
                &&& result->0->Ok_0@.span.end <= final(self).position()
            },
        decreases old(self).source().len() - old(self).position(),
    {
        let ghost bytes = self.source();
        let ghost pos = self.position();
        proof {
            reveal(top);
            lemma_after(bytes, pos);
        }
        let token = match self.tokens.next() {
            None => {
                return None;
            },
            Some(Err(error)) => {
                return Some(Err(error));
            },
            Some(Ok(token)) => token,
        };
        match token.kind {
            TokenKind::Eol => self.parse_top(),
            TokenKind::Var => Some(self.parse_closed_declaration(token.span.start)),
            TokenKind::Func => Some(
                Err(LangError { reason: Reason::UnsupportedSyntax, span: token.span }),
            ),
            found => Some(
                Err(LangError { reason: Reason::UnexpectedToken { found }, span: token.span }),
            ),
        }
    }

    /// Parses the rest of the text as a program: a block of the top-level
    /// declarations, or the first error.
    pub fn batch_parse(&mut self) -> (result: Result<NodeSpan, LangError>)
        requires
            old(self).wf(),
        ensures
            final(self).wf(),
            final(self).input == old(self).input,
            match program_from(old(self).source(), old(self).position()) {
                Ok(tree) => result is Ok && result->Ok_0@ == tree,
                Err(error) => result is Err && result->Err_0 == error,
            },
            sited(old(self).source(), result),
            result is Ok ==> well_spanned(result->Ok_0@) && on_boundaries(
                old(self).source(),
                result->Ok_0@.span,
            ),
    {
        let ghost bytes = self.source();
        let ghost pos0 = self.position();
        let start = self.tokens.at;
        let mut body: Vec<NodeSpan> = Vec::new();
        proof {
            lemma_trees_push(body@, arbitrary());
            lemma_all_within_empty(pos0, pos0);
        }
        loop
            invariant_except_break
                all_within(trees_of(body@), pos0, self.position()),
                declarations(bytes, self.position(), trees_of(body@)) == declarations(
                    bytes,
                    pos0,
                    Seq::empty(),
                ),
            invariant
                self.wf(),
                self.input == old(self).input,
                bytes == self.source(),
                bytes == old(self).source(),
                pos0 == old(self).position(),
                start == pos0,
                pos0 <= self.position() <= bytes.len() <= usize::MAX,
            ensures
                self.wf(),
                self.input == old(self).input,
                pos0 <= self.position() <= bytes.len() <= usize::MAX,
                all_within(trees_of(body@), pos0, self.position()),
                declarations(bytes, pos0, Seq::empty()) == Ok::<Seq<Tree>, LangError>(
                    trees_of(body@),
                ),
            decreases bytes.len() - self.position(),
        {
            let ghost pos = self.position();
            match self.parse_top() {
                None => {
                    proof {
                        lemma_all_within_widen(trees_of(body@), pos0, pos, self.position());
                    }
                    break ;
                },
                Some(Err(error)) => {
                    return Err(error);
                },
                Some(Ok(tree)) => {
                    proof {
                        lemma_trees_push(body@, tree);
                        lemma_all_within_push(
                            trees_of(body@),
                            tree@,
                            pos0,
                            pos,
                            self.position(),
                        );
                    }
                    body.push(tree);
                },
            }
        }
        let span = Span { start, end: self.input.len() };
        proof {
            broadcast use encode_utf8_valid_utf8;

            lemma_boundary_ends(bytes);
            lemma_block_spanned(trees_of(body@), None, span, pos0, self.position());
        }
        Ok(NodeSpan { node: Node::Block { statements: body, tail: None }, span })
    }

    /// Takes the ends of line that are left; any other token is an error.
    fn finish(&mut self) -> (result: Result<(), LangError>)
        requires
            old(self).wf(),
        ensures
            final(self).wf(),
            final(self).input == old(self).input,
            result == rest_is_blank(old(self).source(), old(self).position()),
            sited(old(self).source(), result),
        decreases old(self).source().len() - old(self).position(),
    {
        let ghost bytes = self.source();
        let ghost pos = self.position();
        proof {
            lemma_after(bytes, pos);
        }
        match self.tokens.next() {
            None => Ok(()),
            Some(Err(error)) => Err(error),
            Some(Ok(token)) => match token.kind {
                TokenKind::Eol => self.finish(),
                found => Err(
                    LangError { reason: Reason::UnexpectedToken { found }, span: token.span },
                ),
            },
        }
    }
}

/// Parses a whole program: zero or more top-level `var` declarations, each
/// closed by an end of line or by the end of the text.
pub fn parse_program(text: &str) -> (result: Result<NodeSpan, LangError>)
    ensures
        match program(text.spec_bytes()) {
            Ok(tree) => result is Ok && result->Ok_0@ == tree,
            Err(error) => result is Err && result->Err_0 == error,
        },
        sited(text.spec_bytes(), result),
        result is Ok ==> well_spanned(result->Ok_0@) && on_boundaries(
            text.spec_bytes(),
            result->Ok_0@.span,
        ),
{
    let mut parser = Parser::new(text);
    parser.batch_parse()
}

/// Parses a text that holds one statement, as an interactive line does:
/// an expression or a declaration, with nothing but ends of line behind it.
pub fn parse_single_expression(text: &str) -> (result: Result<NodeSpan, LangError>)
    ensures
        match single(text.spec_bytes()) {
            Ok(tree) => result is Ok && result->Ok_0@ == tree,
            Err(error) => result is Err && result->Err_0 == error,
        },
        sited(text.spec_bytes(), result),
        result is Ok ==> placed(
            text.spec_bytes(),
            0,
            result->Ok_0@,
            statement(text.spec_bytes(), 0)->Ok_0.1,
        ),
{
    let mut parser = Parser::new(text);
    let tree = match parser.parse_statement() {
        Ok(tree) => tree,
        Err(error) => {
            return Err(error);
        },
    };
    match parser.finish() {
        Ok(_) => Ok(tree),
        Err(error) => Err(error),
    }
}

} // verus!
