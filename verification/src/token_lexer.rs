//! The lexer: from source bytes to spanned tokens, one at a time.

use vstd::prelude::*;
use vstd::string::*;
use vstd::utf8::{encode_utf8_valid_utf8, valid_utf8};
use crate::lang_errors::{kind_of, ErrorKind, LangError, Reason};
use crate::spans::Span;
use crate::text::{
    boundary, lemma_ascii_boundary, lemma_boundary_at, lemma_boundary_ends, on_boundaries,
};
use crate::tokens::{
    fixed_text, is_keyword, Token, TokenKind, AMPERSAND, BANG, CARRIAGE_RETURN, COMMA, DOT, EQUAL, GREATER,
    LBRACE, LESSER, LPAREN, MINUS, NEWLINE, PERCENT, PIPE, PLUS, QUOTE, RBRACE, RPAREN,
    SEMICOLON, SLASH, SPACE, STAR, TAB, UNDERSCORE,
};

verus! {

/// A decimal digit.
pub open spec fn is_digit(b: u8) -> bool {
    0x30 <= b <= 0x39
}

/// A letter or an underscore: what a word starts with.
pub open spec fn is_word_start(b: u8) -> bool {
    (0x41 <= b <= 0x5a) || (0x61 <= b <= 0x7a) || b == UNDERSCORE
}

/// A letter, a digit or an underscore: what a word goes on with.
pub open spec fn is_word_part(b: u8) -> bool {
    is_word_start(b) || is_digit(b)
}

/// The classes of bytes of which the lexer reads runs.
#[derive(Clone, Copy, Debug, PartialEq, Eq, Structural)]
pub enum ByteClass {
    /// Space, tab and carriage return: skipped between tokens.
    Blank,
    /// A decimal digit.
    Digit,
    /// A letter, a digit or an underscore.
    Word,
    /// Any byte but the double quote: the inside of a string literal.
    Text,
    /// A byte that continues a multi-byte character.
    Trail,
    /// Any byte but the newline: the inside of a line.
    Line,
}

impl ByteClass {
    /// Whether the byte is of the class.
    pub open spec fn holds(self, b: u8) -> bool {
        match self {
            ByteClass::Blank => b == SPACE || b == TAB || b == CARRIAGE_RETURN,
            ByteClass::Digit => is_digit(b),
            ByteClass::Word => is_word_part(b),
            ByteClass::Text => b != QUOTE,
            ByteClass::Trail => 0x80 <= b < 0xc0,
            ByteClass::Line => b != NEWLINE,
        }
    }

    /// Tests whether the byte is of the class.
    pub fn test(self, b: u8) -> (r: bool)
        ensures
            r == self.holds(b),
    {
        match self {
            ByteClass::Blank => b == SPACE || b == TAB || b == CARRIAGE_RETURN,
            ByteClass::Digit => 0x30 <= b && b <= 0x39,
            ByteClass::Word => (0x41 <= b && b <= 0x5a) || (0x61 <= b && b <= 0x7a) || b
                == UNDERSCORE || (0x30 <= b && b <= 0x39),
            ByteClass::Text => b != QUOTE,
            ByteClass::Trail => 0x80 <= b && b < 0xc0,
            ByteClass::Line => b != NEWLINE,
        }
    }
}

/// The end of the longest run of bytes of `class` that starts at `pos`.
pub open spec fn run_end(bytes: Seq<u8>, pos: int, class: ByteClass) -> int
    decreases bytes.len() - pos,
{
    if 0 <= pos < bytes.len() && class.holds(bytes[pos]) {
        run_end(bytes, pos + 1, class)
    } else {
        pos
    }
}

/// A run ends inside the text, holds only bytes of its class, and cannot be
/// made longer.
pub proof fn lemma_run_end(bytes: Seq<u8>, pos: int, class: ByteClass)
    requires
        0 <= pos <= bytes.len(),
    ensures
        pos <= run_end(bytes, pos, class) <= bytes.len(),
        forall|i: int| pos <= i < run_end(bytes, pos, class) ==> class.holds(#[trigger] bytes[i]),
        run_end(bytes, pos, class) < bytes.len() ==> !class.holds(
            bytes[run_end(bytes, pos, class)],
        ),
    decreases bytes.len() - pos,
{
    if pos < bytes.len() && class.holds(bytes[pos]) {
        lemma_run_end(bytes, pos + 1, class);
    }
}

/// Where a number that starts at `p` ends: digits, then at most one point
/// that digits follow.
pub open spec fn number_end(bytes: Seq<u8>, p: int) -> int {
    let e = run_end(bytes, p, ByteClass::Digit);
    if e + 1 < bytes.len() && bytes[e] == DOT && is_digit(bytes[e + 1]) {
        run_end(bytes, e + 1, ByteClass::Digit)
    } else {
        e
    }
}

/// The keyword that the word spells, or `Identifier`.
pub open spec fn word_kind(text: Seq<u8>) -> TokenKind {
    if Some(text) == fixed_text(TokenKind::Var) {
        TokenKind::Var
    } else if Some(text) == fixed_text(TokenKind::Do) {
        TokenKind::Do
    } else if Some(text) == fixed_text(TokenKind::Loop) {
        TokenKind::Loop
    } else if Some(text) == fixed_text(TokenKind::Func) {
        TokenKind::Func
    } else if Some(text) == fixed_text(TokenKind::True) {
        TokenKind::True
    } else if Some(text) == fixed_text(TokenKind::False) {
        TokenKind::False
    } else if Some(text) == fixed_text(TokenKind::And) {
        TokenKind::And
    } else if Some(text) == fixed_text(TokenKind::Or) {
        TokenKind::Or
    } else if Some(text) == fixed_text(TokenKind::Not) {
        TokenKind::Not
    } else {
        TokenKind::Identifier
    }
}

/// The byte `b` stands right behind the position `p`.
pub open spec fn followed_by(bytes: Seq<u8>, p: int, b: u8) -> bool {
    p + 1 < bytes.len() && bytes[p + 1] == b
}

/// The operator or punctuation mark that starts at `p`, the longest first.
pub open spec fn symbol_at(bytes: Seq<u8>, p: int) -> Option<TokenKind> {
    let b = bytes[p];
    if b == EQUAL {
        Some(if followed_by(bytes, p, EQUAL) { TokenKind::DoubleEqual } else { TokenKind::Equal })
    } else if b == BANG {
        Some(if followed_by(bytes, p, EQUAL) { TokenKind::BangEqual } else { TokenKind::Bang })
    } else if b == GREATER {
        Some(if followed_by(bytes, p, EQUAL) { TokenKind::GreaterEqual } else { TokenKind::Greater })
    } else if b == LESSER {
        Some(if followed_by(bytes, p, EQUAL) { TokenKind::LesserEqual } else { TokenKind::Lesser })
    } else if b == NEWLINE || b == SEMICOLON {
        Some(TokenKind::Eol)
    } else if b == LPAREN {
        Some(TokenKind::LParen)
    } else if b == RPAREN {
        Some(TokenKind::RParen)
    } else if b == LBRACE {
        Some(TokenKind::LBrace)
    } else if b == RBRACE {
        Some(TokenKind::RBrace)
    } else if b == COMMA {
        Some(TokenKind::Comma)
    } else if b == PLUS {
        Some(TokenKind::Plus)
    } else if b == MINUS {
        Some(TokenKind::Minus)
    } else if b == STAR {
        Some(TokenKind::Star)
    } else if b == SLASH {
        Some(TokenKind::Slash)
    } else if b == PERCENT {
        Some(TokenKind::Percent)
    } else if b == AMPERSAND {
        Some(TokenKind::Ampersand)
    } else if b == PIPE {
        Some(TokenKind::Pipe)
    } else {
        None
    }
}

/// Bytes that a symbol takes: two for `==`, `!=`, `>=` and `<=`, else one.
pub open spec fn symbol_width(kind: TokenKind) -> int {
    if kind is DoubleEqual || kind is BangEqual || kind is GreaterEqual || kind is LesserEqual {
        2
    } else {
        1
    }
}

/// What one scan yields: a token, a lex error, or nothing at the end of input.
pub type Lexeme = Option<Result<Token, LangError>>;

/// The span between two positions.
pub open spec fn span_of(start: int, end: int) -> Span {
    Span { start: start as usize, end: end as usize }
}

/// A token of a kind between two positions.
pub open spec fn found(kind: TokenKind, start: int, end: int) -> Lexeme {
    Some(Ok(Token { kind, span: span_of(start, end) }))
}

/// A lex error between two positions.
pub open spec fn failed(reason: Reason, start: int, end: int) -> Lexeme {
    Some(Err(LangError { reason, span: span_of(start, end) }))
}

/// The lexeme that starts at the byte `p`, which is no blank, and where it ends.
pub open spec fn token_at(bytes: Seq<u8>, p: int) -> (Lexeme, int) {
    let b = bytes[p];
    if is_digit(b) {
        let e = number_end(bytes, p);
        (found(TokenKind::Num, p, e), e)
    } else if is_word_start(b) {
        let e = run_end(bytes, p, ByteClass::Word);
        (found(word_kind(bytes.subrange(p, e)), p, e), e)
    } else if b == QUOTE {
        let q = run_end(bytes, p + 1, ByteClass::Text);
        if q < bytes.len() {
            (found(TokenKind::Str, p, q + 1), q + 1)
        } else {
            (failed(Reason::UnterminatedString, p, q), q)
        }
    } else {
        match symbol_at(bytes, p) {
            Some(kind) => (found(kind, p, p + symbol_width(kind)), p + symbol_width(kind)),
            None => {
                let e = run_end(bytes, p + 1, ByteClass::Trail);
                (failed(Reason::UnrecognizedCharacter, p, e), e)
            },
        }
    }
}

/// Where the next lexeme after `pos` starts: blanks are skipped.
pub open spec fn token_start(bytes: Seq<u8>, pos: int) -> int {
    run_end(bytes, pos, ByteClass::Blank)
}

/// One scan from `pos`: the next lexeme and the position after it.
#[verifier::opaque]
pub open spec fn scan(bytes: Seq<u8>, pos: int) -> (Lexeme, int) {
    let start = token_start(bytes, pos);
    if start < bytes.len() {
        token_at(bytes, start)
    } else {
        (None, start)
    }
}


/// The text of a number: digits, with at most one point, which stands between digits.
pub open spec fn is_number_text(text: Seq<u8>) -> bool {
    &&& text.len() > 0
    &&& is_digit(text[0])
    &&& is_digit(text.last())
    &&& forall|i: int| 0 <= i < text.len() ==> is_digit(#[trigger] text[i]) || text[i] == DOT
    &&& forall|i: int, j: int|
        0 <= i < j < text.len() && #[trigger] text[i] == DOT ==> #[trigger] text[j] != DOT
}

/// The text of a string literal: two quotes with no quote between them.
pub open spec fn is_string_text(text: Seq<u8>) -> bool {
    &&& text.len() >= 2
    &&& text[0] == QUOTE
    &&& text.last() == QUOTE
    &&& forall|i: int| 0 < i < text.len() - 1 ==> #[trigger] text[i] != QUOTE
}

/// The text of an identifier: a word that is no keyword.
pub open spec fn is_identifier_text(text: Seq<u8>) -> bool {
    &&& text.len() > 0
    &&& is_word_start(text[0])
    &&& forall|i: int| 0 <= i < text.len() ==> is_word_part(#[trigger] text[i])
    &&& word_kind(text) is Identifier
}

/// Whether `text` is a spelling of a token of the given kind.
pub open spec fn spells(kind: TokenKind, text: Seq<u8>) -> bool {
    match kind {
        TokenKind::Num => is_number_text(text),
        TokenKind::Str => is_string_text(text),
        TokenKind::Identifier => is_identifier_text(text),
        TokenKind::Eol => text == seq![NEWLINE] || text == seq![SEMICOLON],
        _ => fixed_text(kind) == Some(text),
    }
}

/// The token cannot be made longer: no digit follows a number, no letter,
/// digit or underscore follows a word, and no `=` follows an operator that
/// would make a longer operator with it.
pub open spec fn longest(bytes: Seq<u8>, token: Token) -> bool {
    let next = token.span.end as int;
    next < bytes.len() ==> {
        &&& token.kind is Num ==> !is_digit(bytes[next])
        &&& token.kind is Identifier || is_keyword(token.kind) ==> !is_word_part(bytes[next])
        &&& token.kind is Equal || token.kind is Bang || token.kind is Greater
            || token.kind is Lesser ==> bytes[next] != EQUAL
    }
}

/// What holds of one scan of well-formed text from a character boundary.
pub open spec fn scan_sound(bytes: Seq<u8>, pos: int) -> bool {
    let start = token_start(bytes, pos);
    let next = scan(bytes, pos).1;
    &&& pos <= start <= next <= bytes.len()
    &&& boundary(bytes, next)
    &&& forall|i: int| pos <= i < start ==> ByteClass::Blank.holds(#[trigger] bytes[i])
    &&& match scan(bytes, pos).0 {
        Some(Ok(token)) => {
            &&& token.span == span_of(start, next)
            &&& start < next
            &&& on_boundaries(bytes, token.span)
            &&& spells(token.kind, bytes.subrange(start, next))
            &&& longest(bytes, token)
        },
        Some(Err(error)) => {
            &&& error.span == span_of(start, next)
            &&& start < next
            &&& on_boundaries(bytes, error.span)
            &&& kind_of(error.reason) == ErrorKind::Lex
        },
        None => next == bytes.len(),
    }
}

/// The part of `scan_sound` that speaks of positions only: the lexeme's span
/// runs from the start of the token to the end of the scan, and a character
/// starts at both ends, and behind a string's opening quote and before its
/// closing one.
pub open spec fn scan_fits(bytes: Seq<u8>, pos: int) -> bool {
    let start = token_start(bytes, pos);
    let next = scan(bytes, pos).1;
    &&& pos <= start <= next <= bytes.len()
    &&& boundary(bytes, next)
    &&& match scan(bytes, pos).0 {
        Some(Ok(token)) => {
            &&& token.span == span_of(start, next)
            &&& start < next
            &&& on_boundaries(bytes, token.span)
            &&& token.kind is Str ==> start + 2 <= next && on_boundaries(
                bytes,
                span_of(start + 1, next - 1),
            )
        },
        Some(Err(error)) => {
            &&& error.span == span_of(start, next)
            &&& start < next
            &&& on_boundaries(bytes, error.span)
        },
        None => next == bytes.len(),
    }
}

proof fn lemma_symbol_spelling(bytes: Seq<u8>, p: int)
    requires
        0 <= p < bytes.len(),
        symbol_at(bytes, p) is Some,
    ensures
        p + symbol_width(symbol_at(bytes, p)->0) <= bytes.len(),
        spells(
            symbol_at(bytes, p)->0,
            bytes.subrange(p, p + symbol_width(symbol_at(bytes, p)->0)),
        ),
        bytes[p + symbol_width(symbol_at(bytes, p)->0) - 1] < 0x80,
        bytes[p] < 0x80,
        !is_keyword(symbol_at(bytes, p)->0),
        !(symbol_at(bytes, p)->0 is Identifier) && !(symbol_at(bytes, p)->0 is Num),
        symbol_width(symbol_at(bytes, p)->0) == 1 && followed_by(bytes, p, EQUAL) ==> !(
        symbol_at(bytes, p)->0 is Equal || symbol_at(bytes, p)->0 is Bang || symbol_at(
            bytes,
            p,
        )->0 is Greater || symbol_at(bytes, p)->0 is Lesser),
{
    let kind = symbol_at(bytes, p)->0;
    let text = bytes.subrange(p, p + symbol_width(kind));
    if symbol_width(kind) == 2 {
        assert(text =~= seq![bytes[p], bytes[p + 1]]);
    } else {
        assert(text =~= seq![bytes[p]]);
    }
}

proof fn lemma_number_spelling(bytes: Seq<u8>, p: int)
    requires
        0 <= p < bytes.len(),
        is_digit(bytes[p]),
    ensures
        p < number_end(bytes, p) <= bytes.len(),
        is_number_text(bytes.subrange(p, number_end(bytes, p))),
        bytes[number_end(bytes, p) - 1] < 0x80,
        number_end(bytes, p) < bytes.len() ==> !is_digit(bytes[number_end(bytes, p)]),
{
    let e = run_end(bytes, p, ByteClass::Digit);
    lemma_run_end(bytes, p, ByteClass::Digit);
    lemma_run_end(bytes, p + 1, ByteClass::Digit);
    let end = number_end(bytes, p);
    if end != e {
        lemma_run_end(bytes, e + 1, ByteClass::Digit);
        lemma_run_end(bytes, e + 2, ByteClass::Digit);
    }
    let text = bytes.subrange(p, end);
    assert forall|i: int| 0 <= i < text.len() implies is_digit(#[trigger] text[i]) || text[i]
        == DOT by {
        assert(text[i] == bytes[p + i]);
        if p + i < e {
            assert(ByteClass::Digit.holds(bytes[p + i]));
        } else if p + i > e {
            assert(ByteClass::Digit.holds(bytes[p + i]));
        }
    }
    assert forall|i: int, j: int|
        0 <= i < j < text.len() && #[trigger] text[i] == DOT implies #[trigger] text[j]
        != DOT by {
        assert(text[i] == bytes[p + i]);
        assert(text[j] == bytes[p + j]);
        if p + i < e {
            assert(ByteClass::Digit.holds(bytes[p + i]));
        } else if p + i > e {
            assert(ByteClass::Digit.holds(bytes[p + i]));
        }
        assert(ByteClass::Digit.holds(bytes[p + j]));
    }
    assert(text[0] == bytes[p]);
    assert(text.last() == bytes[end - 1]);
    assert(ByteClass::Digit.holds(bytes[end - 1]));
}

proof fn lemma_word_spelling(bytes: Seq<u8>, p: int)
    requires
        0 <= p < bytes.len(),
        is_word_start(bytes[p]),
    ensures
        p < run_end(bytes, p, ByteClass::Word) <= bytes.len(),
        spells(
            word_kind(bytes.subrange(p, run_end(bytes, p, ByteClass::Word))),
            bytes.subrange(p, run_end(bytes, p, ByteClass::Word)),
        ),
        bytes[run_end(bytes, p, ByteClass::Word) - 1] < 0x80,
        run_end(bytes, p, ByteClass::Word) < bytes.len() ==> !is_word_part(
            bytes[run_end(bytes, p, ByteClass::Word)],
        ),
{
    let e = run_end(bytes, p, ByteClass::Word);
    lemma_run_end(bytes, p, ByteClass::Word);
    lemma_run_end(bytes, p + 1, ByteClass::Word);
    let text = bytes.subrange(p, e);
    assert forall|i: int| 0 <= i < text.len() implies is_word_part(#[trigger] text[i]) by {
        assert(ByteClass::Word.holds(bytes[p + i]));
    }
    assert(text[0] == bytes[p]);
    assert(ByteClass::Word.holds(bytes[e - 1]));
}

proof fn lemma_string_spelling(bytes: Seq<u8>, p: int)
    requires
        0 <= p < bytes.len(),
        bytes[p] == QUOTE,
    ensures
        p < run_end(bytes, p + 1, ByteClass::Text) <= bytes.len(),
        run_end(bytes, p + 1, ByteClass::Text) < bytes.len() ==> is_string_text(
            bytes.subrange(p, run_end(bytes, p + 1, ByteClass::Text) + 1),
        ) && bytes[run_end(bytes, p + 1, ByteClass::Text)] == QUOTE,
{
    let q = run_end(bytes, p + 1, ByteClass::Text);
    lemma_run_end(bytes, p + 1, ByteClass::Text);
    if q < bytes.len() {
        let text = bytes.subrange(p, q + 1);
        assert forall|i: int| 0 < i < text.len() - 1 implies #[trigger] text[i] != QUOTE by {
            assert(ByteClass::Text.holds(bytes[p + i]));
        }
        assert(text[0] == bytes[p]);
        assert(text.last() == bytes[q]);
    }
}

/// Every scan of well-formed text from a character boundary is sound: the
/// token's span bounds exactly the text that spells it, cuts no character,
/// and the scan ends on a character boundary again.
pub proof fn lemma_scan_sound(bytes: Seq<u8>, pos: int)
    requires
        valid_utf8(bytes),
        bytes.len() <= usize::MAX,
        0 <= pos <= bytes.len(),
        boundary(bytes, pos),
    ensures
        scan_sound(bytes, pos),
        scan_fits(bytes, pos),
{
    reveal(scan);
    let start = token_start(bytes, pos);
    lemma_run_end(bytes, pos, ByteClass::Blank);
    if start > pos {
        assert(ByteClass::Blank.holds(bytes[start - 1]));
        lemma_ascii_boundary(bytes, start - 1);
    }
    if start < bytes.len() {
        let b = bytes[start];
        let next = scan(bytes, pos).1;
        if is_digit(b) {
            lemma_number_spelling(bytes, start);
            lemma_ascii_boundary(bytes, start);
            lemma_ascii_boundary(bytes, next - 1);
        } else if is_word_start(b) {
            lemma_word_spelling(bytes, start);
            lemma_ascii_boundary(bytes, start);
            lemma_ascii_boundary(bytes, next - 1);
        } else if b == QUOTE {
            lemma_string_spelling(bytes, start);
            lemma_ascii_boundary(bytes, start);
            let q = run_end(bytes, start + 1, ByteClass::Text);
            if q < bytes.len() {
                lemma_ascii_boundary(bytes, q);
                assert(span_of(start + 1, next - 1).start == start + 1);
            } else {
                lemma_boundary_at(bytes, q);
            }
        } else if symbol_at(bytes, start) is Some {
            lemma_symbol_spelling(bytes, start);
            lemma_ascii_boundary(bytes, start);
            lemma_ascii_boundary(bytes, next - 1);
        } else {
            lemma_run_end(bytes, start + 1, ByteClass::Trail);
            lemma_boundary_at(bytes, next);
        }
    } else {
        lemma_boundary_at(bytes, start);
    }
}

/// Finds the end of the longest run of bytes of `class` that starts at `pos`.
pub fn find_run_end(bytes: &[u8], pos: usize, class: ByteClass) -> (end: usize)
    requires
        pos <= bytes@.len(),
    ensures
        end == run_end(bytes@, pos as int, class),
        pos <= end <= bytes@.len(),
{
    let mut i: usize = pos;
    while i < bytes.len() && class.test(bytes[i])
        invariant
            pos <= i <= bytes@.len(),
            run_end(bytes@, i as int, class) == run_end(bytes@, pos as int, class),
        decreases bytes@.len() - i,
    {
        i += 1;
    }
    i
}

fn spells2(bytes: &[u8], start: usize, end: usize, a: u8, b: u8) -> (r: bool)
    requires
        start <= end <= bytes@.len(),
    ensures
        r == (bytes@.subrange(start as int, end as int) == seq![a, b]),
{
    let r = end - start == 2 && bytes[start] == a && bytes[start + 1] == b;
    proof {
        let text = bytes@.subrange(start as int, end as int);
        if r {
            assert(text =~= seq![a, b]);
        } else if text == seq![a, b] {
            assert(text.len() == 2);
            assert(text[0] == a && text[1] == b);
        }
    }
    r
}

fn spells3(bytes: &[u8], start: usize, end: usize, a: u8, b: u8, c: u8) -> (r: bool)
    requires
        start <= end <= bytes@.len(),
    ensures
        r == (bytes@.subrange(start as int, end as int) == seq![a, b, c]),
{
    let r = end - start == 3 && bytes[start] == a && bytes[start + 1] == b && bytes[start + 2]
        == c;
    proof {
        let text = bytes@.subrange(start as int, end as int);
        if r {
            assert(text =~= seq![a, b, c]);
        } else if text == seq![a, b, c] {
            assert(text.len() == 3);
            assert(text[0] == a && text[1] == b && text[2] == c);
        }
    }
    r
}

fn spells4(bytes: &[u8], start: usize, end: usize, a: u8, b: u8, c: u8, d: u8) -> (r: bool)
    requires
        start <= end <= bytes@.len(),
    ensures
        r == (bytes@.subrange(start as int, end as int) == seq![a, b, c, d]),
{
    let r = end - start == 4 && bytes[start] == a && bytes[start + 1] == b && bytes[start + 2]
        == c && bytes[start + 3] == d;
    proof {
        let text = bytes@.subrange(start as int, end as int);
        if r {
            assert(text =~= seq![a, b, c, d]);
        } else if text == seq![a, b, c, d] {
            assert(text.len() == 4);
            assert(text[0] == a && text[1] == b && text[2] == c && text[3] == d);
        }
    }
    r
}

fn spells5(bytes: &[u8], start: usize, end: usize, a: u8, b: u8, c: u8, d: u8, e: u8) -> (r:
    bool)
    requires
        start <= end <= bytes@.len(),
    ensures
        r == (bytes@.subrange(start as int, end as int) == seq![a, b, c, d, e]),
{
    let r = end - start == 5 && bytes[start] == a && bytes[start + 1] == b && bytes[start + 2]
        == c && bytes[start + 3] == d && bytes[start + 4] == e;
    proof {
        let text = bytes@.subrange(start as int, end as int);
        if r {
            assert(text =~= seq![a, b, c, d, e]);
        } else if text == seq![a, b, c, d, e] {
            assert(text.len() == 5);
            assert(text[0] == a && text[1] == b && text[2] == c && text[3] == d && text[4] == e);
        }
    }
    r
}

/// Tells a keyword from an identifier.
fn classify_word(bytes: &[u8], start: usize, end: usize) -> (kind: TokenKind)
    requires
        start <= end <= bytes@.len(),
    ensures
        kind == word_kind(bytes@.subrange(start as int, end as int)),
{
    if spells3(bytes, start, end, 0x76, 0x61, 0x72) {
        TokenKind::Var
    } else if spells2(bytes, start, end, 0x64, 0x6f) {
        TokenKind::Do
    } else if spells4(bytes, start, end, 0x6c, 0x6f, 0x6f, 0x70) {
        TokenKind::Loop
    } else if spells4(bytes, start, end, 0x66, 0x75, 0x6e, 0x63) {
        TokenKind::Func
    } else if spells4(bytes, start, end, 0x74, 0x72, 0x75, 0x65) {
        TokenKind::True
    } else if spells5(bytes, start, end, 0x66, 0x61, 0x6c, 0x73, 0x65) {
        TokenKind::False
    } else if spells3(bytes, start, end, 0x61, 0x6e, 0x64) {
        TokenKind::And
    } else if spells2(bytes, start, end, 0x6f, 0x72) {
        TokenKind::Or
    } else if spells3(bytes, start, end, 0x6e, 0x6f, 0x74) {
        TokenKind::Not
    } else {
        TokenKind::Identifier
    }
}

fn read_symbol(bytes: &[u8], p: usize) -> (r: Option<TokenKind>)
    requires
        p < bytes@.len(),
    ensures
        r == symbol_at(bytes@, p as int),
{
    let b = bytes[p];
    let equal_follows = p + 1 < bytes.len() && bytes[p + 1] == EQUAL;
    if b == EQUAL {
        Some(if equal_follows { TokenKind::DoubleEqual } else { TokenKind::Equal })
    } else if b == BANG {
        Some(if equal_follows { TokenKind::BangEqual } else { TokenKind::Bang })
    } else if b == GREATER {
        Some(if equal_follows { TokenKind::GreaterEqual } else { TokenKind::Greater })
    } else if b == LESSER {
        Some(if equal_follows { TokenKind::LesserEqual } else { TokenKind::Lesser })
    } else if b == NEWLINE || b == SEMICOLON {
        Some(TokenKind::Eol)
    } else if b == LPAREN {
        Some(TokenKind::LParen)
    } else if b == RPAREN {
        Some(TokenKind::RParen)
    } else if b == LBRACE {
        Some(TokenKind::LBrace)
    } else if b == RBRACE {
        Some(TokenKind::RBrace)
    } else if b == COMMA {
        Some(TokenKind::Comma)
    } else if b == PLUS {
        Some(TokenKind::Plus)
    } else if b == MINUS {
        Some(TokenKind::Minus)
    } else if b == STAR {
        Some(TokenKind::Star)
    } else if b == SLASH {
        Some(TokenKind::Slash)
    } else if b == PERCENT {
        Some(TokenKind::Percent)
    } else if b == AMPERSAND {
        Some(TokenKind::Ampersand)
    } else if b == PIPE {
        Some(TokenKind::Pipe)
    } else {
        None
    }
}

fn read_token(bytes: &[u8], p: usize) -> (r: (Lexeme, usize))
    requires
        p < bytes@.len(),
    ensures
        (r.0, r.1 as int) == token_at(bytes@, p as int),
        p < r.1 <= bytes@.len(),
{
    let b = bytes[p];
    if ByteClass::Digit.test(b) {
        let e = find_run_end(bytes, p, ByteClass::Digit);
        proof {
            lemma_run_end(bytes@, p as int, ByteClass::Digit);
        }
        let e2 = if e < bytes.len() - 1 && bytes[e] == DOT && ByteClass::Digit.test(bytes[e + 1]) {
            find_run_end(bytes, e + 1, ByteClass::Digit)
        } else {
            e
        };
        (Some(Ok(Token { kind: TokenKind::Num, span: Span { start: p, end: e2 } })), e2)
    } else if (0x41 <= b && b <= 0x5a) || (0x61 <= b && b <= 0x7a) || b == UNDERSCORE {
        let e = find_run_end(bytes, p, ByteClass::Word);
        proof {
            lemma_run_end(bytes@, p as int, ByteClass::Word);
        }
        let kind = classify_word(bytes, p, e);
        (Some(Ok(Token { kind, span: Span { start: p, end: e } })), e)
    } else if b == QUOTE {
        let q = find_run_end(bytes, p + 1, ByteClass::Text);
        if q < bytes.len() {
            (Some(Ok(Token { kind: TokenKind::Str, span: Span { start: p, end: q + 1 } })), q + 1)
        } else {
            (
                Some(
                    Err(
                        LangError {
                            reason: Reason::UnterminatedString,
                            span: Span { start: p, end: q },
                        },
                    ),
                ),
                q,
            )
        }
    } else {
        match read_symbol(bytes, p) {
            Some(kind) => {
                let width: usize = match kind {
                    TokenKind::DoubleEqual
                    | TokenKind::BangEqual
                    | TokenKind::GreaterEqual
                    | TokenKind::LesserEqual => 2,
                    _ => 1,
                };
                (Some(Ok(Token { kind, span: Span { start: p, end: p + width } })), p + width)
            },
            None => {
                let e = find_run_end(bytes, p + 1, ByteClass::Trail);
                (
                    Some(
                        Err(
                            LangError {
                                reason: Reason::UnrecognizedCharacter,
                                span: Span { start: p, end: e },
                            },
                        ),
                    ),
                    e,
                )
            },
        }
    }
}

/// A cursor over a source text that yields its tokens one by one.
pub struct Lexer<'a> {
    pub input: &'a str,
    pub pos: usize,
}

impl<'a> Lexer<'a> {
    /// The bytes of the source text.
    pub open spec fn source(&self) -> Seq<u8> {
        self.input.spec_bytes()
    }

    /// The cursor lies inside the text, where a character starts.
    pub open spec fn wf(&self) -> bool {
        &&& self.pos <= self.source().len() <= usize::MAX
        &&& boundary(self.source(), self.pos as int)
    }

    /// A lexer at the start of a text.
    pub fn new(input: &'a str) -> (lexer: Lexer<'a>)
        ensures
            lexer.wf(),
            lexer.input == input,
            lexer.pos == 0,
    {
        let _ = input.as_bytes().len();
        proof {
            broadcast use encode_utf8_valid_utf8;

            lemma_boundary_ends(input.spec_bytes());
        }
        Lexer { input, pos: 0 }
    }

    /// Reads the next lexeme and moves the cursor behind it.
    pub fn next_token(&mut self) -> (lexeme: Lexeme)
        requires
            old(self).wf(),
        ensures
            final(self).wf(),
            final(self).input == old(self).input,
            (lexeme, final(self).pos as int) == scan(old(self).source(), old(self).pos as int),
            scan_fits(old(self).source(), old(self).pos as int),
            scan_sound(old(self).source(), old(self).pos as int),
    {
        proof {
            broadcast use encode_utf8_valid_utf8;

            reveal(scan);
            lemma_scan_sound(self.source(), self.pos as int);
        }
        let bytes = self.input.as_bytes();
        let start = find_run_end(bytes, self.pos, ByteClass::Blank);
        if start < bytes.len() {
            let (lexeme, next) = read_token(bytes, start);
            self.pos = next;
            lexeme
        } else {
            self.pos = start;
            None
        }
    }
}

/// A scan that gives a lexeme ends behind the position it started from,
/// and inside the text.
pub proof fn lemma_scan_advances(bytes: Seq<u8>, pos: nat)
    ensures
        scan(bytes, pos as int).0 is Some ==> pos < scan(bytes, pos as int).1 <= bytes.len(),
        scan(bytes, pos as int).0 is None ==> scan(bytes, pos as int).1 >= pos,
{
    reveal(scan);
    if pos <= bytes.len() {
        lemma_run_end(bytes, pos as int, ByteClass::Blank);
        let start = token_start(bytes, pos as int);
        if start < bytes.len() {
            lemma_run_end(bytes, start, ByteClass::Digit);
            lemma_run_end(bytes, start + 1, ByteClass::Digit);
            let e = run_end(bytes, start, ByteClass::Digit);
            if e + 1 < bytes.len() {
                lemma_run_end(bytes, e + 1, ByteClass::Digit);
            }
            lemma_run_end(bytes, start, ByteClass::Word);
            lemma_run_end(bytes, start + 1, ByteClass::Word);
            lemma_run_end(bytes, start + 1, ByteClass::Text);
            lemma_run_end(bytes, start + 1, ByteClass::Trail);
        }
    }
}

/// The tokens of the text from `pos` on, added to `done`, or the first lex error.
pub open spec fn tokens_from(bytes: Seq<u8>, pos: nat, done: Seq<Token>) -> Result<
    Seq<Token>,
    LangError,
>
    decreases bytes.len() - pos,
{
    match scan(bytes, pos as int).0 {
        None => Ok(done),
        Some(Err(error)) => Err(error),
        Some(Ok(token)) => {
            proof {
                lemma_scan_advances(bytes, pos);
            }
            tokens_from(bytes, scan(bytes, pos as int).1 as nat, done.push(token))
        },
    }
}

/// All the tokens of a text, or the first lex error.
pub open spec fn tokens(bytes: Seq<u8>) -> Result<Seq<Token>, LangError> {
    tokens_from(bytes, 0, Seq::empty())
}

/// The token's span cuts no character and bounds a text that spells a
/// token of its kind, and the token cannot be made longer.
pub open spec fn token_sound(bytes: Seq<u8>, token: Token) -> bool {
    &&& on_boundaries(bytes, token.span)
    &&& token.span.start < token.span.end
    &&& spells(token.kind, bytes.subrange(token.span.start as int, token.span.end as int))
    &&& longest(bytes, token)
}

/// The tokens are sound, stand in the order of the text and do not overlap.
pub open spec fn tokens_sound(bytes: Seq<u8>, tokens: Seq<Token>) -> bool {
    &&& forall|i: int| 0 <= i < tokens.len() ==> token_sound(bytes, #[trigger] tokens[i])
    &&& forall|i: int, j: int|
        0 <= i < j < tokens.len() ==> (#[trigger] tokens[i]).span.end <= (
        #[trigger] tokens[j]).span.start
}

/// Reads all the tokens of a text. The first malformed token ends the scan
/// and is the result.
pub fn lex(text: &str) -> (result: Result<Vec<Token>, LangError>)
    ensures
        match tokens(text.spec_bytes()) {
            Ok(all) => result is Ok && result->Ok_0@ == all,
            Err(error) => result is Err && result->Err_0 == error,
        },
        result is Ok ==> tokens_sound(text.spec_bytes(), result->Ok_0@),
        result is Err ==> on_boundaries(text.spec_bytes(), result->Err_0.span) && kind_of(
            result->Err_0.reason,
        ) == ErrorKind::Lex,
{
    let mut lexer = Lexer::new(text);
    let mut found: Vec<Token> = Vec::new();
    let ghost bytes = text.spec_bytes();
    loop
        invariant
            lexer.wf(),
            lexer.input == text,
            bytes == text.spec_bytes(),
            tokens_from(bytes, lexer.pos as nat, found@) == tokens(bytes),
            tokens_sound(bytes, found@),
            forall|i: int| 0 <= i < found@.len() ==> (#[trigger] found@[i]).span.end <= lexer.pos,
        decreases bytes.len() - lexer.pos,
    {
        let ghost pos = lexer.pos as nat;
        proof {
            lemma_scan_advances(bytes, pos);
        }
        match lexer.next_token() {
            None => {
                return Ok(found);
            },
            Some(Err(error)) => {
                return Err(error);
            },
            Some(Ok(token)) => {
                found.push(token);
            },
        }
    }
}

} // verus!
