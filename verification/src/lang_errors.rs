//! Failures of lexing, parsing and evaluation, each tied to one span.

use vstd::prelude::*;
use vstd::string::*;
use vstd::utf8::{encode_utf8, encode_utf8_valid_utf8};
use crate::spans::Span;
use crate::text::{
    boundary, lemma_ascii_boundary, lemma_boundary_at, lemma_boundary_ends, on_boundaries,
    slice_text, span_text,
};
use crate::token_lexer::{find_run_end, lemma_run_end, run_end, ByteClass};
use crate::tokens::{TokenKind, NEWLINE};

verus! {

/// The stage of the pipeline at which a failure arose.
#[derive(Clone, Copy, Debug, PartialEq, Eq, Structural)]
pub enum ErrorKind {
    /// A malformed token.
    Lex,
    /// A violation of the grammar.
    Parse,
    /// A failure while evaluating.
    Runtime,
}

/// Why an operation failed.
#[derive(Clone, Copy, Debug, PartialEq, Eq, Structural)]
pub enum Reason {
    /// A string literal has no closing quote.
    UnterminatedString,
    /// A character that starts no token.
    UnrecognizedCharacter,
    /// The input ended where another token was needed.
    UnexpectedEnd,
    /// A token of one kind was needed and another was found.
    Expected { expected: TokenKind, found: TokenKind },
    /// A token that cannot stand where it was found.
    UnexpectedToken { found: TokenKind },
    /// A `var` declaration that is followed by neither `=` nor the end of the statement.
    InvalidDeclaration,
    /// An opening parenthesis whose closing one is missing.
    UnterminatedParen,
    /// An opening brace whose closing one is missing.
    UnterminatedBlock,
    /// The left-hand side of `=` is not a bare identifier.
    InvalidAssignmentTarget,
    /// Syntax that is reserved and has no meaning yet.
    UnsupportedSyntax,
    /// An operator was applied to a value of the wrong kind.
    TypeMismatch,
    /// A name that no enclosing scope declares.
    UndefinedVariable,
    /// An operation that has no meaning yet, such as a call.
    UnsupportedOperation,
}

/// A failure: the reason and the bytes of the source it is about.
#[derive(Clone, Copy, Debug, PartialEq, Eq, Structural)]
pub struct LangError {
    pub reason: Reason,
    pub span: Span,
}

/// The stage to which a reason belongs.
pub open spec fn kind_of(reason: Reason) -> ErrorKind {
    match reason {
        Reason::UnterminatedString | Reason::UnrecognizedCharacter => ErrorKind::Lex,
        Reason::TypeMismatch | Reason::UndefinedVariable | Reason::UnsupportedOperation =>
            ErrorKind::Runtime,
        _ => ErrorKind::Parse,
    }
}

impl LangError {
    /// A failure for a reason at a span.
    pub fn new(reason: Reason, span: Span) -> (error: LangError)
        ensures
            error == (LangError { reason, span }),
    {
        LangError { reason, span }
    }

    /// Whether this is a lex, a parse or a runtime error.
    pub fn kind(&self) -> (kind: ErrorKind)
        ensures
            kind == kind_of(self.reason),
    {
        match self.reason {
            Reason::UnterminatedString | Reason::UnrecognizedCharacter => ErrorKind::Lex,
            Reason::TypeMismatch | Reason::UndefinedVariable | Reason::UnsupportedOperation =>
                ErrorKind::Runtime,
            _ => ErrorKind::Parse,
        }
    }
}

/// The name of a token kind, as messages show it.
pub open spec fn kind_name(kind: TokenKind) -> Seq<char> {
    match kind {
        TokenKind::Var => "'var'"@,
        TokenKind::Do => "'do'"@,
        TokenKind::Loop => "'loop'"@,
        TokenKind::Func => "'func'"@,
        TokenKind::True => "'true'"@,
        TokenKind::False => "'false'"@,
        TokenKind::And => "'and'"@,
        TokenKind::Or => "'or'"@,
        TokenKind::Not => "'not'"@,
        TokenKind::Str => "a string"@,
        TokenKind::Num => "a number"@,
        TokenKind::Identifier => "an identifier"@,
        TokenKind::LParen => "'('"@,
        TokenKind::RParen => "')'"@,
        TokenKind::LBrace => "'{'"@,
        TokenKind::RBrace => "'}'"@,
        TokenKind::Comma => "','"@,
        TokenKind::Eol => "the end of the line"@,
        TokenKind::Plus => "'+'"@,
        TokenKind::Minus => "'-'"@,
        TokenKind::Star => "'*'"@,
        TokenKind::Slash => "'/'"@,
        TokenKind::Percent => "'%'"@,
        TokenKind::Equal => "'='"@,
        TokenKind::DoubleEqual => "'=='"@,
        TokenKind::BangEqual => "'!='"@,
        TokenKind::Greater => "'>'"@,
        TokenKind::GreaterEqual => "'>='"@,
        TokenKind::Lesser => "'<'"@,
        TokenKind::LesserEqual => "'<='"@,
        TokenKind::Ampersand => "'&'"@,
        TokenKind::Pipe => "'|'"@,
        TokenKind::Bang => "'!'"@,
    }
}

fn name_of(kind: TokenKind) -> (name: &'static str)
    ensures
        name@ == kind_name(kind),
{
    match kind {
        TokenKind::Var => "'var'",
        TokenKind::Do => "'do'",
        TokenKind::Loop => "'loop'",
        TokenKind::Func => "'func'",
        TokenKind::True => "'true'",
        TokenKind::False => "'false'",
        TokenKind::And => "'and'",
        TokenKind::Or => "'or'",
        TokenKind::Not => "'not'",
        TokenKind::Str => "a string",
        TokenKind::Num => "a number",
        TokenKind::Identifier => "an identifier",
        TokenKind::LParen => "'('",
        TokenKind::RParen => "')'",
        TokenKind::LBrace => "'{'",
        TokenKind::RBrace => "'}'",
        TokenKind::Comma => "','",
        TokenKind::Eol => "the end of the line",
        TokenKind::Plus => "'+'",
        TokenKind::Minus => "'-'",
        TokenKind::Star => "'*'",
        TokenKind::Slash => "'/'",
        TokenKind::Percent => "'%'",
        TokenKind::Equal => "'='",
        TokenKind::DoubleEqual => "'=='",
        TokenKind::BangEqual => "'!='",
        TokenKind::Greater => "'>'",
        TokenKind::GreaterEqual => "'>='",
        TokenKind::Lesser => "'<'",
        TokenKind::LesserEqual => "'<='",
        TokenKind::Ampersand => "'&'",
        TokenKind::Pipe => "'|'",
        TokenKind::Bang => "'!'",
    }
}

/// The message for a reason.
pub open spec fn message_of(reason: Reason) -> Seq<char> {
    match reason {
        Reason::UnterminatedString => "unterminated string"@,
        Reason::UnrecognizedCharacter => "unrecognized character"@,
        Reason::UnexpectedEnd => "expected another token but the text ends here"@,
        Reason::Expected { expected, found } => "expected "@ + kind_name(expected) + " but found "@
            + kind_name(found),
        Reason::UnexpectedToken { found } => "unexpected "@ + kind_name(found),
        Reason::InvalidDeclaration => "invalid variable declaration"@,
        Reason::UnterminatedParen => "unterminated parentheses"@,
        Reason::UnterminatedBlock => "unterminated block"@,
        Reason::InvalidAssignmentTarget => "only a variable can be assigned to"@,
        Reason::UnsupportedSyntax => "functions are not supported yet"@,
        Reason::TypeMismatch => "the operator does not apply to values of these kinds"@,
        Reason::UndefinedVariable => "undefined variable"@,
        Reason::UnsupportedOperation => "calls are not supported yet"@,
    }
}

impl LangError {
    /// The message that says why the operation failed.
    pub fn message(&self) -> (message: String)
        ensures
            message@ == message_of(self.reason),
    {
        match self.reason {
            Reason::UnterminatedString => "unterminated string".to_owned(),
            Reason::UnrecognizedCharacter => "unrecognized character".to_owned(),
            Reason::UnexpectedEnd => "expected another token but the text ends here".to_owned(),
            Reason::Expected { expected, found } => {
                let mut message = "expected ".to_owned();
                message.append(name_of(expected));
                message.append(" but found ");
                message.append(name_of(found));
                message
            },
            Reason::UnexpectedToken { found } => {
                let mut message = "unexpected ".to_owned();
                message.append(name_of(found));
                message
            },
            Reason::InvalidDeclaration => "invalid variable declaration".to_owned(),
            Reason::UnterminatedParen => "unterminated parentheses".to_owned(),
            Reason::UnterminatedBlock => "unterminated block".to_owned(),
            Reason::InvalidAssignmentTarget => "only a variable can be assigned to".to_owned(),
            Reason::UnsupportedSyntax => "functions are not supported yet".to_owned(),
            Reason::TypeMismatch => "the operator does not apply to values of these kinds".to_owned(),
            Reason::UndefinedVariable => "undefined variable".to_owned(),
            Reason::UnsupportedOperation => "calls are not supported yet".to_owned(),
        }
    }
}

/// Where the line that holds the byte offset `pos` starts.
pub open spec fn line_start(bytes: Seq<u8>, pos: int) -> int
    decreases pos,
{
    if pos <= 0 {
        0
    } else if bytes[pos - 1] == NEWLINE {
        pos
    } else {
        line_start(bytes, pos - 1)
    }
}

/// Where the line that holds the byte offset `pos` ends: at its newline, or
/// at the end of the text.
pub open spec fn line_end(bytes: Seq<u8>, pos: int) -> int {
    run_end(bytes, pos, ByteClass::Line)
}

/// The number of newlines before the byte offset `pos`.
pub open spec fn newlines_before(bytes: Seq<u8>, pos: int) -> nat
    decreases pos,
{
    if pos <= 0 {
        0
    } else {
        newlines_before(bytes, pos - 1) + if bytes[pos - 1] == NEWLINE { 1nat } else { 0nat }
    }
}

/// The number of characters that start at the byte offsets from `from` up to `to`.
pub open spec fn chars_between(bytes: Seq<u8>, from: int, to: int) -> nat
    decreases to - from,
{
    if to <= from {
        0
    } else {
        chars_between(bytes, from, to - 1) + if ByteClass::Trail.holds(bytes[to - 1]) {
            0nat
        } else {
            1nat
        }
    }
}

/// The number in decimal digits.
pub open spec fn decimal(n: nat) -> Seq<char>
    decreases n,
{
    if n < 10 {
        digit(n)
    } else {
        decimal(n / 10) + digit(n % 10)
    }
}

/// The decimal digit for a number below ten.
pub open spec fn digit(d: nat) -> Seq<char> {
    if d == 0 {
        "0"@
    } else if d == 1 {
        "1"@
    } else if d == 2 {
        "2"@
    } else if d == 3 {
        "3"@
    } else if d == 4 {
        "4"@
    } else if d == 5 {
        "5"@
    } else if d == 6 {
        "6"@
    } else if d == 7 {
        "7"@
    } else if d == 8 {
        "8"@
    } else {
        "9"@
    }
}

/// The text `piece` repeated `n` times.
pub open spec fn repeated(piece: Seq<char>, n: nat) -> Seq<char>
    decreases n,
{
    if n == 0 {
        Seq::empty()
    } else {
        repeated(piece, (n - 1) as nat) + piece
    }
}

/// The lesser of two integers.
pub open spec fn lesser(a: int, b: int) -> int {
    if a <= b {
        a
    } else {
        b
    }
}

/// The greater of two integers.
pub open spec fn greater(a: int, b: int) -> int {
    if a >= b {
        a
    } else {
        b
    }
}

/// The line that starts at `ls`, and under it carets beneath the part of
/// the span that lies in the line: one caret at least.
pub open spec fn marked_line(bytes: Seq<u8>, span: Span, ls: int) -> Seq<char> {
    let le = line_end(bytes, ls);
    let from = greater(span.start as int, ls);
    let to = lesser(span.end as int, le);
    "  | "@ + span_text(bytes, Span { start: ls as usize, end: le as usize }) + "\n"@ + "  | "@
        + repeated(" "@, chars_between(bytes, ls, from)) + repeated(
        "^"@,
        greater(chars_between(bytes, from, to) as int, 1) as nat,
    ) + "\n"@
}

/// The marked lines from the one that starts at `ls` to the one in which the span ends.
pub open spec fn marked_lines(bytes: Seq<u8>, span: Span, ls: int) -> Seq<char>
    decreases bytes.len() - ls,
{
    let le = line_end(bytes, ls);
    if 0 <= ls <= le < bytes.len() && le + 1 < span.end {
        marked_line(bytes, span, ls) + marked_lines(bytes, span, le + 1)
    } else {
        marked_line(bytes, span, ls)
    }
}

/// The first line of every rendering: the message.
pub open spec fn headline(message: Seq<char>) -> Seq<char> {
    "error: "@ + message + "\n"@
}

/// The second line: the line and the column at which the span starts, both
/// counted from one, the column in characters.
pub open spec fn location(bytes: Seq<u8>, span: Span) -> Seq<char> {
    " --> line "@ + decimal(1 + newlines_before(bytes, span.start as int)) + ", column "@
        + decimal(
        1 + chars_between(bytes, line_start(bytes, span.start as int), span.start as int),
    ) + "\n"@
}

/// The rendering of a diagnostic: the message, the place, and the lines of
/// the source that the span covers, each with carets beneath. A span that
/// does not lie in the text, or cuts a character, gets the message alone.
pub open spec fn rendering(bytes: Seq<u8>, message: Seq<char>, span: Span) -> Seq<char> {
    if on_boundaries(bytes, span) {
        headline(message) + location(bytes, span) + marked_lines(
            bytes,
            span,
            line_start(bytes, span.start as int),
        )
    } else {
        headline(message)
    }
}

/// A line starts at the beginning of the text or behind a newline, and no
/// newline stands between it and the offset.
pub proof fn lemma_line_start(bytes: Seq<u8>, pos: int)
    requires
        0 <= pos <= bytes.len(),
    ensures
        0 <= line_start(bytes, pos) <= pos,
        line_start(bytes, pos) == 0 || bytes[line_start(bytes, pos) - 1] == NEWLINE,
        forall|i: int| line_start(bytes, pos) <= i < pos ==> #[trigger] bytes[i] != NEWLINE,
    decreases pos,
{
    if pos > 0 && bytes[pos - 1] != NEWLINE {
        lemma_line_start(bytes, pos - 1);
    }
}

fn find_line_start(bytes: &[u8], pos: usize) -> (start: usize)
    requires
        pos <= bytes@.len(),
    ensures
        start == line_start(bytes@, pos as int),
        start <= pos,
{
    let mut i: usize = pos;
    while i > 0 && bytes[i - 1] != NEWLINE
        invariant
            i <= pos <= bytes@.len(),
            line_start(bytes@, i as int) == line_start(bytes@, pos as int),
        decreases i,
    {
        i -= 1;
    }
    i
}

fn count_newlines(bytes: &[u8], pos: usize) -> (count: usize)
    requires
        pos <= bytes@.len(),
    ensures
        count == newlines_before(bytes@, pos as int),
        count <= pos,
{
    let mut i: usize = 0;
    let mut count: usize = 0;
    while i < pos
        invariant
            i <= pos <= bytes@.len(),
            count == newlines_before(bytes@, i as int),
            count <= i,
        decreases pos - i,
    {
        if bytes[i] == NEWLINE {
            count += 1;
        }
        i += 1;
    }
    count
}

fn count_chars(bytes: &[u8], from: usize, to: usize) -> (count: usize)
    requires
        to <= bytes@.len(),
    ensures
        count == chars_between(bytes@, from as int, to as int),
        count <= to,
{
    if to <= from {
        return 0;
    }
    let mut i: usize = from;
    let mut count: usize = 0;
    while i < to
        invariant
            from <= i <= to <= bytes@.len(),
            count == chars_between(bytes@, from as int, i as int),
            count <= i - from,
        decreases to - i,
    {
        if !ByteClass::Trail.test(bytes[i]) {
            count += 1;
        }
        i += 1;
    }
    count
}

fn digit_text(d: u128) -> (text: &'static str)
    requires
        d < 10,
    ensures
        text@ == digit(d as nat),
{
    if d == 0 {
        "0"
    } else if d == 1 {
        "1"
    } else if d == 2 {
        "2"
    } else if d == 3 {
        "3"
    } else if d == 4 {
        "4"
    } else if d == 5 {
        "5"
    } else if d == 6 {
        "6"
    } else if d == 7 {
        "7"
    } else if d == 8 {
        "8"
    } else {
        "9"
    }
}

/// Appends the number in decimal digits.
fn append_decimal(out: &mut String, n: u128)
    ensures
        final(out)@ == old(out)@ + decimal(n as nat),
    decreases n,
{
    if n < 10 {
        out.append(digit_text(n));
    } else {
        append_decimal(out, n / 10);
        out.append(digit_text(n % 10));
        assert(old(out)@ + decimal((n / 10) as nat) + digit((n % 10) as nat) =~= old(out)@ + (
            decimal((n / 10) as nat) + digit((n % 10) as nat)));
    }
}

/// Appends the piece `n` times.
fn append_repeated(out: &mut String, piece: &str, n: usize)
    ensures
        final(out)@ == old(out)@ + repeated(piece@, n as nat),
{
    let mut i: usize = 0;
    assert(old(out)@ + repeated(piece@, 0) =~= old(out)@);
    while i < n
        invariant
            i <= n,
            out@ == old(out)@ + repeated(piece@, i as nat),
        decreases n - i,
    {
        out.append(piece);
        i += 1;
        assert(old(out)@ + repeated(piece@, (i - 1) as nat) + piece@ =~= old(out)@ + repeated(
            piece@,
            i as nat,
        ));
    }
}

/// Appends the line that starts at `ls` and the carets beneath it. Gives
/// the end of the line.
fn append_marked_line(out: &mut String, text: &str, span: Span, ls: usize) -> (le: usize)
    requires
        on_boundaries(text.spec_bytes(), span),
        ls <= text.spec_bytes().len() <= usize::MAX,
        ls == 0 || text.spec_bytes()[ls - 1] == NEWLINE,
    ensures
        final(out)@ == old(out)@ + marked_line(text.spec_bytes(), span, ls as int),
        le == line_end(text.spec_bytes(), ls as int),
        ls <= le <= text.spec_bytes().len(),
{
    let bytes = text.as_bytes();
    let le = find_run_end(bytes, ls, ByteClass::Line);
    proof {
        broadcast use encode_utf8_valid_utf8;

        lemma_run_end(bytes@, ls as int, ByteClass::Line);
        lemma_boundary_ends(bytes@);
        if ls > 0 {
            lemma_ascii_boundary(bytes@, ls - 1);
        }
        lemma_boundary_at(bytes@, le as int);
    }
    let line = slice_text(text, Span { start: ls, end: le });
    let from = if span.start >= ls { span.start } else { ls };
    let to = if span.end <= le { span.end } else { le };
    let pad = count_chars(bytes, ls, from);
    let width = count_chars(bytes, from, to);
    let carets = if width >= 1 { width } else { 1 };
    out.append("  | ");
    out.append(line.as_str());
    out.append("\n");
    out.append("  | ");
    append_repeated(out, " ", pad);
    append_repeated(out, "^", carets);
    out.append("\n");
    proof {
        let b = text.spec_bytes();
        assert(out@ =~= old(out)@ + marked_line(b, span, ls as int));
    }
    le
}

/// Renders a message about a span of a source text: the message, the line
/// and column at which the span starts, and the source lines that the span
/// covers with carets beneath the span.
pub fn render(source: &str, message: &str, span: Span) -> (text: String)
    ensures
        text@ == rendering(source.spec_bytes(), message@, span),
{
    let bytes = source.as_bytes();
    let mut out = "error: ".to_owned();
    out.append(message);
    out.append("\n");
    if !(span.start <= span.end && span.end <= bytes.len() && source.is_char_boundary(span.start)
        && source.is_char_boundary(span.end)) {
        proof {
            reveal(boundary);
        }
        return out;
    }
    proof {
        reveal(boundary);
    }
    let first = find_line_start(bytes, span.start);
    let line = count_newlines(bytes, span.start) as u128 + 1;
    let column = count_chars(bytes, first, span.start) as u128 + 1;
    out.append(" --> line ");
    append_decimal(&mut out, line);
    out.append(", column ");
    append_decimal(&mut out, column);
    out.append("\n");
    let ghost b = source.spec_bytes();
    let ghost head = out@;
    assert(head =~= headline(message@) + location(b, span));
    proof {
        lemma_line_start(b, span.start as int);
    }
    let mut ls = first;
    loop
        invariant_except_break
            out@ + marked_lines(b, span, ls as int) == head + marked_lines(b, span, first as int),
        invariant
            b == source.spec_bytes(),
            bytes@ == b,
            on_boundaries(b, span),
            ls <= b.len() <= usize::MAX,
            ls == 0 || b[ls - 1] == NEWLINE,
        ensures
            out@ == head + marked_lines(b, span, first as int),
        decreases b.len() - ls,
    {
        let ghost before = out@;
        let le = append_marked_line(&mut out, source, span, ls);
        if le < bytes.len() && le + 1 < span.end {
            proof {
                lemma_run_end(b, ls as int, ByteClass::Line);
                assert(before + marked_line(b, span, ls as int) + marked_lines(b, span, le + 1)
                    =~= before + (marked_line(b, span, ls as int) + marked_lines(
                    b,
                    span,
                    le + 1,
                )));
            }
            ls = le + 1;
        } else {
            break ;
        }
    }
    out
}

/// A failure made ready to show: the source text, the message and the span.
#[derive(Clone, Debug, PartialEq)]
pub struct Diagnostic {
    pub source_text: String,
    pub message: String,
    pub span: Span,
}

impl Diagnostic {
    /// Renders the diagnostic.
    pub fn render(&self) -> (text: String)
        ensures
            text@ == rendering(encode_utf8(self.source_text@), self.message@, self.span),
    {
        render(self.source_text.as_str(), self.message.as_str(), self.span)
    }
}

/// Builds and records the diagnostics of one source text.
pub struct ErrorBuilder {
    pub input: String,
    pub emitted: Vec<Diagnostic>,
}

impl ErrorBuilder {
    /// A builder for the diagnostics of one source text, with nothing recorded.
    pub fn new(input: String) -> (builder: ErrorBuilder)
        ensures
            builder.input == input,
            builder.emitted@.len() == 0,
    {
        ErrorBuilder { input, emitted: Vec::new() }
    }

    /// Renders a message about a span of the source text. Nothing is recorded.
    pub fn build(&self, message: &str, span: Span) -> (text: String)
        ensures
            text@ == rendering(encode_utf8(self.input@), message@, span),
    {
        render(self.input.as_str(), message, span)
    }

    /// The diagnostic for a failure.
    pub fn diagnose(&self, error: &LangError) -> (diagnostic: Diagnostic)
        ensures
            diagnostic.source_text@ == self.input@,
            diagnostic.message@ == message_of(error.reason),
            diagnostic.span == error.span,
    {
        Diagnostic {
            source_text: self.input.clone(),
            message: error.message(),
            span: error.span,
        }
    }

    /// Records a diagnostic. Whether to go on is for the caller to decide.
    pub fn emit(&mut self, message: &str, span: Span)
        ensures
            final(self).input == old(self).input,
            final(self).emitted@.len() == old(self).emitted@.len() + 1,
            final(self).emitted@.subrange(0, old(self).emitted@.len() as int) == old(
                self,
            ).emitted@,
            final(self).emitted@.last().source_text@ == old(self).input@,
            final(self).emitted@.last().message@ == message@,
            final(self).emitted@.last().span == span,
    {
        let diagnostic = Diagnostic {
            source_text: self.input.clone(),
            message: message.to_owned(),
            span,
        };
        self.emitted.push(diagnostic);
        assert(self.emitted@.subrange(0, old(self).emitted@.len() as int) =~= old(self).emitted@);
    }
}

} // verus!
