use minilang::lang_errors::{ErrorKind, LangError, Reason};
use minilang::spans::Span;
use minilang::token_lexer::{lex, Lexer};
use minilang::tokens::{Token, TokenKind};

fn kinds(text: &str) -> Vec<TokenKind> {
    lex(text).unwrap().iter().map(|t| t.kind).collect()
}

fn span(start: usize, end: usize) -> Span {
    Span { start, end }
}

#[test]
fn lexes_a_declaration() {
    let tokens = lex("var x = 12.5").unwrap();
    assert_eq!(
        tokens,
        vec![
            Token { kind: TokenKind::Var, span: span(0, 3) },
            Token { kind: TokenKind::Identifier, span: span(4, 5) },
            Token { kind: TokenKind::Equal, span: span(6, 7) },
            Token { kind: TokenKind::Num, span: span(8, 12) },
        ]
    );
}

#[test]
fn longest_operator_wins() {
    assert_eq!(
        kinds("== = != ! >= > <= <"),
        vec![
            TokenKind::DoubleEqual,
            TokenKind::Equal,
            TokenKind::BangEqual,
            TokenKind::Bang,
            TokenKind::GreaterEqual,
            TokenKind::Greater,
            TokenKind::LesserEqual,
            TokenKind::Lesser,
        ]
    );
    assert_eq!(kinds("==="), vec![TokenKind::DoubleEqual, TokenKind::Equal]);
    assert_eq!(kinds("!=="), vec![TokenKind::BangEqual, TokenKind::Equal]);
}

#[test]
fn every_keyword_is_recognised_exactly() {
    assert_eq!(
        kinds("var do loop func true false and or not"),
        vec![
            TokenKind::Var,
            TokenKind::Do,
            TokenKind::Loop,
            TokenKind::Func,
            TokenKind::True,
            TokenKind::False,
            TokenKind::And,
            TokenKind::Or,
            TokenKind::Not,
        ]
    );
    // Keywords are case-sensitive and match whole words only.
    assert_eq!(
        kinds("Var vars do_ TRUE nota"),
        vec![TokenKind::Identifier; 5]
    );
}

#[test]
fn punctuation_and_operators() {
    assert_eq!(
        kinds("( ) { } , + - * / % & |"),
        vec![
            TokenKind::LParen,
            TokenKind::RParen,
            TokenKind::LBrace,
            TokenKind::RBrace,
            TokenKind::Comma,
            TokenKind::Plus,
            TokenKind::Minus,
            TokenKind::Star,
            TokenKind::Slash,
            TokenKind::Percent,
            TokenKind::Ampersand,
            TokenKind::Pipe,
        ]
    );
}

#[test]
fn newline_and_semicolon_end_a_line() {
    assert_eq!(
        kinds("a\nb;c\r\n"),
        vec![
            TokenKind::Identifier,
            TokenKind::Eol,
            TokenKind::Identifier,
            TokenKind::Eol,
            TokenKind::Identifier,
            TokenKind::Eol,
        ]
    );
}

#[test]
fn blanks_are_skipped() {
    assert_eq!(lex("").unwrap(), vec![]);
    assert_eq!(lex(" \t \r ").unwrap(), vec![]);
    assert_eq!(
        lex("  x\t").unwrap(),
        vec![Token { kind: TokenKind::Identifier, span: span(2, 3) }]
    );
}

#[test]
fn numbers_take_at_most_one_point_between_digits() {
    assert_eq!(lex("3.14").unwrap(), vec![Token { kind: TokenKind::Num, span: span(0, 4) }]);
    assert_eq!(lex("42").unwrap(), vec![Token { kind: TokenKind::Num, span: span(0, 2) }]);
    // The second point is no part of the number, and starts no token.
    assert_eq!(
        lex("1.2.3"),
        Err(LangError { reason: Reason::UnrecognizedCharacter, span: span(3, 4) })
    );
    // A point that no digit follows is no part of the number either.
    assert_eq!(
        lex("5."),
        Err(LangError { reason: Reason::UnrecognizedCharacter, span: span(1, 2) })
    );
    assert_eq!(
        kinds("12abc"),
        vec![TokenKind::Num, TokenKind::Identifier]
    );
}

#[test]
fn string_spans_include_the_quotes() {
    assert_eq!(
        lex("\"hi\" \"\"").unwrap(),
        vec![
            Token { kind: TokenKind::Str, span: span(0, 4) },
            Token { kind: TokenKind::Str, span: span(5, 7) },
        ]
    );
    // Any text may stand inside a string, line breaks and other alphabets too.
    let text = "\"zażółć\n+ 1\"";
    assert_eq!(
        lex(text).unwrap(),
        vec![Token { kind: TokenKind::Str, span: span(0, text.len()) }]
    );
}

#[test]
fn unterminated_string_is_a_lex_error() {
    let error = lex("x = \"abc").unwrap_err();
    assert_eq!(error, LangError { reason: Reason::UnterminatedString, span: span(4, 8) });
    assert_eq!(error.kind(), ErrorKind::Lex);
}

#[test]
fn unrecognized_character_is_a_lex_error() {
    let error = lex("a @ b").unwrap_err();
    assert_eq!(error, LangError { reason: Reason::UnrecognizedCharacter, span: span(2, 3) });
    assert_eq!(error.kind(), ErrorKind::Lex);
    // The span covers the whole character, however many bytes it takes.
    assert_eq!(
        lex("a é"),
        Err(LangError { reason: Reason::UnrecognizedCharacter, span: span(2, 4) })
    );
    assert_eq!(
        lex("€"),
        Err(LangError { reason: Reason::UnrecognizedCharacter, span: span(0, 3) })
    );
    assert_eq!(
        lex("x 🦀 y"),
        Err(LangError { reason: Reason::UnrecognizedCharacter, span: span(2, 6) })
    );
}

#[test]
fn token_text_round_trips_through_its_span() {
    let text = "var total = (price * 1.5) >= 10 and not \"done\" != name;\nloop { x = x - 1 }";
    let tokens = lex(text).unwrap();
    let texts: Vec<&str> = tokens.iter().map(|t| &text[t.span.start..t.span.end]).collect();
    assert_eq!(
        texts,
        vec![
            "var", "total", "=", "(", "price", "*", "1.5", ")", ">=", "10", "and", "not",
            "\"done\"", "!=", "name", ";", "\n", "loop", "{", "x", "=", "x", "-", "1", "}",
        ]
    );
    // Tokens stand in the order of the text and do not overlap.
    for pair in tokens.windows(2) {
        assert!(pair[0].span.end <= pair[1].span.start);
    }
    // Lexing each token's text again gives the same kind.
    for token in &tokens {
        let again = lex(&text[token.span.start..token.span.end]).unwrap();
        assert_eq!(again.len(), 1);
        assert_eq!(again[0].kind, token.kind);
    }
}

#[test]
fn lexer_yields_tokens_one_by_one() {
    let mut lexer = Lexer::new("a + 1");
    assert_eq!(
        lexer.next_token(),
        Some(Ok(Token { kind: TokenKind::Identifier, span: span(0, 1) }))
    );
    assert_eq!(lexer.next_token(), Some(Ok(Token { kind: TokenKind::Plus, span: span(2, 3) })));
    assert_eq!(lexer.next_token(), Some(Ok(Token { kind: TokenKind::Num, span: span(4, 5) })));
    assert_eq!(lexer.next_token(), None);
    assert_eq!(lexer.next_token(), None);
}

#[test]
fn span_union_is_the_smallest_cover() {
    let a = span(3, 7);
    let b = span(5, 12);
    assert_eq!(a.union(b), span(3, 12));
    assert_eq!(b.union(a), span(3, 12));
    assert_eq!(a.union(span(4, 5)), a);
    assert_eq!(span(9, 9).union(span(1, 2)), span(1, 9));
    assert_eq!(Span::new(2, 6).len(), 4);
    assert!(span(4, 4).is_empty());
    assert!(!a.is_empty());
}
