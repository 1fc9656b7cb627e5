use minilang::lang_errors::{render, Diagnostic, ErrorBuilder, ErrorKind, LangError, Reason};
use minilang::program::parse_single_expression;
use minilang::spans::Span;
use minilang::tokens::TokenKind;

fn span(start: usize, end: usize) -> Span {
    Span { start, end }
}

#[test]
fn renders_message_place_line_and_carets() {
    assert_eq!(
        render("var = 5", "no name", span(4, 5)),
        "error: no name\n --> line 1, column 5\n  | var = 5\n  |     ^\n"
    );
    assert_eq!(
        render("total = price * amount", "wrong", span(8, 13)),
        "error: wrong\n --> line 1, column 9\n  | total = price * amount\n  |         ^^^^^\n"
    );
}

#[test]
fn renders_the_line_that_holds_the_span() {
    let source = "var a = 1\nvar b = $\nvar c = 3\n";
    assert_eq!(
        render(source, "bad", span(18, 19)),
        "error: bad\n --> line 2, column 9\n  | var b = $\n  |         ^\n"
    );
    assert_eq!(
        render(source, "bad", span(20, 23)),
        "error: bad\n --> line 3, column 1\n  | var c = 3\n  | ^^^\n"
    );
}

#[test]
fn an_empty_span_gets_one_caret() {
    assert_eq!(
        render("1 +", "ends", span(3, 3)),
        "error: ends\n --> line 1, column 4\n  | 1 +\n  |    ^\n"
    );
    assert_eq!(render("", "empty", span(0, 0)), "error: empty\n --> line 1, column 1\n  | \n  | ^\n");
    assert_eq!(
        render("a\n", "end", span(2, 2)),
        "error: end\n --> line 2, column 1\n  | \n  | ^\n"
    );
}

#[test]
fn columns_and_carets_count_characters() {
    let source = "\"żółw\" + €";
    assert_eq!(&source[12..15], "€");
    assert_eq!(
        render(source, "bad", span(12, 15)),
        "error: bad\n --> line 1, column 10\n  | \"żółw\" + €\n  |          ^\n"
    );
    assert_eq!(
        render(source, "text", span(0, 9)),
        "error: text\n --> line 1, column 1\n  | \"żółw\" + €\n  | ^^^^^^\n"
    );
}

#[test]
fn a_span_over_several_lines_marks_each() {
    let source = "x = do {\n  1 +\n}";
    assert_eq!(
        render(source, "open", span(4, 16)),
        "error: open\n --> line 1, column 5\n  | x = do {\n  |     ^^^^\n  |   1 +\n  | ^^^^^\n  | }\n  | ^\n"
    );
    // A span that ends with the line break stays on its line.
    assert_eq!(
        render("ab\ncd", "x", span(1, 3)),
        "error: x\n --> line 1, column 2\n  | ab\n  |  ^\n"
    );
}

#[test]
fn large_line_numbers_are_written_in_decimal() {
    let mut source = "\n".repeat(1204);
    source.push_str("  oops");
    assert_eq!(
        render(&source, "deep", span(1206, 1210)),
        "error: deep\n --> line 1205, column 3\n  |   oops\n  |   ^^^^\n"
    );
}

#[test]
fn a_span_outside_the_text_gets_the_message_alone() {
    assert_eq!(render("abc", "lost", span(2, 9)), "error: lost\n");
    assert_eq!(render("abc", "lost", span(2, 1)), "error: lost\n");
    // A span that cuts a character in two.
    assert_eq!(render("é", "cut", span(1, 2)), "error: cut\n");
    assert_eq!(render("é", "cut", span(0, 1)), "error: cut\n");
}

#[test]
fn messages_of_every_reason() {
    let message = |reason| LangError::new(reason, span(0, 0)).message();
    assert_eq!(message(Reason::UnterminatedString), "unterminated string");
    assert_eq!(message(Reason::UnrecognizedCharacter), "unrecognized character");
    assert_eq!(
        message(Reason::UnexpectedEnd),
        "expected another token but the text ends here"
    );
    assert_eq!(
        message(Reason::Expected { expected: TokenKind::RParen, found: TokenKind::Eol }),
        "expected ')' but found the end of the line"
    );
    assert_eq!(
        message(Reason::Expected { expected: TokenKind::Identifier, found: TokenKind::Equal }),
        "expected an identifier but found '='"
    );
    assert_eq!(
        message(Reason::UnexpectedToken { found: TokenKind::Num }),
        "unexpected a number"
    );
    assert_eq!(message(Reason::InvalidDeclaration), "invalid variable declaration");
    assert_eq!(message(Reason::UnterminatedParen), "unterminated parentheses");
    assert_eq!(message(Reason::UnterminatedBlock), "unterminated block");
    assert_eq!(message(Reason::InvalidAssignmentTarget), "only a variable can be assigned to");
    assert_eq!(message(Reason::UnsupportedSyntax), "functions are not supported yet");
    assert_eq!(
        message(Reason::TypeMismatch),
        "the operator does not apply to values of these kinds"
    );
    assert_eq!(message(Reason::UndefinedVariable), "undefined variable");
    assert_eq!(message(Reason::UnsupportedOperation), "calls are not supported yet");
}

#[test]
fn every_token_kind_has_a_name() {
    let kinds = [
        (TokenKind::Var, "'var'"),
        (TokenKind::Do, "'do'"),
        (TokenKind::Loop, "'loop'"),
        (TokenKind::Func, "'func'"),
        (TokenKind::True, "'true'"),
        (TokenKind::False, "'false'"),
        (TokenKind::And, "'and'"),
        (TokenKind::Or, "'or'"),
        (TokenKind::Not, "'not'"),
        (TokenKind::Str, "a string"),
        (TokenKind::Num, "a number"),
        (TokenKind::Identifier, "an identifier"),
        (TokenKind::LParen, "'('"),
        (TokenKind::RParen, "')'"),
        (TokenKind::LBrace, "'{'"),
        (TokenKind::RBrace, "'}'"),
        (TokenKind::Comma, "','"),
        (TokenKind::Eol, "the end of the line"),
        (TokenKind::Plus, "'+'"),
        (TokenKind::Minus, "'-'"),
        (TokenKind::Star, "'*'"),
        (TokenKind::Slash, "'/'"),
        (TokenKind::Percent, "'%'"),
        (TokenKind::Equal, "'='"),
        (TokenKind::DoubleEqual, "'=='"),
        (TokenKind::BangEqual, "'!='"),
        (TokenKind::Greater, "'>'"),
        (TokenKind::GreaterEqual, "'>='"),
        (TokenKind::Lesser, "'<'"),
        (TokenKind::LesserEqual, "'<='"),
        (TokenKind::Ampersand, "'&'"),
        (TokenKind::Pipe, "'|'"),
        (TokenKind::Bang, "'!'"),
    ];
    for (found, name) in kinds {
        assert_eq!(
            LangError::new(Reason::UnexpectedToken { found }, span(0, 0)).message(),
            format!("unexpected {name}")
        );
    }
}

#[test]
fn error_kinds() {
    let kind = |reason| LangError::new(reason, span(0, 0)).kind();
    assert_eq!(kind(Reason::UnterminatedString), ErrorKind::Lex);
    assert_eq!(kind(Reason::UnrecognizedCharacter), ErrorKind::Lex);
    assert_eq!(kind(Reason::UnexpectedEnd), ErrorKind::Parse);
    assert_eq!(kind(Reason::InvalidDeclaration), ErrorKind::Parse);
    assert_eq!(kind(Reason::UnterminatedParen), ErrorKind::Parse);
    assert_eq!(kind(Reason::UnterminatedBlock), ErrorKind::Parse);
    assert_eq!(kind(Reason::InvalidAssignmentTarget), ErrorKind::Parse);
    assert_eq!(kind(Reason::UnsupportedSyntax), ErrorKind::Parse);
    assert_eq!(kind(Reason::UnexpectedToken { found: TokenKind::Eol }), ErrorKind::Parse);
    assert_eq!(kind(Reason::TypeMismatch), ErrorKind::Runtime);
    assert_eq!(kind(Reason::UndefinedVariable), ErrorKind::Runtime);
    assert_eq!(kind(Reason::UnsupportedOperation), ErrorKind::Runtime);
}

#[test]
fn a_parse_failure_renders_at_its_token() {
    let source = "var = 5";
    let failure = parse_single_expression(source).unwrap_err();
    let builder = ErrorBuilder::new(source.to_string());
    let diagnostic = builder.diagnose(&failure);
    assert_eq!(
        diagnostic,
        Diagnostic {
            source_text: source.to_string(),
            message: "expected an identifier but found '='".to_string(),
            span: span(4, 5),
        }
    );
    assert_eq!(
        diagnostic.render(),
        "error: expected an identifier but found '='\n --> line 1, column 5\n  | var = 5\n  |     ^\n"
    );
    assert_eq!(builder.build(&diagnostic.message, diagnostic.span), diagnostic.render());
}

#[test]
fn emit_records_without_rendering() {
    let mut builder = ErrorBuilder::new("a b".to_string());
    assert!(builder.emitted.is_empty());
    builder.emit("first", span(0, 1));
    builder.emit("second", span(2, 3));
    assert_eq!(
        builder.emitted,
        vec![
            Diagnostic { source_text: "a b".to_string(), message: "first".to_string(), span: span(0, 1) },
            Diagnostic { source_text: "a b".to_string(), message: "second".to_string(), span: span(2, 3) },
        ]
    );
    assert_eq!(builder.input, "a b");
}
