use minilang::ast_nodes::{BinaryOp, Literal, Node, NodeSpan, UnaryOp};
use minilang::lang_errors::{ErrorKind, LangError, Reason};
use minilang::program::{parse_program, parse_single_expression};
use minilang::spans::Span;
use minilang::token_parser::{Parser, TokenIter};
use minilang::tokens::{Token, TokenKind};

fn span(start: usize, end: usize) -> Span {
    Span { start, end }
}

fn number(digits: &str, start: usize, end: usize) -> NodeSpan {
    NodeSpan { node: Node::Literal(Literal::Number(digits.to_string())), span: span(start, end) }
}

fn variable(name: &str, start: usize, end: usize) -> NodeSpan {
    NodeSpan { node: Node::Variable { name: name.to_string() }, span: span(start, end) }
}

fn binary(op: BinaryOp, left: NodeSpan, right: NodeSpan) -> NodeSpan {
    let span = span(left.span.start, right.span.end);
    NodeSpan { node: Node::BinaryExpr { op, left: Box::new(left), right: Box::new(right) }, span }
}

fn error(reason: Reason, start: usize, end: usize) -> LangError {
    LangError { reason, span: span(start, end) }
}

/// Writes an expression with a pair of parentheses round every operator.
fn shape(node: &NodeSpan) -> String {
    match &node.node {
        Node::Literal(Literal::Null) => "null".to_string(),
        Node::Literal(Literal::Bool(b)) => format!("{b}"),
        Node::Literal(Literal::Number(digits)) => digits.clone(),
        Node::Literal(Literal::Str(text)) => format!("{text:?}"),
        Node::Variable { name } => name.clone(),
        Node::Declaration { name, initializer } => format!("(var {name} {})", shape(initializer)),
        Node::Assignment { name, value } => format!("(set {name} {})", shape(value)),
        Node::BinaryExpr { op, left, right } => {
            format!("({op:?} {} {})", shape(left), shape(right))
        }
        Node::UnaryExpr { op, operand } => format!("({op:?} {})", shape(operand)),
        Node::Call { callee, args } => {
            let args: Vec<String> = args.iter().map(shape).collect();
            format!("(call {} [{}])", shape(callee), args.join(" "))
        }
        Node::Block { statements, tail } => {
            let statements: Vec<String> = statements.iter().map(shape).collect();
            let tail = match tail {
                Some(last) => shape(last),
                None => "-".to_string(),
            };
            format!("{{{} => {}}}", statements.join("; "), tail)
        }
        Node::DoBlock { body } => format!("(do {})", shape(body)),
        Node::Loop { body } => format!("(loop {})", shape(body)),
    }
}

fn parsed(text: &str) -> String {
    shape(&parse_single_expression(text).unwrap())
}

#[test]
fn multiplication_binds_tighter_than_addition() {
    assert_eq!(
        parse_single_expression("1 + 2 * 3").unwrap(),
        binary(
            BinaryOp::Add,
            number("1", 0, 1),
            binary(BinaryOp::Multiply, number("2", 4, 5), number("3", 8, 9)),
        )
    );
    assert_eq!(parsed("1 * 2 + 3"), "(Add (Multiply 1 2) 3)");
    assert_eq!(parsed("(1 + 2) * 3"), "(Multiply (Add 1 2) 3)");
}

#[test]
fn binary_operators_group_to_the_left() {
    assert_eq!(parsed("10 - 3 - 2"), "(Subtract (Subtract 10 3) 2)");
    assert_eq!(parsed("8 / 4 / 2"), "(Divide (Divide 8 4) 2)");
    assert_eq!(parsed("a and b and c"), "(And (And a b) c)");
    assert_eq!(parsed("1 - 2 + 3 - 4"), "(Subtract (Add (Subtract 1 2) 3) 4)");
}

#[test]
fn precedence_levels_from_or_up_to_unary() {
    assert_eq!(
        parsed("a or b and c == d < e + f * -g"),
        "(Or a (And b (IsEqual c (Lesser d (Add e (Multiply f (Negative g)))))))"
    );
    assert_eq!(
        parsed("-a * b + c < d != e and f or g"),
        "(Or (And (IsDifferent (Lesser (Add (Multiply (Negative a) b) c) d) e) f) g)"
    );
    assert_eq!(parsed("a | b & c"), "(Or a (And b c))");
    assert_eq!(parsed("1 % 2 >= 3 <= 4 > 5"), "(Greater (LesserEqual (GreaterEqual (Modulo 1 2) 3) 4) 5)");
}

#[test]
fn unary_operators_apply_to_a_primary() {
    assert_eq!(parsed("not true"), "(Not true)");
    assert_eq!(parsed("!x"), "(Not x)");
    assert_eq!(parsed("- - 1"), "(Negative (Negative 1))");
    assert_eq!(parsed("not a == b"), "(IsEqual (Not a) b)");
    assert_eq!(parsed("-(1 + 2)"), "(Negative (Add 1 2))");
    assert_eq!(
        parse_single_expression("-x").unwrap(),
        NodeSpan {
            node: Node::UnaryExpr { op: UnaryOp::Negative, operand: Box::new(variable("x", 1, 2)) },
            span: span(0, 2),
        }
    );
}

#[test]
fn literals_and_names() {
    assert_eq!(parse_single_expression("12.5").unwrap(), number("12.5", 0, 4));
    assert_eq!(
        parse_single_expression("\"hi there\"").unwrap(),
        NodeSpan { node: Node::Literal(Literal::Str("hi there".to_string())), span: span(0, 10) }
    );
    assert_eq!(
        parse_single_expression("\"żółw\"").unwrap(),
        NodeSpan { node: Node::Literal(Literal::Str("żółw".to_string())), span: span(0, 9) }
    );
    assert_eq!(
        parse_single_expression(" true").unwrap(),
        NodeSpan { node: Node::Literal(Literal::Bool(true)), span: span(1, 5) }
    );
    assert_eq!(
        parse_single_expression("false").unwrap(),
        NodeSpan { node: Node::Literal(Literal::Bool(false)), span: span(0, 5) }
    );
    assert_eq!(parse_single_expression("count_1").unwrap(), variable("count_1", 0, 7));
}

#[test]
fn parentheses_widen_the_span_of_what_they_hold() {
    let tree = parse_single_expression("(1 + 2) * 3").unwrap();
    assert_eq!(tree.span, span(0, 11));
    match tree.node {
        Node::BinaryExpr { op: BinaryOp::Multiply, left, right } => {
            assert_eq!(left.span, span(0, 7));
            assert_eq!(right.span, span(10, 11));
            match left.node {
                Node::BinaryExpr { op: BinaryOp::Add, left, right } => {
                    assert_eq!(left.span, span(1, 2));
                    assert_eq!(right.span, span(5, 6));
                }
                other => panic!("{other:?}"),
            }
        }
        other => panic!("{other:?}"),
    }
    assert_eq!(parse_single_expression("((x))").unwrap(), variable("x", 0, 5));
}

fn check_spans(node: &NodeSpan) {
    let inside = |child: &NodeSpan| {
        assert!(node.span.start <= child.span.start && child.span.end <= node.span.end);
        check_spans(child);
    };
    assert!(node.span.start <= node.span.end);
    match &node.node {
        Node::Literal(_) | Node::Variable { .. } => {}
        Node::Declaration { initializer, .. } => inside(initializer),
        Node::Assignment { value, .. } => inside(value),
        Node::BinaryExpr { left, right, .. } => {
            inside(left);
            inside(right);
            assert!(left.span.end <= right.span.start);
        }
        Node::UnaryExpr { operand, .. } => inside(operand),
        Node::Call { callee, args } => {
            inside(callee);
            for arg in args {
                inside(arg);
                assert!(callee.span.end <= arg.span.start);
            }
        }
        Node::Block { statements, tail } => {
            for statement in statements {
                inside(statement);
            }
            if let Some(last) = tail {
                inside(last);
            }
        }
        Node::DoBlock { body } | Node::Loop { body } => inside(body),
    }
}

#[test]
fn a_node_spans_from_its_first_token_to_its_last() {
    let text = "  total = f(a, 2 * (b - 1))(c) + do { var y = -x; y = y + 1\n loop { y } }  ";
    let tree = parse_single_expression(text).unwrap();
    assert_eq!(tree.span, span(2, text.len() - 2));
    check_spans(&tree);
    assert_eq!(
        shape(&tree),
        "(set total (Add (call (call f [a (Multiply 2 (Subtract b 1))]) [c]) \
         (do {(var y (Negative x)); (set y (Add y 1)) => (loop { => y})})))"
    );
}

#[test]
fn calls_take_arguments_in_order() {
    assert_eq!(parsed("f()"), "(call f [])");
    assert_eq!(parsed("f(1)"), "(call f [1])");
    assert_eq!(parsed("f(1, x, 2 + 3)"), "(call f [1 x (Add 2 3)])");
    assert_eq!(parsed("f(1)(2)"), "(call (call f [1]) [2])");
    assert_eq!(parsed("f() + g()"), "(Add (call f []) (call g []))");
    let tree = parse_single_expression("f(a, b)").unwrap();
    assert_eq!(tree.span, span(0, 7));
    match tree.node {
        Node::Call { callee, args } => {
            assert_eq!(*callee, variable("f", 0, 1));
            assert_eq!(args, vec![variable("a", 2, 3), variable("b", 5, 6)]);
        }
        other => panic!("{other:?}"),
    }
}

#[test]
fn malformed_calls_are_parse_errors() {
    assert_eq!(
        parse_single_expression("f(1,)"),
        Err(error(Reason::UnexpectedToken { found: TokenKind::RParen }, 4, 5))
    );
    assert_eq!(
        parse_single_expression("f(1 2)"),
        Err(error(Reason::UnexpectedToken { found: TokenKind::Num }, 4, 5))
    );
    // The span is that of the opening parenthesis.
    assert_eq!(parse_single_expression("f(1, 2"), Err(error(Reason::UnterminatedParen, 1, 2)));
    assert_eq!(parse_single_expression("f("), Err(error(Reason::UnterminatedParen, 1, 2)));
}

#[test]
fn assignment_takes_a_bare_identifier() {
    assert_eq!(
        parse_single_expression("x = 1 + 2").unwrap(),
        NodeSpan {
            node: Node::Assignment {
                name: "x".to_string(),
                value: Box::new(binary(BinaryOp::Add, number("1", 4, 5), number("2", 8, 9))),
            },
            span: span(0, 9),
        }
    );
    assert_eq!(parsed("x = y = 3"), "(set x (set y 3))");
    assert_eq!(parsed("x == 1"), "(IsEqual x 1)");
}

#[test]
fn assignment_to_anything_else_points_at_the_equal_sign() {
    let expected = |start, end| Err(error(Reason::InvalidAssignmentTarget, start, end));
    assert_eq!(parse_single_expression("1 = 2"), expected(2, 3));
    assert_eq!(parse_single_expression("a + b = 2"), expected(6, 7));
    assert_eq!(parse_single_expression("(x) = 2"), expected(4, 5));
    assert_eq!(parse_single_expression("f() = 2"), expected(4, 5));
    assert_eq!(parse_single_expression("-x = 2"), expected(3, 4));
    assert_eq!(parse_single_expression("\"s\" = 2"), expected(4, 5));
}

#[test]
fn declaration_with_and_without_initializer() {
    assert_eq!(
        parse_single_expression("var x = 5").unwrap(),
        NodeSpan {
            node: Node::Declaration {
                name: "x".to_string(),
                initializer: Box::new(number("5", 8, 9)),
            },
            span: span(0, 9),
        }
    );
    // Without an initializer the variable starts as null.
    assert_eq!(
        parse_single_expression("var x").unwrap(),
        NodeSpan {
            node: Node::Declaration {
                name: "x".to_string(),
                initializer: Box::new(NodeSpan {
                    node: Node::Literal(Literal::Null),
                    span: span(4, 5),
                }),
            },
            span: span(0, 5),
        }
    );
}

#[test]
fn declaration_without_a_name_points_at_what_stands_there() {
    let failure = parse_single_expression("var = 5").unwrap_err();
    assert_eq!(
        failure,
        error(
            Reason::Expected { expected: TokenKind::Identifier, found: TokenKind::Equal },
            4,
            5
        )
    );
    assert_eq!(failure.kind(), ErrorKind::Parse);
    assert_eq!(&"var = 5"[failure.span.start..failure.span.end], "=");
    assert_eq!(parse_program("var = 5"), Err(failure));
    assert_eq!(parse_single_expression("var"), Err(error(Reason::UnexpectedEnd, 3, 3)));
    assert_eq!(
        parse_single_expression("var x 5"),
        Err(error(Reason::InvalidDeclaration, 6, 7))
    );
}

#[test]
fn blocks_have_statements_and_maybe_a_tail() {
    assert_eq!(parsed("do { 1; 2 }"), "(do {1 => 2})");
    assert_eq!(parsed("do { 1; 2; }"), "(do {1; 2 => -})");
    assert_eq!(parsed("do { }"), "(do { => -})");
    assert_eq!(parsed("do {\n var x = 1\n\n x + 1\n}"), "(do {(var x 1); (Add x 1) => -})");
    assert_eq!(parsed("do { var x }"), "(do { => (var x null)})");
    assert_eq!(parsed("loop { x = x + 1 }"), "(loop { => (set x (Add x 1))})");
    assert_eq!(parsed("1 + do { 2 } * 3"), "(Add 1 (Multiply (do { => 2}) 3))");
    let tree = parse_single_expression("do { 1; 2 }").unwrap();
    assert_eq!(tree.span, span(0, 11));
    match tree.node {
        Node::DoBlock { body } => {
            assert_eq!(body.span, span(3, 11));
            assert_eq!(
                body.node,
                Node::Block {
                    statements: vec![number("1", 5, 6)],
                    tail: Some(Box::new(number("2", 8, 9))),
                }
            );
        }
        other => panic!("{other:?}"),
    }
}

#[test]
fn malformed_blocks_are_parse_errors() {
    // The span is that of the opening brace.
    assert_eq!(parse_single_expression("do { 1; 2"), Err(error(Reason::UnterminatedBlock, 3, 4)));
    assert_eq!(parse_single_expression("do {"), Err(error(Reason::UnterminatedBlock, 3, 4)));
    assert_eq!(
        parse_single_expression("do 1"),
        Err(error(Reason::Expected { expected: TokenKind::LBrace, found: TokenKind::Num }, 3, 4))
    );
    assert_eq!(
        parse_single_expression("do { 1 2 }"),
        Err(error(Reason::UnexpectedToken { found: TokenKind::Num }, 7, 8))
    );
    assert_eq!(parse_single_expression("loop"), Err(error(Reason::UnexpectedEnd, 4, 4)));
}

#[test]
fn malformed_expressions_are_parse_errors() {
    assert_eq!(parse_single_expression(""), Err(error(Reason::UnexpectedEnd, 0, 0)));
    assert_eq!(parse_single_expression("1 +"), Err(error(Reason::UnexpectedEnd, 3, 3)));
    assert_eq!(
        parse_single_expression("1 + * 2"),
        Err(error(Reason::UnexpectedToken { found: TokenKind::Star }, 4, 5))
    );
    assert_eq!(
        parse_single_expression(")"),
        Err(error(Reason::UnexpectedToken { found: TokenKind::RParen }, 0, 1))
    );
    // The span is that of the opening parenthesis.
    assert_eq!(parse_single_expression("(1 + 2"), Err(error(Reason::UnterminatedParen, 0, 1)));
    assert_eq!(
        parse_single_expression("(1 + 2 }"),
        Err(error(Reason::Expected { expected: TokenKind::RParen, found: TokenKind::RBrace }, 7, 8))
    );
    assert_eq!(
        parse_single_expression("1 2"),
        Err(error(Reason::UnexpectedToken { found: TokenKind::Num }, 2, 3))
    );
    assert_eq!(parse_single_expression("func"), Err(error(Reason::UnsupportedSyntax, 0, 4)));
    assert_eq!(
        parse_single_expression("1 + 2\n\n").map(|tree| shape(&tree)),
        Ok("(Add 1 2)".to_string())
    );
}

#[test]
fn lex_errors_surface_through_the_parser() {
    let failure = parse_single_expression("1 + $").unwrap_err();
    assert_eq!(failure, error(Reason::UnrecognizedCharacter, 4, 5));
    assert_eq!(failure.kind(), ErrorKind::Lex);
    assert_eq!(
        parse_single_expression("x = \"abc"),
        Err(error(Reason::UnterminatedString, 4, 8))
    );
    assert_eq!(parse_program("var x = 1 ?"), Err(error(Reason::UnrecognizedCharacter, 10, 11)));
}

#[test]
fn a_program_is_a_block_of_declarations() {
    let text = "var x = 1\n\nvar y = x + 2;var z\n";
    let program = parse_program(text).unwrap();
    assert_eq!(program.span, span(0, text.len()));
    assert_eq!(shape(&program), "{(var x 1); (var y (Add x 2)); (var z null) => -}");
    check_spans(&program);
    match &program.node {
        Node::Block { statements, tail: None } => {
            assert_eq!(statements[0].span, span(0, 9));
            assert_eq!(statements[1].span, span(11, 24));
            assert_eq!(statements[2].span, span(25, 30));
        }
        other => panic!("{other:?}"),
    }
    assert_eq!(shape(&parse_program("").unwrap()), "{ => -}");
    assert_eq!(shape(&parse_program("\n\n").unwrap()), "{ => -}");
    assert_eq!(shape(&parse_program("var a = do { 1 }").unwrap()), "{(var a (do { => 1})) => -}");
}

#[test]
fn a_program_takes_declarations_only() {
    assert_eq!(
        parse_program("x = 1"),
        Err(error(Reason::UnexpectedToken { found: TokenKind::Identifier }, 0, 1))
    );
    assert_eq!(parse_program("func f() { }"), Err(error(Reason::UnsupportedSyntax, 0, 4)));
    assert_eq!(
        parse_program("var x = 1 var y = 2"),
        Err(error(Reason::Expected { expected: TokenKind::Eol, found: TokenKind::Var }, 10, 13))
    );
    assert_eq!(
        parse_program("var x = 1\nvar y = (2"),
        Err(error(Reason::UnterminatedParen, 18, 19))
    );
}

#[test]
fn parser_methods_advance_through_the_text() {
    let text = "var a = 1\nvar b = 2\n";
    let mut parser = Parser::new(text);
    let first = parser.parse_top().unwrap().unwrap();
    assert_eq!(shape(&first), "(var a 1)");
    let second = parser.parse_top().unwrap().unwrap();
    assert_eq!(shape(&second), "(var b 2)");
    assert_eq!(second.span, span(10, 19));
    assert!(parser.parse_top().is_none());

    let mut parser = Parser::new("{ 1 } 2 + 3");
    assert_eq!(shape(&parser.parse_block().unwrap()), "{ => 1}");
    assert_eq!(shape(&parser.parse_expr().unwrap()), "(Add 2 3)");
    assert_eq!(parser.parse_expr(), Err(error(Reason::UnexpectedEnd, 11, 11)));

    let mut parser = Parser::new("var q = 7");
    assert_eq!(shape(&parser.batch_parse().unwrap()), "{(var q 7) => -}");

    let parser = Parser::new("abc \"żółw\"");
    assert_eq!(parser.text(&Token { kind: TokenKind::Identifier, span: span(0, 3) }), "abc");
    assert_eq!(parser.text(&Token { kind: TokenKind::Str, span: span(4, 13) }), "\"żółw\"");
}

#[test]
fn token_iter_looks_ahead_by_one() {
    let mut tokens = TokenIter::new("a b");
    let a = Token { kind: TokenKind::Identifier, span: span(0, 1) };
    let b = Token { kind: TokenKind::Identifier, span: span(2, 3) };
    assert_eq!(tokens.peek(), Some(Ok(a)));
    assert_eq!(tokens.peek(), Some(Ok(a)));
    assert_eq!(tokens.next(), Some(Ok(a)));
    assert_eq!(tokens.next(), Some(Ok(b)));
    assert_eq!(tokens.peek(), None);
    assert_eq!(tokens.next(), None);
}
