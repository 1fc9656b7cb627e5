use minilang::ast_nodes::{BinaryOp, NodeSpan};
use minilang::interpreter::{Action, Interpreter, Request};
use minilang::lang_errors::{ErrorKind, LangError, Reason};
use minilang::program::{parse_program, parse_single_expression};
use minilang::scopes::{Binding, Environment};
use minilang::spans::Span;
use minilang::values::Value;

/// What the machine asks of its host: the arithmetic of double-precision numbers.
fn host(request: &Request) -> u64 {
    match request {
        Request::Number { digits } => digits.parse::<f64>().unwrap().to_bits(),
        Request::Arithmetic { op, left, right } => {
            let a = f64::from_bits(*left);
            let b = f64::from_bits(*right);
            let result = match op {
                BinaryOp::Add => a + b,
                BinaryOp::Subtract => a - b,
                BinaryOp::Multiply => a * b,
                BinaryOp::Divide => a / b,
                BinaryOp::Modulo => a % b,
                other => panic!("no arithmetic: {other:?}"),
            };
            result.to_bits()
        }
    }
}

fn run(node: &NodeSpan, scopes: Environment) -> (Result<Value, LangError>, Environment) {
    let mut machine = Interpreter::new(node, scopes);
    loop {
        match machine.execute(100_000) {
            Action::Continue => panic!("the evaluation does not end"),
            Action::Ask(request) => machine.answer(host(&request)),
            Action::Done(value) => return (Ok(value), machine.finish()),
            Action::Failed(error) => return (Err(error), machine.finish()),
        }
    }
}

fn eval(text: &str) -> Result<Value, LangError> {
    let tree = parse_single_expression(text).unwrap();
    run(&tree, Environment::new()).0
}

fn num(x: f64) -> Result<Value, LangError> {
    Ok(Value::Number(x.to_bits()))
}

fn boolean(b: bool) -> Result<Value, LangError> {
    Ok(Value::Bool(b))
}

fn text(s: &str) -> Result<Value, LangError> {
    Ok(Value::Str(s.to_string()))
}

fn failure(reason: Reason, start: usize, end: usize) -> Result<Value, LangError> {
    Err(LangError { reason, span: Span { start, end } })
}

#[test]
fn precedence() {
    assert_eq!(eval("1 + 2 * 3"), num(7.0));
    assert_eq!(eval("(1 + 2) * 3"), num(9.0));
}

#[test]
fn left_associativity() {
    assert_eq!(eval("10 - 3 - 2"), num(5.0));
    assert_eq!(eval("100 / 10 / 5"), num(2.0));
    assert_eq!(eval("2 - 3 + 4"), num(3.0));
}

#[test]
fn arithmetic_on_numbers() {
    assert_eq!(eval("1.5 + 2.25"), num(3.75));
    assert_eq!(eval("7 % 4"), num(3.0));
    assert_eq!(eval("1 / 4"), num(0.25));
    assert_eq!(eval("0.1 + 0.2"), num(0.1 + 0.2));
    assert_eq!(eval("-3 * -(2 + 1)"), num(9.0));
    assert_eq!(eval("1 / 0"), num(f64::INFINITY));
    assert_eq!(eval("- 0"), num(-0.0));
}

#[test]
fn literals_evaluate_to_themselves() {
    assert_eq!(eval("true"), boolean(true));
    assert_eq!(eval("false"), boolean(false));
    assert_eq!(eval("\"hello\""), text("hello"));
    assert_eq!(eval("\"\""), text(""));
    assert_eq!(eval("12.5"), num(12.5));
}

#[test]
fn short_circuit() {
    // The right operand would fail: it is never evaluated.
    assert_eq!(eval("false and missing"), boolean(false));
    assert_eq!(eval("true or missing"), boolean(true));
    assert_eq!(eval("false and f()"), boolean(false));
    assert_eq!(eval("true or loop { }"), boolean(true));
    assert_eq!(eval("0 and missing"), boolean(false));
    assert_eq!(eval("\"x\" or missing"), boolean(true));
    // Where the left operand does not decide, the right one does.
    assert_eq!(eval("true and missing"), failure(Reason::UndefinedVariable, 9, 16));
    assert_eq!(eval("false or missing"), failure(Reason::UndefinedVariable, 9, 16));
    assert_eq!(eval("true and false"), boolean(false));
    assert_eq!(eval("true and 3"), boolean(true));
    assert_eq!(eval("false or 0"), boolean(false));
    assert_eq!(eval("false or \"\""), boolean(true));
    assert_eq!(eval("true & false | true"), boolean(true));
}

#[test]
fn short_circuit_skips_the_effects_of_the_right_operand() {
    assert_eq!(eval("do { var x = 1; false and (x = 2); x }"), num(1.0));
    assert_eq!(eval("do { var x = 1; true or (x = 2); x }"), num(1.0));
    assert_eq!(eval("do { var x = 1; true and (x = 2); x }"), num(2.0));
}

#[test]
fn operands_are_evaluated_left_to_right() {
    assert_eq!(eval("do { var x = 1; (x = 2) + x }"), num(4.0));
    assert_eq!(eval("do { var x = 1; x + (x = 2) }"), num(3.0));
    // The left operand fails first.
    assert_eq!(eval("a + b"), failure(Reason::UndefinedVariable, 0, 1));
}

#[test]
fn truthiness() {
    assert_eq!(eval("not 0"), boolean(true));
    assert_eq!(eval("not (1 - 1)"), boolean(true));
    assert_eq!(eval("not -0"), boolean(true));
    assert_eq!(eval("not 2"), boolean(false));
    assert_eq!(eval("not \"\""), boolean(false));
    assert_eq!(eval("! true"), boolean(false));
    assert_eq!(eval("not do { }"), boolean(true));
    assert_eq!(eval("not (0 / 0)"), boolean(false));
}

#[test]
fn structural_equality() {
    assert_eq!(eval("\"1\" == 1"), boolean(false));
    assert_eq!(eval("\"1\" != 1"), boolean(true));
    assert_eq!(eval("true == 1"), boolean(false));
    assert_eq!(eval("do { } == false"), boolean(false));
    assert_eq!(eval("do { } == do { }"), boolean(true));
    assert_eq!(eval("\"ab\" == \"ab\""), boolean(true));
    assert_eq!(eval("\"ab\" == \"ba\""), boolean(false));
    assert_eq!(eval("1 == 1.0"), boolean(true));
    assert_eq!(eval("0 == -0"), boolean(true));
    assert_eq!(eval("0 / 0 == 0 / 0"), boolean(false));
    assert_eq!(eval("0 / 0 != 0 / 0"), boolean(true));
    assert_eq!(eval("true != false"), boolean(true));
}

#[test]
fn relations_on_numbers() {
    assert_eq!(eval("1 < 2"), boolean(true));
    assert_eq!(eval("2 < 1"), boolean(false));
    assert_eq!(eval("2 <= 2"), boolean(true));
    assert_eq!(eval("3 > 2.5"), boolean(true));
    assert_eq!(eval("2 >= 3"), boolean(false));
    assert_eq!(eval("-1 < 0"), boolean(true));
    assert_eq!(eval("-2 < -1"), boolean(true));
    assert_eq!(eval("-1 < -2"), boolean(false));
    assert_eq!(eval("-0 < 0"), boolean(false));
    assert_eq!(eval("-0 >= 0"), boolean(true));
    assert_eq!(eval("0 / 0 < 1"), boolean(false));
    assert_eq!(eval("0 / 0 >= 1"), boolean(false));
    assert_eq!(eval("1 / 0 > 100"), boolean(true));
    assert_eq!(eval("1 + 1 == 2 and 2 * 2 > 3"), boolean(true));
}

#[test]
fn type_errors() {
    let error = eval("1 + \"a\"").unwrap_err();
    assert_eq!(error, LangError { reason: Reason::TypeMismatch, span: Span { start: 0, end: 7 } });
    assert_eq!(error.kind(), ErrorKind::Runtime);
    assert_eq!(eval("true * 2"), failure(Reason::TypeMismatch, 0, 8));
    assert_eq!(eval("\"a\" + \"b\""), failure(Reason::TypeMismatch, 0, 9));
    assert_eq!(eval("\"a\" < \"b\""), failure(Reason::TypeMismatch, 0, 9));
    assert_eq!(eval("1 <= true"), failure(Reason::TypeMismatch, 0, 9));
    assert_eq!(eval("-\"a\""), failure(Reason::TypeMismatch, 0, 4));
    assert_eq!(eval("- true"), failure(Reason::TypeMismatch, 0, 6));
    assert_eq!(eval("2 * (1 + do { })"), failure(Reason::TypeMismatch, 4, 16));
}

#[test]
fn undefined_variables() {
    let error = eval("x").unwrap_err();
    assert_eq!(
        error,
        LangError { reason: Reason::UndefinedVariable, span: Span { start: 0, end: 1 } }
    );
    assert_eq!(error.kind(), ErrorKind::Runtime);
    assert_eq!(eval("1 + nope"), failure(Reason::UndefinedVariable, 4, 8));
    // Assignment never declares.
    assert_eq!(eval("x = 1"), failure(Reason::UndefinedVariable, 0, 5));
    assert_eq!(eval("do { do { var y = 1 }; y }"), failure(Reason::UndefinedVariable, 23, 24));
}

#[test]
fn calls_are_unsupported() {
    let error = eval("f(1, 2)").unwrap_err();
    assert_eq!(
        error,
        LangError { reason: Reason::UnsupportedOperation, span: Span { start: 0, end: 7 } }
    );
    assert_eq!(error.kind(), ErrorKind::Runtime);
    assert_eq!(eval("1 + g()"), failure(Reason::UnsupportedOperation, 4, 7));
}

#[test]
fn block_tail_value() {
    assert_eq!(eval("do { 1; 2 }"), num(2.0));
    assert_eq!(eval("do { 1; 2; }"), Ok(Value::Null));
    assert_eq!(eval("do { }"), Ok(Value::Null));
    assert_eq!(eval("do { 5 }"), num(5.0));
    assert_eq!(eval("do {\n 1\n 2\n}"), Ok(Value::Null));
    assert_eq!(eval("1 + do { var a = 2; a * 3 }"), num(7.0));
    assert_eq!(eval("do { do { 1 } }"), num(1.0));
}

#[test]
fn scoping() {
    assert_eq!(eval("do { var x = 1; do { var x = 2 }; x }"), num(1.0));
    assert_eq!(eval("do { var x = 1; do { var x = 2; x } }"), num(2.0));
    // Assignment reaches the nearest scope that declares the name.
    assert_eq!(eval("do { var x = 1; do { x = 2 }; x }"), num(2.0));
    assert_eq!(eval("do { var x = 1; do { var x = 5; x = 6 }; x }"), num(1.0));
    assert_eq!(eval("do { var x = 1; do { var y = x + 1; do { x = y + 1 } }; x }"), num(3.0));
    // A second declaration in one scope replaces the first.
    assert_eq!(eval("do { var x = 1; var x = x + 1; x }"), num(2.0));
}

#[test]
fn declarations_and_assignments_as_expressions() {
    assert_eq!(eval("var x = 3"), Ok(Value::Null));
    assert_eq!(eval("do { var x; x }"), Ok(Value::Null));
    assert_eq!(eval("do { var x = 1; x = 5 }"), num(5.0));
    assert_eq!(eval("do { var x = 1; var y = 2; x = y = 7; x + y }"), num(14.0));
    assert_eq!(eval("do { var s = \"a\"; s = \"b\"; s }"), text("b"));
}

#[test]
fn bindings_persist_across_submissions() {
    let mut scopes = Environment::new();
    for (line, expected) in [
        ("var x = 1", Ok(Value::Null)),
        ("do { var x = 2 }", Ok(Value::Null)),
        ("x", num(1.0)),
        ("x = x + 10", num(11.0)),
        ("y", failure(Reason::UndefinedVariable, 0, 1)),
        ("x", num(11.0)),
    ] {
        let tree = parse_single_expression(line).unwrap();
        let (result, after) = run(&tree, scopes);
        assert_eq!(result, expected, "{line}");
        scopes = after;
    }
    assert_eq!(scopes.depth(), 0);
    assert_eq!(scopes.lookup(&"x".to_string()), Some(Value::Number(11f64.to_bits())));
}

#[test]
fn a_failure_inside_blocks_can_be_unwound() {
    let mut scopes = Environment::new();
    let tree = parse_single_expression("var x = 1").unwrap();
    scopes = run(&tree, scopes).1;
    let tree = parse_single_expression("do { var x = 2; do { var z = 3; nope } }").unwrap();
    let (result, mut after) = run(&tree, scopes);
    assert_eq!(result, failure(Reason::UndefinedVariable, 32, 36));
    assert_eq!(after.depth(), 2);
    after.unwind(0);
    assert_eq!(after.depth(), 0);
    assert_eq!(after.lookup(&"x".to_string()), Some(Value::Number(1f64.to_bits())));
    assert_eq!(after.lookup(&"z".to_string()), None);
}

#[test]
fn a_program_runs_its_declarations() {
    let program = parse_program("var a = 2\nvar b = a * 21\n").unwrap();
    let (result, scopes) = run(&program, Environment::new());
    assert_eq!(result, Ok(Value::Null));
    // The program is a block: its scope is left at the end.
    assert_eq!(scopes, Environment::new());
    let program = parse_program("var a = 2\nvar b = c\n").unwrap();
    assert_eq!(run(&program, Environment::new()).0, failure(Reason::UndefinedVariable, 18, 19));
}

#[test]
fn a_loop_runs_until_it_fails() {
    let tree =
        parse_single_expression("do { var n = 0; loop { n = n + 1; n < 5 or stop } }").unwrap();
    let (result, _) = run(&tree, Environment::new());
    assert_eq!(result, failure(Reason::UndefinedVariable, 43, 47));
}

#[test]
fn a_loop_without_failure_uses_up_any_budget() {
    let tree = parse_single_expression("loop { }").unwrap();
    let mut machine = Interpreter::new(&tree, Environment::new());
    assert_eq!(machine.execute(1000), Action::Continue);
    assert_eq!(machine.execute(1000), Action::Continue);
    assert_eq!(machine.execute(0), Action::Continue);
    // Each round enters and leaves its own scope.
    assert!(machine.finish().depth() <= 1);
}

#[test]
fn the_machine_asks_and_waits() {
    let tree = parse_single_expression("2 * 3.5").unwrap();
    let mut machine = Interpreter::new(&tree, Environment::new());
    assert_eq!(machine.status(), Action::Continue);
    assert_eq!(machine.step(), Action::Continue);
    let first = Action::Ask(Request::Number { digits: "2".to_string() });
    assert_eq!(machine.step(), first);
    // It stays where it is until it is answered.
    assert_eq!(machine.step(), first);
    assert_eq!(machine.execute(10), first);
    machine.answer(2f64.to_bits());
    assert_eq!(
        machine.execute(10),
        Action::Ask(Request::Number { digits: "3.5".to_string() })
    );
    machine.answer(3.5f64.to_bits());
    let product = Action::Ask(Request::Arithmetic {
        op: BinaryOp::Multiply,
        left: 2f64.to_bits(),
        right: 3.5f64.to_bits(),
    });
    assert_eq!(machine.execute(10), product);
    machine.answer(7f64.to_bits());
    let done = Action::Done(Value::Number(7f64.to_bits()));
    assert_eq!(machine.execute(10), done);
    // An answer that was not asked for changes nothing.
    machine.answer(1f64.to_bits());
    assert_eq!(machine.step(), done);
    assert_eq!(machine.status(), done);
}

#[test]
fn a_failed_machine_stays_failed() {
    let tree = parse_single_expression("nope").unwrap();
    let mut machine = Interpreter::new(&tree, Environment::new());
    let failed = Action::Failed(LangError {
        reason: Reason::UndefinedVariable,
        span: Span { start: 0, end: 4 },
    });
    assert_eq!(machine.step(), failed);
    assert_eq!(machine.step(), failed);
    machine.answer(0);
    assert_eq!(machine.execute(5), failed);
}

#[test]
fn environment_operations() {
    let mut scopes = Environment::new();
    let x = "x".to_string();
    assert_eq!(scopes.lookup(&x), None);
    assert!(!scopes.assign(x.clone(), Value::Null));
    scopes.declare(x.clone(), Value::Bool(true));
    assert_eq!(scopes.lookup(&x), Some(Value::Bool(true)));
    scopes.enter();
    assert_eq!(scopes.depth(), 1);
    assert_eq!(scopes.lookup(&x), Some(Value::Bool(true)));
    scopes.declare(x.clone(), Value::Null);
    assert_eq!(scopes.lookup(&x), Some(Value::Null));
    assert!(scopes.assign(x.clone(), Value::Str("inner".to_string())));
    assert_eq!(scopes.lookup(&x), Some(Value::Str("inner".to_string())));
    scopes.leave();
    assert_eq!(scopes.lookup(&x), Some(Value::Bool(true)));
    assert_eq!(scopes.depth(), 0);
    // The outermost scope cannot be left.
    scopes.leave();
    assert_eq!(scopes.lookup(&x), Some(Value::Bool(true)));
}

#[test]
fn well_formed_scopes_can_be_told_from_damaged_ones() {
    let mut scopes = Environment::new();
    assert!(scopes.is_well_formed());
    scopes.declare("a".to_string(), Value::Null);
    scopes.enter();
    scopes.enter();
    scopes.declare("b".to_string(), Value::Null);
    scopes.enter();
    assert!(scopes.is_well_formed());
    assert_eq!(scopes.marks, vec![1, 1, 2]);
    let binding = || Binding { name: "x".to_string(), value: Value::Null };
    let beyond = Environment { bindings: vec![binding()], marks: vec![2] };
    assert!(!beyond.is_well_formed());
    let backwards = Environment { bindings: vec![binding(), binding()], marks: vec![2, 1] };
    assert!(!backwards.is_well_formed());
    let fine = Environment { bindings: vec![binding(), binding()], marks: vec![0, 2, 2] };
    assert!(fine.is_well_formed());
}
