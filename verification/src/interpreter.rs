//! The evaluator: a machine that walks the syntax tree one step at a time.
//!
//! The machine holds what is being evaluated, a stack of what is still to be
//! done with each result, and the scopes. It never computes with numbers
//! itself: where the digits of a literal are to be read or two numbers are to
//! be added, subtracted, multiplied, divided or reduced, it stops and asks.
//! The host answers with the bits of the result and the machine goes on. A
//! `loop` never ends by itself; the host decides how many steps to allow.
//!
//! Operands are evaluated from left to right. `and` and `or` give a `Bool`:
//! where the left operand decides, the right one is never started; else the
//! result is the truthiness of the right one. A block enters a scope and
//! leaves it; its value is that of its tail, or `Null` without one. A call
//! fails, as there are no functions yet.

use vstd::prelude::*;
use crate::ast_nodes::{
    tree_of, trees_of, BinaryOp, Literal, LiteralView, Node, NodeSpan, Syntax, Tree, UnaryOp,
};
use crate::lang_errors::{LangError, Reason};
use crate::scopes::{Environment, Scopes};
use crate::spans::Span;
use crate::values::{
    is_arithmetic, is_relation, negate, negated, relate, relation, truthy, values_equal, Value,
    ValueView,
};

verus! {

/// What is still to be done with the value of the expression under evaluation.
pub enum Frame<'a> {
    /// It is the left operand of `op`: the right one comes next.
    Right { op: BinaryOp, right: &'a NodeSpan, span: Span },
    /// It is the right operand of `op`, whose left operand gave `left`.
    Apply { op: BinaryOp, left: Value, span: Span },
    /// It is the right operand of `and` or `or`: its truthiness is the result.
    Truth,
    /// It is the operand of `op`.
    Unary { op: UnaryOp, span: Span },
    /// It is the initial value of the variable `name`.
    Declare { name: &'a String },
    /// It is the new value of the variable `name`.
    Assign { name: &'a String, span: Span },
    /// It is the value of a part of a block: `next` counts the statements
    /// started, and `tailing` says that the part is the tail.
    Block {
        statements: &'a Vec<NodeSpan>,
        tail: &'a Option<Box<NodeSpan>>,
        next: usize,
        tailing: bool,
    },
    /// It is the value of one round of a loop, whose body is run again.
    Loop { body: &'a NodeSpan },
}

/// What the machine is doing.
pub enum Control<'a> {
    /// The node is to be evaluated.
    Eval(&'a NodeSpan),
    /// A value is handed to the top of the stack.
    Return(Value),
    /// The host is to read the digits of a number.
    Digits(&'a String),
    /// The host is to apply an arithmetic operator to two numbers.
    Arithmetic { op: BinaryOp, left: u64, right: u64 },
    /// The evaluation has failed.
    Failed(LangError),
}

/// What the machine asks of its host. The answer is the bits of a number.
#[derive(Clone, Debug, PartialEq)]
pub enum Request {
    /// The number that the digits of a literal denote.
    Number { digits: String },
    /// The result of an arithmetic operator on two numbers.
    Arithmetic { op: BinaryOp, left: u64, right: u64 },
}

/// What the machine reports after it has run.
#[derive(Clone, Debug, PartialEq)]
pub enum Action {
    /// It can go on by itself.
    Continue,
    /// It waits for the host's answer.
    Ask(Request),
    /// The evaluation is done: this is its value.
    Done(Value),
    /// The evaluation has failed.
    Failed(LangError),
}

/// The mathematical value of a `Frame`.
pub enum FrameView {
    Right { op: BinaryOp, right: Tree, span: Span },
    Apply { op: BinaryOp, left: ValueView, span: Span },
    Truth,
    Unary { op: UnaryOp, span: Span },
    Declare { name: Seq<char> },
    Assign { name: Seq<char>, span: Span },
    Block { statements: Seq<Tree>, tail: Option<Tree>, next: nat, tailing: bool },
    Loop { body: Tree },
}

/// The mathematical value of a `Control`.
pub enum ControlView {
    Eval(Tree),
    Return(ValueView),
    Digits(Seq<char>),
    Arithmetic { op: BinaryOp, left: u64, right: u64 },
    Failed(LangError),
}

/// The mathematical value of a `Request`.
pub enum RequestView {
    Number { digits: Seq<char> },
    Arithmetic { op: BinaryOp, left: u64, right: u64 },
}

/// The mathematical value of an `Action`.
pub enum ActionView {
    Continue,
    Ask(RequestView),
    Done(ValueView),
    Failed(LangError),
}

/// The mathematical value of the machine.
pub struct State {
    pub control: ControlView,
    pub stack: Seq<FrameView>,
    pub scopes: Scopes,
}

/// The tail of a block as a tree.
pub open spec fn tail_tree(tail: Option<Box<NodeSpan>>) -> Option<Tree> {
    match tail {
        Some(last) => Some(tree_of(*last)),
        None => None,
    }
}

impl<'a> View for Frame<'a> {
    type V = FrameView;

    open spec fn view(&self) -> FrameView {
        match self {
            Frame::Right { op, right, span } => FrameView::Right {
                op: *op,
                right: tree_of(**right),
                span: *span,
            },
            Frame::Apply { op, left, span } => FrameView::Apply {
                op: *op,
                left: left@,
                span: *span,
            },
            Frame::Truth => FrameView::Truth,
            Frame::Unary { op, span } => FrameView::Unary { op: *op, span: *span },
            Frame::Declare { name } => FrameView::Declare { name: name@ },
            Frame::Assign { name, span } => FrameView::Assign { name: name@, span: *span },
            Frame::Block { statements, tail, next, tailing } => FrameView::Block {
                statements: trees_of(statements@),
                tail: tail_tree(**tail),
                next: *next as nat,
                tailing: *tailing,
            },
            Frame::Loop { body } => FrameView::Loop { body: tree_of(**body) },
        }
    }
}

impl<'a> View for Control<'a> {
    type V = ControlView;

    open spec fn view(&self) -> ControlView {
        match self {
            Control::Eval(node) => ControlView::Eval(tree_of(**node)),
            Control::Return(value) => ControlView::Return(value@),
            Control::Digits(digits) => ControlView::Digits(digits@),
            Control::Arithmetic { op, left, right } => ControlView::Arithmetic {
                op: *op,
                left: *left,
                right: *right,
            },
            Control::Failed(error) => ControlView::Failed(*error),
        }
    }
}

impl View for Request {
    type V = RequestView;

    open spec fn view(&self) -> RequestView {
        match self {
            Request::Number { digits } => RequestView::Number { digits: digits@ },
            Request::Arithmetic { op, left, right } => RequestView::Arithmetic {
                op: *op,
                left: *left,
                right: *right,
            },
        }
    }
}

impl View for Action {
    type V = ActionView;

    open spec fn view(&self) -> ActionView {
        match self {
            Action::Continue => ActionView::Continue,
            Action::Ask(request) => ActionView::Ask(request@),
            Action::Done(value) => ActionView::Done(value@),
            Action::Failed(error) => ActionView::Failed(*error),
        }
    }
}

/// The frames as plain values, the top of the stack last.
pub open spec fn frames<'a>(stack: Seq<Frame<'a>>) -> Seq<FrameView> {
    Seq::new(stack.len(), |i: int| stack[i]@)
}

/// The control of a machine that has failed for a reason at a span.
pub open spec fn failed(reason: Reason, span: Span) -> ControlView {
    ControlView::Failed(LangError { reason, span })
}

/// What applying a binary operator to two values leads to: a value, a
/// question to the host, or a failure. The arithmetic operators and the
/// relations take numbers only; equality takes any two values.
pub open spec fn applied(op: BinaryOp, left: ValueView, right: ValueView, span: Span) -> ControlView {
    if is_arithmetic(op) {
        match (left, right) {
            (ValueView::Number(a), ValueView::Number(b)) => ControlView::Arithmetic {
                op,
                left: a,
                right: b,
            },
            _ => failed(Reason::TypeMismatch, span),
        }
    } else if is_relation(op) {
        match (left, right) {
            (ValueView::Number(a), ValueView::Number(b)) => ControlView::Return(
                ValueView::Bool(relation(op, a, b)),
            ),
            _ => failed(Reason::TypeMismatch, span),
        }
    } else if op is IsEqual {
        ControlView::Return(ValueView::Bool(values_equal(left, right)))
    } else if op is IsDifferent {
        ControlView::Return(ValueView::Bool(!values_equal(left, right)))
    } else {
        ControlView::Return(ValueView::Bool(truthy(right)))
    }
}

/// The state with another control.
pub open spec fn with_control(s: State, control: ControlView) -> State {
    State { control, stack: s.stack, scopes: s.scopes }
}

/// The state with one more frame on the stack and another control.
pub open spec fn pushed(s: State, frame: FrameView, control: ControlView) -> State {
    State { control, stack: s.stack.push(frame), scopes: s.scopes }
}

/// The state after the machine has started on `tree`.
pub open spec fn entered(s: State, tree: Tree) -> State {
    match tree.node {
        Syntax::Literal(LiteralView::Null) => with_control(s, ControlView::Return(ValueView::Null)),
        Syntax::Literal(LiteralView::Bool(b)) => with_control(
            s,
            ControlView::Return(ValueView::Bool(b)),
        ),
        Syntax::Literal(LiteralView::Str(text)) => with_control(
            s,
            ControlView::Return(ValueView::Str(text)),
        ),
        Syntax::Literal(LiteralView::Number(digits)) => with_control(s, ControlView::Digits(digits)),
        Syntax::Variable { name } => match s.scopes.lookup(name) {
            Some(value) => with_control(s, ControlView::Return(value)),
            None => with_control(s, failed(Reason::UndefinedVariable, tree.span)),
        },
        Syntax::Declaration { name, initializer } => pushed(
            s,
            FrameView::Declare { name },
            ControlView::Eval(*initializer),
        ),
        Syntax::Assignment { name, value } => pushed(
            s,
            FrameView::Assign { name, span: tree.span },
            ControlView::Eval(*value),
        ),
        Syntax::BinaryExpr { op, left, right } => pushed(
            s,
            FrameView::Right { op, right: *right, span: tree.span },
            ControlView::Eval(*left),
        ),
        Syntax::UnaryExpr { op, operand } => pushed(
            s,
            FrameView::Unary { op, span: tree.span },
            ControlView::Eval(*operand),
        ),
        Syntax::Call { .. } => with_control(s, failed(Reason::UnsupportedOperation, tree.span)),
        Syntax::Block { statements, tail } => State {
            control: ControlView::Return(ValueView::Null),
            stack: s.stack.push(
                FrameView::Block {
                    statements,
                    tail: match tail {
                        Some(last) => Some(*last),
                        None => None,
                    },
                    next: 0,
                    tailing: false,
                },
            ),
            scopes: s.scopes.entered(),
        },
        Syntax::DoBlock { body } => with_control(s, ControlView::Eval(*body)),
        Syntax::Loop { body } => pushed(s, FrameView::Loop { body: *body }, ControlView::Eval(*body)),
    }
}

/// The state after `value` was handed to `frame`, which has left the stack.
pub open spec fn resumed(s: State, frame: FrameView, value: ValueView) -> State {
    match frame {
        FrameView::Right { op, right, span } => if op is And {
            if truthy(value) {
                pushed(s, FrameView::Truth, ControlView::Eval(right))
            } else {
                with_control(s, ControlView::Return(ValueView::Bool(false)))
            }
        } else if op is Or {
            if truthy(value) {
                with_control(s, ControlView::Return(ValueView::Bool(true)))
            } else {
                pushed(s, FrameView::Truth, ControlView::Eval(right))
            }
        } else {
            pushed(s, FrameView::Apply { op, left: value, span }, ControlView::Eval(right))
        },
        FrameView::Apply { op, left, span } => with_control(s, applied(op, left, value, span)),
        FrameView::Truth => with_control(s, ControlView::Return(ValueView::Bool(truthy(value)))),
        FrameView::Unary { op, span } => match op {
            UnaryOp::Not => with_control(s, ControlView::Return(ValueView::Bool(!truthy(value)))),
            UnaryOp::Negative => match value {
                ValueView::Number(bits) => with_control(
                    s,
                    ControlView::Return(ValueView::Number(negated(bits))),
                ),
                _ => with_control(s, failed(Reason::TypeMismatch, span)),
            },
        },
        FrameView::Declare { name } => State {
            control: ControlView::Return(ValueView::Null),
            stack: s.stack,
            scopes: s.scopes.declared(name, value),
        },
        FrameView::Assign { name, span } => match s.scopes.assigned(name, value) {
            Some(scopes) => State { control: ControlView::Return(value), stack: s.stack, scopes },
            None => with_control(s, failed(Reason::UndefinedVariable, span)),
        },
        FrameView::Block { statements, tail, next, tailing } => if !tailing && next
            < statements.len() {
            pushed(
                s,
                FrameView::Block { statements, tail, next: next + 1, tailing },
                ControlView::Eval(statements[next as int]),
            )
        } else if !tailing && tail is Some {
            pushed(
                s,
                FrameView::Block { statements, tail, next, tailing: true },
                ControlView::Eval(tail->0),
            )
        } else {
            State {
                control: ControlView::Return(if tailing { value } else { ValueView::Null }),
                stack: s.stack,
                scopes: s.scopes.left(),
            }
        },
        FrameView::Loop { body } => pushed(s, FrameView::Loop { body }, ControlView::Eval(body)),
    }
}

/// One step of the machine. A machine that waits for its host, has failed,
/// or holds the final value stays as it is.
pub open spec fn moved(s: State) -> State {
    match s.control {
        ControlView::Eval(tree) => entered(s, tree),
        ControlView::Return(value) => if s.stack.len() == 0 {
            s
        } else {
            resumed(
                State { control: s.control, stack: s.stack.drop_last(), scopes: s.scopes },
                s.stack.last(),
                value,
            )
        },
        _ => s,
    }
}

/// What a machine in this state reports.
pub open spec fn status(s: State) -> ActionView {
    match s.control {
        ControlView::Eval(_) => ActionView::Continue,
        ControlView::Return(value) => if s.stack.len() == 0 {
            ActionView::Done(value)
        } else {
            ActionView::Continue
        },
        ControlView::Digits(digits) => ActionView::Ask(RequestView::Number { digits }),
        ControlView::Arithmetic { op, left, right } => ActionView::Ask(
            RequestView::Arithmetic { op, left, right },
        ),
        ControlView::Failed(error) => ActionView::Failed(error),
    }
}

/// The state after the host has answered with the bits of a number. A
/// machine that had not asked stays as it is.
pub open spec fn answered(s: State, bits: u64) -> State {
    match s.control {
        ControlView::Digits(_) | ControlView::Arithmetic { .. } => with_control(
            s,
            ControlView::Return(ValueView::Number(bits)),
        ),
        _ => s,
    }
}

/// The state after at most `budget` steps: the machine stops before that
/// where it cannot go on by itself.
pub open spec fn ran(s: State, budget: nat) -> State
    decreases budget,
{
    if budget == 0 || !(status(s) is Continue) {
        s
    } else {
        ran(moved(s), (budget - 1) as nat)
    }
}

/// The evaluator of one syntax tree.
pub struct Interpreter<'a> {
    pub control: Control<'a>,
    pub stack: Vec<Frame<'a>>,
    pub scopes: Environment,
}

impl<'a> View for Interpreter<'a> {
    type V = State;

    open spec fn view(&self) -> State {
        State { control: self.control@, stack: frames(self.stack@), scopes: self.scopes@ }
    }
}

impl<'a> Interpreter<'a> {
    /// The scopes are well formed.
    pub open spec fn wf(&self) -> bool {
        self.scopes.wf()
    }

    /// A machine that is about to evaluate `root` in the given scopes.
    pub fn new(root: &'a NodeSpan, scopes: Environment) -> (machine: Interpreter<'a>)
        requires
            scopes.wf(),
        ensures
            machine.wf(),
            machine@ == (State {
                control: ControlView::Eval(root@),
                stack: Seq::empty(),
                scopes: scopes@,
            }),
    {
        let machine = Interpreter { control: Control::Eval(root), stack: Vec::new(), scopes };
        assert(machine@.stack =~= Seq::empty());
        machine
    }

    fn push(&mut self, frame: Frame<'a>)
        ensures
            final(self)@ == (State {
                control: old(self)@.control,
                stack: old(self)@.stack.push(frame@),
                scopes: old(self)@.scopes,
            }),
            final(self).scopes == old(self).scopes,
            final(self).control == old(self).control,
    {
        self.stack.push(frame);
        assert(self@.stack =~= old(self)@.stack.push(frame@));
    }

    fn fail(&mut self, reason: Reason, span: Span)
        ensures
            final(self)@ == with_control(old(self)@, failed(reason, span)),
            final(self).scopes == old(self).scopes,
    {
        self.control = Control::Failed(LangError { reason, span });
    }

    fn give(&mut self, value: Value)
        ensures
            final(self)@ == with_control(old(self)@, ControlView::Return(value@)),
            final(self).scopes == old(self).scopes,
    {
        self.control = Control::Return(value);
    }

    fn eval(&mut self, node: &'a NodeSpan)
        ensures
            final(self)@ == with_control(old(self)@, ControlView::Eval(node@)),
            final(self).scopes == old(self).scopes,
    {
        self.control = Control::Eval(node);
    }

    /// Starts on a node.
    fn enter(&mut self, node: &'a NodeSpan)
        requires
            old(self).wf(),
        ensures
            final(self).wf(),
            final(self)@ == entered(old(self)@, node@),
    {
        match &node.node {
            Node::Literal(Literal::Null) => self.give(Value::Null),
            Node::Literal(Literal::Bool(b)) => self.give(Value::Bool(*b)),
            Node::Literal(Literal::Str(text)) => self.give(Value::Str(text.clone())),
            Node::Literal(Literal::Number(digits)) => {
                self.control = Control::Digits(digits);
            },
            Node::Variable { name } => match self.scopes.lookup(name) {
                Some(value) => self.give(value),
                None => self.fail(Reason::UndefinedVariable, node.span),
            },
            Node::Declaration { name, initializer } => {
                self.push(Frame::Declare { name });
                self.eval(&**initializer);
            },
            Node::Assignment { name, value } => {
                self.push(Frame::Assign { name, span: node.span });
                self.eval(&**value);
            },
            Node::BinaryExpr { op, left, right } => {
                self.push(Frame::Right { op: *op, right: &**right, span: node.span });
                self.eval(&**left);
            },
            Node::UnaryExpr { op, operand } => {
                self.push(Frame::Unary { op: *op, span: node.span });
                self.eval(&**operand);
            },
            Node::Call { .. } => self.fail(Reason::UnsupportedOperation, node.span),
            Node::Block { statements, tail } => {
                self.scopes.enter();
                self.push(Frame::Block { statements, tail, next: 0, tailing: false });
                self.give(Value::Null);
            },
            Node::DoBlock { body } => self.eval(&**body),
            Node::Loop { body } => {
                self.push(Frame::Loop { body: &**body });
                self.eval(&**body);
            },
        }
    }

    /// Applies a binary operator to the values of its operands.
    fn apply(&mut self, op: BinaryOp, left: Value, right: Value, span: Span)
        ensures
            final(self)@ == with_control(old(self)@, applied(op, left@, right@, span)),
            final(self).scopes == old(self).scopes,
    {
        match op {
            BinaryOp::Add
            | BinaryOp::Subtract
            | BinaryOp::Multiply
            | BinaryOp::Divide
            | BinaryOp::Modulo => match (left, right) {
                (Value::Number(a), Value::Number(b)) => {
                    self.control = Control::Arithmetic { op, left: a, right: b };
                },
                _ => self.fail(Reason::TypeMismatch, span),
            },
            BinaryOp::Greater
            | BinaryOp::GreaterEqual
            | BinaryOp::Lesser
            | BinaryOp::LesserEqual => match (left, right) {
                (Value::Number(a), Value::Number(b)) => self.give(Value::Bool(relate(op, a, b))),
                _ => self.fail(Reason::TypeMismatch, span),
            },
            BinaryOp::IsEqual => self.give(Value::Bool(left.equals(&right))),
            BinaryOp::IsDifferent => self.give(Value::Bool(!left.equals(&right))),
            BinaryOp::And | BinaryOp::Or => self.give(Value::Bool(right.is_truthy())),
        }
    }

    /// Hands a value to a frame that has left the stack.
    fn resume(&mut self, frame: Frame<'a>, value: Value)
        requires
            old(self).wf(),
        ensures
            final(self).wf(),
            final(self)@ == resumed(old(self)@, frame@, value@),
    {
        match frame {
            Frame::Right { op, right, span } => match op {
                BinaryOp::And => if value.is_truthy() {
                    self.push(Frame::Truth);
                    self.eval(right);
                } else {
                    self.give(Value::Bool(false));
                },
                BinaryOp::Or => if value.is_truthy() {
                    self.give(Value::Bool(true));
                } else {
                    self.push(Frame::Truth);
                    self.eval(right);
                },
                _ => {
                    self.push(Frame::Apply { op, left: value, span });
                    self.eval(right);
                },
            },
            Frame::Apply { op, left, span } => self.apply(op, left, value, span),
            Frame::Truth => self.give(Value::Bool(value.is_truthy())),
            Frame::Unary { op, span } => match op {
                UnaryOp::Not => self.give(Value::Bool(!value.is_truthy())),
                UnaryOp::Negative => match value {
                    Value::Number(bits) => self.give(Value::Number(negate(bits))),
                    _ => self.fail(Reason::TypeMismatch, span),
                },
            },
            Frame::Declare { name } => {
                self.scopes.declare(name.clone(), value);
                self.give(Value::Null);
            },
            Frame::Assign { name, span } => {
                let kept = value.copy();
                if self.scopes.assign(name.clone(), value) {
                    self.give(kept);
                } else {
                    self.fail(Reason::UndefinedVariable, span);
                }
            },
            Frame::Block { statements, tail, next, tailing } => {
                if !tailing && next < statements.len() {
                    self.push(Frame::Block { statements, tail, next: next + 1, tailing });
                    self.eval(&statements[next]);
                } else {
                    match tail {
                        Some(last) if !tailing => {
                            self.push(Frame::Block { statements, tail, next, tailing: true });
                            self.eval(&**last);
                        },
                        _ => {
                            self.scopes.leave();
                            self.give(if tailing { value } else { Value::Null });
                        },
                    }
                }
            },
            Frame::Loop { body } => {
                self.push(Frame::Loop { body });
                self.eval(body);
            },
        }
    }

    /// What the machine has to report in its present state.
    pub fn status(&self) -> (action: Action)
        ensures
            action@ == status(self@),
    {
        match &self.control {
            Control::Eval(_) => Action::Continue,
            Control::Return(value) => if self.stack.len() == 0 {
                Action::Done(value.copy())
            } else {
                Action::Continue
            },
            Control::Digits(digits) => Action::Ask(Request::Number { digits: (*digits).clone() }),
            Control::Arithmetic { op, left, right } => Action::Ask(
                Request::Arithmetic { op: *op, left: *left, right: *right },
            ),
            Control::Failed(error) => Action::Failed(*error),
        }
    }

    /// Makes one step and reports the state reached. A machine that waits
    /// for its host, has failed or is done stays as it is.
    pub fn step(&mut self) -> (action: Action)
        requires
            old(self).wf(),
        ensures
            final(self).wf(),
            final(self)@ == moved(old(self)@),
            action@ == status(final(self)@),
    {
        let mut control = Control::Return(Value::Null);
        core::mem::swap(&mut self.control, &mut control);
        match control {
            Control::Eval(node) => self.enter(node),
            Control::Return(value) => match self.stack.pop() {
                Some(frame) => {
                    assert(self@.stack =~= old(self)@.stack.drop_last());
                    self.resume(frame, value);
                },
                None => {
                    self.control = Control::Return(value);
                    assert(self@.stack =~= old(self)@.stack);
                },
            },
            other => {
                self.control = other;
            },
        }
        self.status()
    }

    /// Makes steps until the machine cannot go on by itself, but `budget`
    /// steps at most, and reports the state reached. `Continue` says that
    /// the budget ran out.
    pub fn execute(&mut self, budget: usize) -> (action: Action)
        requires
            old(self).wf(),
        ensures
            final(self).wf(),
            final(self)@ == ran(old(self)@, budget as nat),
            action@ == status(final(self)@),
    {
        let mut left = budget;
        let mut action = self.status();
        loop
            invariant
                self.wf(),
                action@ == status(self@),
                ran(self@, left as nat) == ran(old(self)@, budget as nat),
            ensures
                self@ == ran(old(self)@, budget as nat),
            decreases left,
        {
            if left == 0 {
                break ;
            }
            match action {
                Action::Continue => {},
                _ => {
                    break ;
                },
            }
            action = self.step();
            left -= 1;
        }
        action
    }

    /// Takes the host's answer to the question the machine has asked: the
    /// bits of the number. A machine that had not asked stays as it is.
    pub fn answer(&mut self, bits: u64)
        requires
            old(self).wf(),
        ensures
            final(self).wf(),
            final(self)@ == answered(old(self)@, bits),
    {
        match &self.control {
            Control::Digits(_) | Control::Arithmetic { .. } => {
                self.control = Control::Return(Value::Number(bits));
            },
            _ => {},
        }
    }

    /// Gives the scopes back, as the evaluation has left them.
    pub fn finish(self) -> (scopes: Environment)
        requires
            self.wf(),
        ensures
            scopes.wf(),
            scopes@ == self@.scopes,
    {
        self.scopes
    }
}

/// Short circuit: a falsy left operand of `and` gives `false`, a truthy
/// left operand of `or` gives `true`, and in both cases the right operand is
/// dropped: the stack and the scopes are those from before the operator.
pub proof fn lemma_short_circuit(s: State, op: BinaryOp, right: Tree, span: Span, value: ValueView)
    requires
        (op is And && !truthy(value)) || (op is Or && truthy(value)),
    ensures
        moved(
            State {
                control: ControlView::Return(value),
                stack: s.stack.push(FrameView::Right { op, right, span }),
                scopes: s.scopes,
            },
        ) == (State {
            control: ControlView::Return(ValueView::Bool(op is Or)),
            stack: s.stack,
            scopes: s.scopes,
        }),
{
    let before = State {
        control: ControlView::Return(value),
        stack: s.stack.push(FrameView::Right { op, right, span }),
        scopes: s.scopes,
    };
    assert(before.stack.drop_last() =~= s.stack);
}

/// The state in which `tree` is about to be evaluated.
pub open spec fn starting(s: State, tree: Tree) -> State {
    with_control(s, ControlView::Eval(tree))
}

/// The tree of a binary operator between two operands.
pub open spec fn binary_tree(op: BinaryOp, left: Tree, right: Tree, span: Span) -> Tree {
    Tree { node: Syntax::BinaryExpr { op, left: Box::new(left), right: Box::new(right) }, span }
}

/// The tree of the literal `true` or `false`.
pub open spec fn bool_tree(b: bool, span: Span) -> Tree {
    Tree { node: Syntax::Literal(LiteralView::Bool(b)), span }
}

/// `false and X` and `true or X` never evaluate `X`: the machine evaluates
/// the literal, takes its value, and hands `false` or `true` on, with the
/// stack and the scopes as they were. This holds for every `X`, also for
/// one whose evaluation would fail or never end.
pub proof fn lemma_literal_short_circuit(s: State, or: bool, x: Tree, span: Span, inner: Span)
    ensures
        ({
            let op = if or { BinaryOp::Or } else { BinaryOp::And };
            let tree = binary_tree(op, bool_tree(or, inner), x, span);
            let first = moved(starting(s, tree));
            let second = moved(first);
            let third = moved(second);
            &&& first.control == ControlView::Eval(bool_tree(or, inner))
            &&& second.control == ControlView::Return(ValueView::Bool(or))
            &&& third == with_control(s, ControlView::Return(ValueView::Bool(or)))
            &&& ran(starting(s, tree), 3) == third
        }),
{
    let op = if or { BinaryOp::Or } else { BinaryOp::And };
    let tree = binary_tree(op, bool_tree(or, inner), x, span);
    let start = starting(s, tree);
    let first = moved(start);
    let second = moved(first);
    let third = moved(second);
    assert(first.stack == s.stack.push(FrameView::Right { op, right: x, span }));
    assert(second.stack == first.stack);
    assert(second.stack.drop_last() =~= s.stack);
    assert(third == with_control(s, ControlView::Return(ValueView::Bool(or))));
    reveal_with_fuel(ran, 4);
    assert(status(start) is Continue);
    assert(status(first) is Continue);
    assert(second.stack.len() > 0);
    assert(status(second) is Continue);
}

/// Equality never fails: `==` and `!=` give a `Bool` for every two values,
/// and for values of different kinds `==` gives `false`.
pub proof fn lemma_equality_is_total(left: ValueView, right: ValueView, span: Span)
    ensures
        applied(BinaryOp::IsEqual, left, right, span) == ControlView::Return(
            ValueView::Bool(values_equal(left, right)),
        ),
        applied(BinaryOp::IsDifferent, left, right, span) == ControlView::Return(
            ValueView::Bool(!values_equal(left, right)),
        ),
        crate::values::kind_index(left) != crate::values::kind_index(right) ==> applied(
            BinaryOp::IsEqual,
            left,
            right,
            span,
        ) == ControlView::Return(ValueView::Bool(false)),
{
}

/// A block leaves the scopes as it found them where nothing inside it
/// assigns to an outer variable: entering pushes a scope, and the frame of
/// the block, once its statements and its tail are done, leaves the scope
/// and hands on the tail's value, or `Null` where there is no tail.
pub proof fn lemma_block_ends(
    s: State,
    statements: Seq<Tree>,
    tail: Option<Tree>,
    tailing: bool,
    value: ValueView,
)
    requires
        tailing || tail is None,
    ensures
        resumed(
            s,
            FrameView::Block { statements, tail, next: statements.len(), tailing },
            value,
        ) == (State {
            control: ControlView::Return(if tailing { value } else { ValueView::Null }),
            stack: s.stack,
            scopes: s.scopes.left(),
        }),
{
}

/// The number of frames of blocks on the stack: each stands for a scope
/// that its block has entered and not yet left.
pub open spec fn open_blocks(stack: Seq<FrameView>) -> nat
    decreases stack.len(),
{
    if stack.len() == 0 {
        0
    } else {
        open_blocks(stack.drop_last()) + if stack.last() is Block { 1nat } else { 0nat }
    }
}

/// The scopes inside the outermost one are those that the evaluation
/// started with, `base` in number, and one for each block on the stack.
pub open spec fn balanced(s: State, base: nat) -> bool {
    s.scopes.marks.len() == base + open_blocks(s.stack)
}

proof fn lemma_open_blocks_push(stack: Seq<FrameView>, frame: FrameView)
    ensures
        open_blocks(stack.push(frame)) == open_blocks(stack) + if frame is Block {
            1nat
        } else {
            0nat
        },
{
    assert(stack.push(frame).drop_last() =~= stack);
}

/// Every step keeps the balance of scopes and blocks: a scope is entered
/// with the frame of its block and left with it, and nothing else enters or
/// leaves a scope.
pub proof fn lemma_step_keeps_balance(s: State, base: nat)
    requires
        balanced(s, base),
    ensures
        balanced(moved(s), base),
{
    match s.control {
        ControlView::Eval(tree) => {
            match tree.node {
                Syntax::Declaration { name, initializer } => {
                    lemma_open_blocks_push(s.stack, FrameView::Declare { name });
                },
                Syntax::Assignment { name, value } => {
                    lemma_open_blocks_push(s.stack, FrameView::Assign { name, span: tree.span });
                },
                Syntax::BinaryExpr { op, left, right } => {
                    lemma_open_blocks_push(
                        s.stack,
                        FrameView::Right { op, right: *right, span: tree.span },
                    );
                },
                Syntax::UnaryExpr { op, operand } => {
                    lemma_open_blocks_push(s.stack, FrameView::Unary { op, span: tree.span });
                },
                Syntax::Block { statements, tail } => {
                    lemma_open_blocks_push(
                        s.stack,
                        FrameView::Block {
                            statements,
                            tail: match tail {
                                Some(last) => Some(*last),
                                None => None,
                            },
                            next: 0,
                            tailing: false,
                        },
                    );
                },
                Syntax::Loop { body } => {
                    lemma_open_blocks_push(s.stack, FrameView::Loop { body: *body });
                },
                _ => {},
            }
        },
        ControlView::Return(value) => {
            if s.stack.len() > 0 {
                let rest = s.stack.drop_last();
                match s.stack.last() {
                    FrameView::Right { op, right, span } => {
                        lemma_open_blocks_push(rest, FrameView::Truth);
                        lemma_open_blocks_push(rest, FrameView::Apply { op, left: value, span });
                    },
                    FrameView::Block { statements, tail, next, tailing } => {
                        lemma_open_blocks_push(
                            rest,
                            FrameView::Block { statements, tail, next: next + 1, tailing },
                        );
                        lemma_open_blocks_push(
                            rest,
                            FrameView::Block { statements, tail, next, tailing: true },
                        );
                    },
                    FrameView::Loop { body } => {
                        lemma_open_blocks_push(rest, FrameView::Loop { body });
                    },
                    _ => {},
                }
            }
        },
        _ => {},
    }
}

/// However long the machine runs and whatever the host answers, the
/// balance is kept. So an evaluation that is done, its stack empty, has left
/// every scope that it has entered: the scopes are as many as at the start.
pub proof fn lemma_run_keeps_balance(s: State, base: nat, budget: nat)
    requires
        balanced(s, base),
    ensures
        balanced(ran(s, budget), base),
        forall|bits: u64| balanced(#[trigger] answered(s, bits), base),
        status(ran(s, budget)) is Done ==> ran(s, budget).scopes.marks.len() == base,
    decreases budget,
{
    if budget > 0 && status(s) is Continue {
        lemma_step_keeps_balance(s, base);
        lemma_run_keeps_balance(moved(s), base, (budget - 1) as nat);
    }
}

} // verus!
