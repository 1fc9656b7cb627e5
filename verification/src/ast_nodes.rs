//! The syntax tree: nodes that own their children, each with its span.

use vstd::prelude::*;
use crate::spans::Span;

verus! {

/// The unary operators.
#[derive(Clone, Copy, Debug, PartialEq, Eq, Structural)]
pub enum UnaryOp {
    Not,
    Negative,
}

/// The binary operators.
#[derive(Clone, Copy, Debug, PartialEq, Eq, Structural)]
pub enum BinaryOp {
    Add,
    Subtract,
    Multiply,
    Divide,
    Modulo,
    Greater,
    GreaterEqual,
    Lesser,
    LesserEqual,
    IsEqual,
    IsDifferent,
    And,
    Or,
}

/// A literal as it stands in the source. A number keeps its digits as
/// written: what they denote is for the host's arithmetic to say.
#[derive(Debug, PartialEq)]
pub enum Literal {
    Null,
    Bool(bool),
    Number(String),
    Str(String),
}

/// A node of the syntax tree. Every child belongs to its parent alone.
#[derive(Debug, PartialEq)]
#[allow(inconsistent_fields)]
pub enum Node {
    Literal(Literal),
    Variable { name: String },
    Declaration { name: String, initializer: Box<NodeSpan> },
    Assignment { name: String, value: Box<NodeSpan> },
    BinaryExpr { op: BinaryOp, left: Box<NodeSpan>, right: Box<NodeSpan> },
    UnaryExpr { op: UnaryOp, operand: Box<NodeSpan> },
    Call { callee: Box<NodeSpan>, args: Vec<NodeSpan> },
    /// Statements run for their effect, then the tail, whose value is the
    /// block's value.
    Block { statements: Vec<NodeSpan>, tail: Option<Box<NodeSpan>> },
    DoBlock { body: Box<NodeSpan> },
    Loop { body: Box<NodeSpan> },
}

/// A node together with the span of every token that it was built from.
#[derive(Debug, PartialEq)]
pub struct NodeSpan {
    pub node: Node,
    pub span: Span,
}

/// The mathematical value of a `Literal`.
pub enum LiteralView {
    Null,
    Bool(bool),
    Number(Seq<char>),
    Str(Seq<char>),
}

/// The mathematical value of a `Node`.
#[allow(inconsistent_fields)]
pub enum Syntax {
    Literal(LiteralView),
    Variable { name: Seq<char> },
    Declaration { name: Seq<char>, initializer: Box<Tree> },
    Assignment { name: Seq<char>, value: Box<Tree> },
    BinaryExpr { op: BinaryOp, left: Box<Tree>, right: Box<Tree> },
    UnaryExpr { op: UnaryOp, operand: Box<Tree> },
    Call { callee: Box<Tree>, args: Seq<Tree> },
    Block { statements: Seq<Tree>, tail: Option<Box<Tree>> },
    DoBlock { body: Box<Tree> },
    Loop { body: Box<Tree> },
}

/// The mathematical value of a `NodeSpan`.
pub struct Tree {
    pub node: Syntax,
    pub span: Span,
}

impl View for Literal {
    type V = LiteralView;

    open spec fn view(&self) -> LiteralView {
        match self {
            Literal::Null => LiteralView::Null,
            Literal::Bool(b) => LiteralView::Bool(*b),
            Literal::Number(digits) => LiteralView::Number(digits@),
            Literal::Str(text) => LiteralView::Str(text@),
        }
    }
}

/// The tree that a node with its span stands for.
pub open spec fn tree_of(n: NodeSpan) -> Tree
    decreases n, 1int,
{
    Tree { node: syntax_of(n.node), span: n.span }
}

/// The trees of a sequence of nodes, in order.
pub open spec fn trees_of(nodes: Seq<NodeSpan>) -> Seq<Tree>
    decreases nodes, 0int,
{
    Seq::new(nodes.len(), |i: int| if 0 <= i < nodes.len() { tree_of(nodes[i]) } else { arbitrary() })
}

/// The syntax that a node stands for.
pub open spec fn syntax_of(node: Node) -> Syntax
    decreases node, 0int,
{
    match node {
        Node::Literal(literal) => Syntax::Literal(literal@),
        Node::Variable { name } => Syntax::Variable { name: name@ },
        Node::Declaration { name, initializer } => Syntax::Declaration {
            name: name@,
            initializer: Box::new(tree_of(*initializer)),
        },
        Node::Assignment { name, value } => Syntax::Assignment {
            name: name@,
            value: Box::new(tree_of(*value)),
        },
        Node::BinaryExpr { op, left, right } => Syntax::BinaryExpr {
            op,
            left: Box::new(tree_of(*left)),
            right: Box::new(tree_of(*right)),
        },
        Node::UnaryExpr { op, operand } => Syntax::UnaryExpr {
            op,
            operand: Box::new(tree_of(*operand)),
        },
        Node::Call { callee, args } => Syntax::Call {
            callee: Box::new(tree_of(*callee)),
            args: trees_of(args@),
        },
        Node::Block { statements, tail } => Syntax::Block {
            statements: trees_of(statements@),
            tail: match tail {
                Some(last) => Some(Box::new(tree_of(*last))),
                None => None,
            },
        },
        Node::DoBlock { body } => Syntax::DoBlock { body: Box::new(tree_of(*body)) },
        Node::Loop { body } => Syntax::Loop { body: Box::new(tree_of(*body)) },
    }
}

impl View for Node {
    type V = Syntax;

    open spec fn view(&self) -> Syntax {
        syntax_of(*self)
    }
}

impl View for NodeSpan {
    type V = Tree;

    open spec fn view(&self) -> Tree {
        tree_of(*self)
    }
}

/// Pushing a node onto a vector pushes its tree onto the vector's trees.
pub proof fn lemma_trees_push(nodes: Seq<NodeSpan>, n: NodeSpan)
    ensures
        trees_of(nodes.push(n)) == trees_of(nodes).push(tree_of(n)),
        trees_of(Seq::<NodeSpan>::empty()) == Seq::<Tree>::empty(),
{
    assert(trees_of(nodes.push(n)) =~= trees_of(nodes).push(tree_of(n)));
    assert(trees_of(Seq::<NodeSpan>::empty()) =~= Seq::<Tree>::empty());
}

/// Every child's span lies inside its parent's span, all the way down, and
/// the operands of a binary operator and the parts of a call stand in the
/// order of the text.
pub open spec fn well_spanned(t: Tree) -> bool
    decreases t,
{
    &&& t.span.wf()
    &&& match t.node {
        Syntax::Literal(_) => true,
        Syntax::Variable { .. } => true,
        Syntax::Declaration { initializer, .. } => t.span.covers(initializer.span)
            && well_spanned(*initializer),
        Syntax::Assignment { value, .. } => t.span.covers(value.span) && well_spanned(*value),
        Syntax::BinaryExpr { left, right, .. } => {
            &&& t.span.covers(left.span)
            &&& t.span.covers(right.span)
            &&& left.span.end <= right.span.start
            &&& well_spanned(*left)
            &&& well_spanned(*right)
        },
        Syntax::UnaryExpr { operand, .. } => t.span.covers(operand.span) && well_spanned(*operand),
        Syntax::Call { callee, args } => {
            &&& t.span.covers(callee.span)
            &&& well_spanned(*callee)
            &&& forall|i: int|
                0 <= i < args.len() ==> t.span.covers((#[trigger] args[i]).span)
                    && callee.span.end <= args[i].span.start && well_spanned(args[i])
        },
        Syntax::Block { statements, tail } => {
            &&& forall|i: int|
                0 <= i < statements.len() ==> t.span.covers((#[trigger] statements[i]).span)
                    && well_spanned(statements[i])
            &&& match tail {
                Some(last) => t.span.covers(last.span) && well_spanned(*last),
                None => true,
            }
        },
        Syntax::DoBlock { body } => t.span.covers(body.span) && well_spanned(*body),
        Syntax::Loop { body } => t.span.covers(body.span) && well_spanned(*body),
    }
}

/// A tree stays well spanned when its own span is made wider.
pub proof fn lemma_widen(t: Tree, wider: Span)
    requires
        well_spanned(t),
        wider.covers(t.span),
    ensures
        well_spanned(Tree { node: t.node, span: wider }),
{
}

} // verus!
