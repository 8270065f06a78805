use vstd::prelude::*;

use crate::lexer::{symbol_kind, TokenType};

verus! {

/// A node of the syntax tree that the parser builds and the compiler reads.
#[derive(Debug, PartialEq)]
pub enum ASTNode {
    Module(Module),
    // Statements
    While(While),
    Break(),
    Block(Block),
    Return(Return),
    Raise(Raise),
    // Expressions
    Identifier(Identifier),
    StringLiteral(String),
    /// A number literal, kept as the digits (and at most one dot) written in the source.
    NumberLiteral(String),
    MethodCall(MethodCall),
    Assignment(Assignment),
    MethodDef(MethodDef),
    ClassDef(ClassDef),
    Attribute(Attribute),
    Compare(Compare),
    If(If),
    Import(Import),
    BinOp(BinOp),
    UnaryOp(UnaryOp),
}

#[derive(Debug, PartialEq)]
pub struct Module {
    pub block: Box<ASTNode>,
}

#[derive(Debug, PartialEq)]
pub struct Identifier {
    pub name: String,
}

#[derive(Debug, PartialEq)]
pub struct MethodCall {
    pub name: Box<ASTNode>,
    pub arguments: Vec<Box<ASTNode>>,
}

#[derive(Debug, PartialEq)]
pub struct Assignment {
    pub name: Box<ASTNode>,
    pub value: Box<ASTNode>,
}

#[derive(Debug, PartialEq)]
pub struct MethodDef {
    pub name: String,
    pub parameters: Vec<Box<ASTNode>>,
    pub body: Box<ASTNode>,
}

#[derive(Debug, PartialEq)]
pub struct ClassDef {
    pub name: String,
    pub body: Box<ASTNode>,
}

#[derive(Debug, PartialEq)]
pub struct Attribute {
    pub name: Box<ASTNode>,
    pub value: String,
}

/// The operators of comparisons and of binary arithmetic.
#[derive(Debug, Clone, Copy, PartialEq, Eq, Structural)]
pub enum Operator {
    Equal,
    Neq,
    Gt,
    Lt,
    Gte,
    Lte,
    Plus,
    Minus,
}

#[derive(Debug, PartialEq)]
pub struct Compare {
    pub left: Box<ASTNode>,
    pub operator: Operator,
    pub right: Box<ASTNode>,
}

#[derive(Debug, PartialEq)]
pub struct If {
    pub test: Box<ASTNode>,
    pub body: Box<ASTNode>,
}

#[derive(Debug, PartialEq)]
pub struct Import {
    pub name: String,
}

#[derive(Debug, PartialEq)]
pub struct While {
    pub condition: Box<ASTNode>,
    pub body: Box<ASTNode>,
}

#[derive(Debug, PartialEq)]
pub struct Block {
    pub statements: Vec<Box<ASTNode>>,
}

#[derive(Debug, PartialEq)]
pub struct BinOp {
    pub left: Box<ASTNode>,
    pub operator: Operator,
    pub right: Box<ASTNode>,
}

#[derive(Debug, PartialEq)]
pub struct UnaryOp {
    pub operator: TokenType,
    pub operand: Box<ASTNode>,
}

#[derive(Debug, PartialEq)]
pub struct Return {
    pub value: Option<Box<ASTNode>>,
}

#[derive(Debug, PartialEq)]
pub struct Raise {
    pub message: Option<Box<ASTNode>>,
}

/// The mathematical value of an [`ASTNode`]: the same tree, with texts as sequences of chars.
pub enum Node {
    Module(Box<Node>),
    While(Box<Node>, Box<Node>),
    Break,
    Block(Seq<Node>),
    Return(Option<Box<Node>>),
    Raise(Option<Box<Node>>),
    Identifier(Seq<char>),
    StringLiteral(Seq<char>),
    NumberLiteral(Seq<char>),
    MethodCall(Box<Node>, Seq<Node>),
    Assignment(Box<Node>, Box<Node>),
    MethodDef(Seq<char>, Seq<Node>, Box<Node>),
    ClassDef(Seq<char>, Box<Node>),
    Attribute(Box<Node>, Seq<char>),
    Compare(Box<Node>, Operator, Box<Node>),
    If(Box<Node>, Box<Node>),
    Import(Seq<char>),
    BinOp(Box<Node>, Operator, Box<Node>),
    UnaryOp(TokenType, Box<Node>),
}

/// The values of a list of nodes.
pub open spec fn nodes_view(xs: Seq<Box<ASTNode>>) -> Seq<Node>
    decreases xs,
{
    if xs.len() == 0 {
        Seq::empty()
    } else {
        nodes_view(xs.subrange(0, xs.len() - 1)).push(xs[xs.len() - 1].node())
    }
}

pub open spec fn option_view(x: Option<Box<ASTNode>>) -> Option<Box<Node>>
    decreases x,
{
    match x {
        Some(b) => Some(Box::new(b.node())),
        None => None,
    }
}

impl ASTNode {
    /// The mathematical value of this node.
    pub open spec fn node(&self) -> Node
        decreases self,
    {
        match self {
            ASTNode::Module(m) => Node::Module(Box::new(m.block.node())),
            ASTNode::While(w) => Node::While(Box::new(w.condition.node()), Box::new(w.body.node())),
            ASTNode::Break() => Node::Break,
            ASTNode::Block(b) => Node::Block(nodes_view(b.statements@)),
            ASTNode::Return(r) => Node::Return(option_view(r.value)),
            ASTNode::Raise(r) => Node::Raise(option_view(r.message)),
            ASTNode::Identifier(i) => Node::Identifier(i.name@),
            ASTNode::StringLiteral(s) => Node::StringLiteral(s@),
            ASTNode::NumberLiteral(s) => Node::NumberLiteral(s@),
            ASTNode::MethodCall(c) => Node::MethodCall(
                Box::new(c.name.node()),
                nodes_view(c.arguments@),
            ),
            ASTNode::Assignment(a) => Node::Assignment(
                Box::new(a.name.node()),
                Box::new(a.value.node()),
            ),
            ASTNode::MethodDef(d) => Node::MethodDef(
                d.name@,
                nodes_view(d.parameters@),
                Box::new(d.body.node()),
            ),
            ASTNode::ClassDef(c) => Node::ClassDef(c.name@, Box::new(c.body.node())),
            ASTNode::Attribute(a) => Node::Attribute(Box::new(a.name.node()), a.value@),
            ASTNode::Compare(c) => Node::Compare(
                Box::new(c.left.node()),
                c.operator,
                Box::new(c.right.node()),
            ),
            ASTNode::If(i) => Node::If(Box::new(i.test.node()), Box::new(i.body.node())),
            ASTNode::Import(i) => Node::Import(i.name@),
            ASTNode::BinOp(b) => Node::BinOp(
                Box::new(b.left.node()),
                b.operator,
                Box::new(b.right.node()),
            ),
            ASTNode::UnaryOp(u) => Node::UnaryOp(u.operator, Box::new(u.operand.node())),
        }
    }
}

impl View for ASTNode {
    type V = Node;

    open spec fn view(&self) -> Node {
        self.node()
    }
}

/// Whether a node is an expression, whose value a statement leaves on the stack.
pub open spec fn is_expression_node(n: Node) -> bool {
    match n {
        Node::Identifier(_) | Node::StringLiteral(_) | Node::NumberLiteral(_) | Node::MethodCall(
            ..,
        ) | Node::Assignment(..) | Node::Attribute(..) | Node::Compare(..) | Node::BinOp(..)
        | Node::UnaryOp(..) => true,
        _ => false,
    }
}

/// The operator that a comparison or arithmetic token stands for.
pub open spec fn token_operator(kind: TokenType) -> Option<Operator> {
    match kind {
        TokenType::EqEqual => Some(Operator::Equal),
        TokenType::Neq => Some(Operator::Neq),
        TokenType::Gt => Some(Operator::Gt),
        TokenType::Lt => Some(Operator::Lt),
        TokenType::Gte => Some(Operator::Gte),
        TokenType::Lte => Some(Operator::Lte),
        TokenType::Plus => Some(Operator::Plus),
        TokenType::Minus => Some(Operator::Minus),
        _ => None,
    }
}

/// What a comparison written in the source says of two numbers `x` and `y` (`==`, `!=`, `>`,
/// `<`, `>=`, `<=`); the arithmetic operators compare nothing.
pub open spec fn operator_compares(op: Operator, x: int, y: int) -> bool {
    match op {
        Operator::Equal => x == y,
        Operator::Neq => x != y,
        Operator::Gt => x > y,
        Operator::Lt => x < y,
        Operator::Gte => x >= y,
        Operator::Lte => x <= y,
        Operator::Plus => false,
        Operator::Minus => false,
    }
}

/// What an arithmetic operator written in the source computes of two numbers (`+`, `-`).
pub open spec fn operator_computes(op: Operator, x: int, y: int) -> int {
    match op {
        Operator::Plus => x + y,
        Operator::Minus => x - y,
        _ => 0,
    }
}

/// Whether an operator of the source compares (rather than computes).
pub open spec fn is_comparison_operator(op: Operator) -> bool {
    !(op == Operator::Plus || op == Operator::Minus)
}

/// What a comparison text of the source (`==`, `!=`, `>`, `<`, `>=`, `<=`) says of two numbers;
/// `None` for any other text.
pub open spec fn comparison_text_holds(t: Seq<char>, x: int, y: int) -> Option<bool> {
    if t == seq!['=', '='] {
        Some(x == y)
    } else if t == seq!['!', '='] {
        Some(x != y)
    } else if t == seq!['>'] {
        Some(x > y)
    } else if t == seq!['<'] {
        Some(x < y)
    } else if t == seq!['>', '='] {
        Some(x >= y)
    } else if t == seq!['<', '='] {
        Some(x <= y)
    } else {
        None
    }
}

/// What an arithmetic text of the source (`+`, `-`) computes of two numbers; `None` for any
/// other text.
pub open spec fn arithmetic_text_value(t: Seq<char>, x: int, y: int) -> Option<int> {
    if t == seq!['+'] {
        Some(x + y)
    } else if t == seq!['-'] {
        Some(x - y)
    } else {
        None
    }
}

/// The operator that a text of the source is read as, through its token.
pub open spec fn text_operator(t: Seq<char>) -> Option<Operator> {
    match symbol_kind(t) {
        Some(k) => token_operator(k),
        None => None,
    }
}

/// A text of the source is read as an operator that means what the text says: the six
/// comparison texts as comparisons deciding the same of every two numbers, `+` and `-` as
/// arithmetic computing the same, and no other text as an operator.
pub proof fn law_operator_texts(t: Seq<char>, x: int, y: int)
    ensures
        comparison_text_holds(t, x, y) == (match text_operator(t) {
            Some(op) => if is_comparison_operator(op) {
                Some(operator_compares(op, x, y))
            } else {
                None
            },
            None => None,
        }),
        arithmetic_text_value(t, x, y) == (match text_operator(t) {
            Some(op) => if is_comparison_operator(op) {
                None
            } else {
                Some(operator_computes(op, x, y))
            },
            None => None,
        }),
{
    if t.len() == 1 {
        let c = t[0];
        if c == '>' || c == '<' || c == '+' || c == '-' {
            assert(t =~= seq![c]);
        }
    } else if t.len() == 2 {
        let (a, b) = (t[0], t[1]);
        if (a == '=' || a == '!' || a == '>' || a == '<') && b == '=' {
            assert(t =~= seq![a, b]);
        }
    }
}

/// Appending a node to a list appends its value to the list's values.
pub proof fn lemma_nodes_view_push(xs: Seq<Box<ASTNode>>, x: Box<ASTNode>)
    ensures
        nodes_view(xs.push(x)) == nodes_view(xs).push(x.node()),
{
    assert(xs.push(x).subrange(0, xs.len() as int) =~= xs);
}

/// The values of a list have its length.
pub proof fn lemma_nodes_view_len(xs: Seq<Box<ASTNode>>)
    ensures
        nodes_view(xs).len() == xs.len(),
        forall|i: int| 0 <= i < xs.len() ==> #[trigger] nodes_view(xs)[i] == xs[i].node(),
    decreases xs.len(),
{
    if xs.len() > 0 {
        lemma_nodes_view_len(xs.subrange(0, xs.len() - 1));
        let ys = xs.subrange(0, xs.len() - 1);
        assert forall|i: int| 0 <= i < xs.len() implies #[trigger] nodes_view(xs)[i]
            == xs[i].node() by {
            if i < xs.len() - 1 {
                assert(ys[i] == xs[i]);
            }
        }
    }
}

impl ASTNode {
    /// Whether this node is an expression.
    pub fn is_expression(&self) -> (b: bool)
        ensures
            b == is_expression_node(self.node()),
    {
        match self {
            ASTNode::Identifier(_) | ASTNode::StringLiteral(_) | ASTNode::NumberLiteral(_)
            | ASTNode::MethodCall(_) | ASTNode::Assignment(_) | ASTNode::Attribute(_)
            | ASTNode::Compare(_) | ASTNode::BinOp(_) | ASTNode::UnaryOp(_) => true,
            _ => false,
        }
    }
}

impl Operator {
    /// The operator of a comparison or arithmetic token; `None` for any other token.
    pub fn from_token(kind: &TokenType) -> (r: Option<Operator>)
        ensures
            r == token_operator(*kind),
    {
        match kind {
            TokenType::EqEqual => Some(Operator::Equal),
            TokenType::Neq => Some(Operator::Neq),
            TokenType::Gt => Some(Operator::Gt),
            TokenType::Lt => Some(Operator::Lt),
            TokenType::Gte => Some(Operator::Gte),
            TokenType::Lte => Some(Operator::Lte),
            TokenType::Plus => Some(Operator::Plus),
            TokenType::Minus => Some(Operator::Minus),
            _ => None,
        }
    }
}

impl Module {
    pub fn new(block: Box<ASTNode>) -> (m: Self)
        ensures
            m.block == block,
    {
        Module { block }
    }
}

impl Identifier {
    pub fn new(name: String) -> (i: Self)
        ensures
            i.name@ == name@,
    {
        Identifier { name }
    }
}

impl MethodCall {
    pub fn new(name: Box<ASTNode>, arguments: Vec<Box<ASTNode>>) -> (c: Self)
        ensures
            c.name == name,
            c.arguments@ == arguments@,
    {
        MethodCall { name, arguments }
    }
}

impl Assignment {
    pub fn new(name: Box<ASTNode>, value: Box<ASTNode>) -> (a: Self)
        ensures
            a.name == name,
            a.value == value,
    {
        Assignment { name, value }
    }
}

impl MethodDef {
    pub fn new(name: String, parameters: Vec<Box<ASTNode>>, body: Box<ASTNode>) -> (d: Self)
        ensures
            d.name@ == name@,
            d.parameters@ == parameters@,
            d.body == body,
    {
        MethodDef { name, parameters, body }
    }
}

impl ClassDef {
    pub fn new(name: String, body: Box<ASTNode>) -> (c: Self)
        ensures
            c.name@ == name@,
            c.body == body,
    {
        ClassDef { name, body }
    }
}

impl Attribute {
    pub fn new(name: Box<ASTNode>, value: String) -> (a: Self)
        ensures
            a.name == name,
            a.value@ == value@,
    {
        Attribute { name, value }
    }
}

impl If {
    pub fn new(test: Box<ASTNode>, body: Box<ASTNode>) -> (i: Self)
        ensures
            i.test == test,
            i.body == body,
    {
        If { test, body }
    }
}

impl Import {
    pub fn new(name: String) -> (i: Self)
        ensures
            i.name@ == name@,
    {
        Import { name }
    }
}

impl While {
    pub fn new(condition: Box<ASTNode>, body: Box<ASTNode>) -> (w: Self)
        ensures
            w.condition == condition,
            w.body == body,
    {
        While { condition, body }
    }
}

impl Block {
    pub fn new(statements: Vec<Box<ASTNode>>) -> (b: Self)
        ensures
            b.statements@ == statements@,
    {
        Block { statements }
    }
}

} // verus!
