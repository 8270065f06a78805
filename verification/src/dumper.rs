use vstd::prelude::*;

use crate::ast::{
    lemma_nodes_view_len, nodes_view, option_view, token_operator, ASTNode, Node, Operator,
};
use crate::lexer::{find_char, TokenType};
use crate::text::{chars_of, push_char, push_str, string_from_range};

verus! {

/// The name of a token kind, as written in the source of the library.
pub open spec fn kind_name(k: TokenType) -> Seq<char> {
    match k {
        TokenType::Identifier => "Identifier"@,
        TokenType::Newline => "Newline"@,
        TokenType::StringLiteral => "StringLiteral"@,
        TokenType::LeftParen => "LeftParen"@,
        TokenType::RightParen => "RightParen"@,
        TokenType::Equal => "Equal"@,
        TokenType::EqEqual => "EqEqual"@,
        TokenType::Gt => "Gt"@,
        TokenType::Lt => "Lt"@,
        TokenType::Gte => "Gte"@,
        TokenType::Lte => "Lte"@,
        TokenType::Neq => "Neq"@,
        TokenType::NumberLiteral => "NumberLiteral"@,
        TokenType::Def => "Def"@,
        TokenType::End => "End"@,
        TokenType::Comma => "Comma"@,
        TokenType::Class => "Class"@,
        TokenType::Dot => "Dot"@,
        TokenType::Comment => "Comment"@,
        TokenType::If => "If"@,
        TokenType::Import => "Import"@,
        TokenType::Plus => "Plus"@,
        TokenType::Minus => "Minus"@,
        TokenType::While => "While"@,
        TokenType::Break => "Break"@,
        TokenType::Return => "Return"@,
        TokenType::Not => "Not"@,
        TokenType::Raise => "Raise"@,
    }
}

fn token_kind_name(k: TokenType) -> (s: &'static str)
    ensures
        s@ == kind_name(k),
{
    match k {
        TokenType::Identifier => "Identifier",
        TokenType::Newline => "Newline",
        TokenType::StringLiteral => "StringLiteral",
        TokenType::LeftParen => "LeftParen",
        TokenType::RightParen => "RightParen",
        TokenType::Equal => "Equal",
        TokenType::EqEqual => "EqEqual",
        TokenType::Gt => "Gt",
        TokenType::Lt => "Lt",
        TokenType::Gte => "Gte",
        TokenType::Lte => "Lte",
        TokenType::Neq => "Neq",
        TokenType::NumberLiteral => "NumberLiteral",
        TokenType::Def => "Def",
        TokenType::End => "End",
        TokenType::Comma => "Comma",
        TokenType::Class => "Class",
        TokenType::Dot => "Dot",
        TokenType::Comment => "Comment",
        TokenType::If => "If",
        TokenType::Import => "Import",
        TokenType::Plus => "Plus",
        TokenType::Minus => "Minus",
        TokenType::While => "While",
        TokenType::Break => "Break",
        TokenType::Return => "Return",
        TokenType::Not => "Not",
        TokenType::Raise => "Raise",
    }
}

/// The name of an operator, as written in the source of the library.
pub open spec fn operator_name(op: Operator) -> Seq<char> {
    match op {
        Operator::Equal => "Equal"@,
        Operator::Neq => "Neq"@,
        Operator::Gt => "Gt"@,
        Operator::Lt => "Lt"@,
        Operator::Gte => "Gte"@,
        Operator::Lte => "Lte"@,
        Operator::Plus => "Plus"@,
        Operator::Minus => "Minus"@,
    }
}

fn operator_text(op: Operator) -> (s: &'static str)
    ensures
        s@ == operator_name(op),
{
    match op {
        Operator::Equal => "Equal",
        Operator::Neq => "Neq",
        Operator::Gt => "Gt",
        Operator::Lt => "Lt",
        Operator::Gte => "Gte",
        Operator::Lte => "Lte",
        Operator::Plus => "Plus",
        Operator::Minus => "Minus",
    }
}

/// A line of the dump: `ind` spaces (none where `ind` is negative), the text, a newline.
pub open spec fn line(ind: int, t: Seq<char>) -> Seq<char> {
    Seq::new(if ind > 0 { ind as nat } else { 0 }, |k: int| ' ') + t + "\n"@
}

/// Integer digits without the zeros in front; the last digit stays.
pub open spec fn strip_leading_zeros(t: Seq<char>) -> Seq<char>
    decreases t.len(),
{
    if t.len() > 1 && t[0] == '0' {
        strip_leading_zeros(t.drop_first())
    } else {
        t
    }
}

/// Fraction digits without the zeros at the end.
pub open spec fn strip_trailing_zeros(t: Seq<char>) -> Seq<char>
    decreases t.len(),
{
    if t.len() > 0 && t.last() == '0' {
        strip_trailing_zeros(t.drop_last())
    } else {
        t
    }
}

/// How a number literal shows: the decimal value it denotes, without zeros that do not count
/// and without a point that nothing follows. For a literal of at most fifteen significant
/// digits, this is the text of the floating-point value that the literal reads as.
pub open spec fn number_display(t: Seq<char>) -> Seq<char> {
    let d = find_char(t, 0, '.');
    let whole = strip_leading_zeros(t.subrange(0, d));
    let fraction = if d < t.len() {
        strip_trailing_zeros(t.subrange(d + 1, t.len() as int))
    } else {
        Seq::empty()
    };
    if fraction.len() == 0 {
        whole
    } else {
        whole + seq!['.'] + fraction
    }
}

/// The text that a number literal shows as.
pub fn number_text(literal: &str) -> (r: String)
    ensures
        r@ == number_display(literal@),
{
    let c = chars_of(literal);
    let n = c.len();
    let mut d: usize = 0;
    while d < n && c[d] != '.'
        invariant
            d <= n == c@.len(),
            find_char(c@, d as int, '.') == find_char(c@, 0, '.'),
        decreases n - d,
    {
        d = d + 1;
    }
    let mut a: usize = 0;
    while a + 1 < d && c[a] == '0'
        invariant
            d <= n == c@.len(),
            a <= d,
            d > 0 ==> a < d,
            strip_leading_zeros(c@.subrange(a as int, d as int)) == strip_leading_zeros(c@.subrange(0, d as int)),
        decreases d - a,
    {
        assert(c@.subrange(a as int, d as int).drop_first() =~= c@.subrange(a + 1, d as int));
        a = a + 1;
    }
    assert(strip_leading_zeros(c@.subrange(a as int, d as int)) == c@.subrange(a as int, d as int));
    let mut r = string_from_range(&c, a, d);
    if d < n {
        let mut e = n;
        while e > d + 1 && c[e - 1] == '0'
            invariant
                d < n == c@.len(),
                d + 1 <= e <= n,
                strip_trailing_zeros(c@.subrange(d + 1, e as int)) == strip_trailing_zeros(
                    c@.subrange(d + 1, n as int),
                ),
            decreases e,
        {
            assert(c@.subrange(d + 1, e as int).drop_last() =~= c@.subrange(d + 1, e - 1));
            e = e - 1;
        }
        assert(strip_trailing_zeros(c@.subrange(d + 1, e as int)) == c@.subrange(d + 1, e as int));
        if e > d + 1 {
            let fraction = string_from_range(&c, d + 1, e);
            push_char(&mut r, '.');
            push_str(&mut r, fraction.as_str());
        }
    }
    r
}

/// How a number literal shows: the text that `nums` pairs with it (the first pair for it), and
/// otherwise its value written out by [`number_display`].
pub open spec fn number_shown(nums: Seq<(Seq<char>, Seq<char>)>, s: Seq<char>) -> Seq<char>
    decreases nums.len(),
{
    if nums.len() == 0 {
        number_display(s)
    } else if nums[0].0 == s {
        nums[0].1
    } else {
        number_shown(nums.drop_first(), s)
    }
}

/// The plain view of pairs of texts.
pub open spec fn pairs_view(v: Seq<(String, String)>) -> Seq<(Seq<char>, Seq<char>)> {
    v.map_values(|e: (String, String)| (e.0@, e.1@))
}

/// The dump of a syntax tree: one line per node, with the parts of a node labelled.
pub open spec fn dump_spec(n: Node, ind: int, nums: Seq<(Seq<char>, Seq<char>)>) -> Seq<char>
    decreases n,
{
    match n {
        Node::Module(b) => "Module("@ + "\n"@ + dump_spec(*b, ind, nums) + line(ind, ")"@),
        Node::Block(stmts) => dump_list_spec(stmts, ind, nums),
        Node::Identifier(name) => line(ind, "Identifier("@ + name + ")"@),
        Node::StringLiteral(s) => line(ind, "StringLiteral("@ + s + ")"@),
        Node::NumberLiteral(s) => line(ind, "NumberLiteral("@ + number_shown(nums, s) + ")"@),
        Node::MethodCall(f, args) => line(ind, "MethodCall("@) + "name: "@ + dump_spec(*f, ind, nums) + "arguments: ["@
            + dump_list_spec(args, ind, nums) + line(ind, "]"@) + line(ind, ")"@),
        Node::Assignment(name, value) => line(ind, "Assignment("@) + "name: "@ + dump_spec(*name, ind, nums)
            + dump_spec(*value, ind, nums) + line(ind, ")"@),
        Node::MethodDef(name, _, body) => line(ind, "MethodDef("@ + name + ")"@) + "body: ["@ + dump_spec(*body, ind, nums) + line(ind, "]"@),
        Node::ClassDef(name, body) => line(ind, "ClassDef("@ + name + ")"@) + "body: ["@ + dump_spec(*body, ind, nums)
            + line(ind, "]"@),
        Node::Attribute(obj, value) => line(ind, "Attribute("@) + "name: "@ + dump_spec(*obj, ind, nums) + "value: "@
            + line(ind, "\""@ + value + "\""@) + line(ind, ")"@),
        Node::Compare(l, op, r) => line(ind, "Compare("@) + "left: "@ + dump_spec(*l, ind, nums) + "operator: "@ + line(ind, 
            operator_name(op),
        ) + "right: "@ + dump_spec(*r, ind, nums) + line(ind, ")"@),
        Node::BinOp(l, op, r) => line(ind, "BinOp("@) + "left: "@ + dump_spec(*l, ind, nums) + "operator: "@ + line(ind, 
            operator_name(op),
        ) + "right: "@ + dump_spec(*r, ind, nums) + line(ind, ")"@),
        Node::UnaryOp(k, o) => line(ind, "UnaryOp("@) + "operator: "@ + line(ind, kind_name(k)) + "operand: "@
            + dump_spec(*o, ind, nums) + line(ind, ")"@),
        Node::If(test, body) => line(ind, "If("@) + "test: "@ + dump_spec(*test, ind, nums) + "body: ["@ + dump_spec(*body, ind, nums) + line(ind, "]"@) + line(ind, ")"@),
        Node::While(cond, body) => line(ind, "While("@) + "condition: "@ + dump_spec(*cond, ind, nums) + "body: ["@
            + dump_spec(*body, ind, nums) + line(ind, "]"@) + line(ind, ")"@),
        Node::Import(name) => line(ind, "Import("@ + name + ")"@),
        Node::Break => line(ind, "Break"@),
        Node::Return(v) => line(ind, "Return("@) + dump_option_spec(v, ind, nums) + line(ind, ")"@),
        Node::Raise(v) => line(ind, "Raise("@) + dump_option_spec(v, ind, nums) + line(ind, ")"@),
    }
}

pub open spec fn dump_option_spec(v: Option<Box<Node>>, ind: int, nums: Seq<(Seq<char>, Seq<char>)>) -> Seq<char>
    decreases v,
{
    match v {
        Some(e) => dump_spec(*e, ind, nums),
        None => Seq::empty(),
    }
}

pub open spec fn dump_list_spec(xs: Seq<Node>, ind: int, nums: Seq<(Seq<char>, Seq<char>)>) -> Seq<char>
    decreases xs,
{
    if xs.len() == 0 {
        Seq::empty()
    } else {
        dump_spec(xs[0], ind, nums) + dump_list_spec(xs.subrange(1, xs.len() as int), ind, nums)
    }
}

/// Writes a syntax tree as text.
pub struct ASTDumper {
    pub output: String,
    indent: i32,
    numbers: Vec<(String, String)>,
}

impl ASTDumper {
    /// A dumper with no output yet.
    pub fn new() -> (d: Self)
        ensures
            d.text() == Seq::<char>::empty(),
            d.indent() == 4,
    {
        ASTDumper { output: String::new(), indent: 4, numbers: Vec::new() }
    }

    /// A dumper with no output yet that shows each number literal paired in `numbers` as the
    /// text it is paired with (where the runtime writes out the values of number literals).
    pub fn with_numbers(numbers: Vec<(String, String)>) -> (d: Self)
        ensures
            d.text() == Seq::<char>::empty(),
            d.indent() == 4,
            d.numbers() == pairs_view(numbers@),
    {
        ASTDumper { output: String::new(), indent: 4, numbers }
    }

    /// The texts that number literals show as.
    pub closed spec fn numbers(&self) -> Seq<(Seq<char>, Seq<char>)> {
        pairs_view(self.numbers@)
    }

    /// The text that a number literal shows as.
    fn shown_number(&self, literal: &String) -> (r: String)
        ensures
            r@ == number_shown(self.numbers(), literal@),
    {
        let ghost all = self.numbers();
        let n = self.numbers.len();
        let mut k: usize = 0;
        assert(all.subrange(0, n as int) =~= all);
        while k < n
            invariant
                n == self.numbers@.len(),
                all == self.numbers(),
                all.len() == n,
                k <= n,
                number_shown(all, literal@) == number_shown(all.subrange(k as int, n as int), literal@),
            decreases n - k,
        {
            let ghost rest = all.subrange(k as int, n as int);
            assert(rest[0] == (self.numbers@[k as int].0@, self.numbers@[k as int].1@));
            if self.numbers[k].0 == *literal {
                return self.numbers[k].1.clone();
            }
            assert(rest.drop_first() =~= all.subrange(k + 1, n as int));
            k = k + 1;
        }
        number_text(literal.as_str())
    }

    /// The text written so far.
    pub closed spec fn text(&self) -> Seq<char> {
        self.output@
    }

    /// The number of spaces before each line.
    pub closed spec fn indent(&self) -> int {
        self.indent as int
    }

    /// Appends a line: the indent, the text, a newline.
    fn push(&mut self, text: &str)
        ensures
            final(self).indent() == old(self).indent(),
            final(self).numbers() == old(self).numbers(),
            final(self).text() == old(self).text() + line(old(self).indent(), text@),
    {
        let ghost before = self.output@;
        let mut i: i32 = 0;
        while i < self.indent
            invariant
                0 <= i,
                i <= self.indent || i == 0,
                self.indent == old(self).indent,
                self.numbers == old(self).numbers,
                before == old(self).output@,
                self.output@ == before + Seq::new(i as nat, |k: int| ' '),
            decreases self.indent - i,
        {
            push_char(&mut self.output, ' ');
            i = i + 1;
            assert(self.output@ =~= before + Seq::new(i as nat, |k: int| ' '));
        }
        push_str(&mut self.output, text);
        push_str(&mut self.output, "\n");
        proof {
            assert(self.output@ =~= before + line(self.indent as int, text@));
        }
    }

    /// Appends text as it is.
    fn concat(&mut self, text: &str)
        ensures
            final(self).indent() == old(self).indent(),
            final(self).numbers() == old(self).numbers(),
            final(self).text() == old(self).text() + text@,
    {
        push_str(&mut self.output, text);
    }

    /// Appends a newline.
    fn push_newline(&mut self)
        ensures
            final(self).indent() == old(self).indent(),
            final(self).numbers() == old(self).numbers(),
            final(self).text() == old(self).text() + "\n"@,
    {
        push_str(&mut self.output, "\n");
    }
}

impl ASTDumper {
    /// Writes the dump of a node.
    pub fn visit(&mut self, node: &ASTNode)
        ensures
            final(self).indent() == old(self).indent(),
            final(self).numbers() == old(self).numbers(),
            final(self).text() == old(self).text() + dump_spec(node.node(), old(self).indent(), old(self).numbers()),
        decreases node, 2int,
    {
        let ghost before = self.text();
        match node {
            ASTNode::Module(_) => self.visit_module(node),
            ASTNode::Block(_) => self.visit_all(node),
            ASTNode::Identifier(_) => self.visit_identifier(node),
            ASTNode::StringLiteral(_) => self.visit_string_literal(node),
            ASTNode::NumberLiteral(_) => self.visit_number_literal(node),
            ASTNode::MethodCall(_) => self.visit_method_call(node),
            ASTNode::Assignment(_) => self.visit_assignment(node),
            ASTNode::MethodDef(_) => self.visit_method_def(node),
            ASTNode::ClassDef(_) => self.visit_class_def(node),
            ASTNode::Attribute(_) => self.visit_attribute(node),
            ASTNode::Compare(_) => self.visit_compare(node),
            ASTNode::BinOp(_) => self.visit_bin_op(node),
            ASTNode::UnaryOp(_) => self.visit_unary_op(node),
            ASTNode::If(_) => self.visit_if(node),
            ASTNode::While(_) => self.visit_while(node),
            ASTNode::Import(_) => self.visit_import(node),
            ASTNode::Break() => self.visit_break(node),
            ASTNode::Return(_) => self.visit_return(node),
            ASTNode::Raise(_) => self.visit_raise(node),
        }
        proof {
            if node is Block {
                assert(node.node() == Node::Block(nodes_view(node->Block_0.statements@)));
            }
        }
    }

    fn visit_module(&mut self, node: &ASTNode)
        requires
            node is Module,
        ensures
            final(self).indent() == old(self).indent(),
            final(self).numbers() == old(self).numbers(),
            final(self).text() == old(self).text() + dump_spec(node.node(), old(self).indent(), old(self).numbers()),
        decreases node, 1int,
    {
        let ghost before = self.text();
        match node {
            ASTNode::Module(m) => {
                self.concat("Module(");
                self.push_newline();
                self.visit(&m.block);
                self.push(")");
            },
            _ => {},
        }
        assert(self.text() =~= before + dump_spec(node.node(), self.indent(), self.numbers()));
    }

    fn visit_identifier(&mut self, node: &ASTNode)
        requires
            node is Identifier,
        ensures
            final(self).indent() == old(self).indent(),
            final(self).numbers() == old(self).numbers(),
            final(self).text() == old(self).text() + dump_spec(node.node(), old(self).indent(), old(self).numbers()),
        decreases node, 1int,
    {
        let ghost before = self.text();
        match node {
            ASTNode::Identifier(i) => {
                let t = enclosed("Identifier(", i.name.as_str(), ")");
                self.push(t.as_str());
            },
            _ => {},
        }
        assert(self.text() =~= before + dump_spec(node.node(), self.indent(), self.numbers()));
    }

    fn visit_string_literal(&mut self, node: &ASTNode)
        requires
            node is StringLiteral,
        ensures
            final(self).indent() == old(self).indent(),
            final(self).numbers() == old(self).numbers(),
            final(self).text() == old(self).text() + dump_spec(node.node(), old(self).indent(), old(self).numbers()),
        decreases node, 1int,
    {
        let ghost before = self.text();
        match node {
            ASTNode::StringLiteral(v) => {
                let t = enclosed("StringLiteral(", v.as_str(), ")");
                self.push(t.as_str());
            },
            _ => {},
        }
        assert(self.text() =~= before + dump_spec(node.node(), self.indent(), self.numbers()));
    }

    fn visit_number_literal(&mut self, node: &ASTNode)
        requires
            node is NumberLiteral,
        ensures
            final(self).indent() == old(self).indent(),
            final(self).numbers() == old(self).numbers(),
            final(self).text() == old(self).text() + dump_spec(node.node(), old(self).indent(), old(self).numbers()),
        decreases node, 1int,
    {
        let ghost before = self.text();
        match node {
            ASTNode::NumberLiteral(v) => {
                let shown = self.shown_number(v);
                let t = enclosed("NumberLiteral(", shown.as_str(), ")");
                self.push(t.as_str());
            },
            _ => {},
        }
        assert(self.text() =~= before + dump_spec(node.node(), self.indent(), self.numbers()));
    }

    fn visit_method_call(&mut self, node: &ASTNode)
        requires
            node is MethodCall,
        ensures
            final(self).indent() == old(self).indent(),
            final(self).numbers() == old(self).numbers(),
            final(self).text() == old(self).text() + dump_spec(node.node(), old(self).indent(), old(self).numbers()),
        decreases node, 1int,
    {
        let ghost before = self.text();
        match node {
            ASTNode::MethodCall(c) => {
                self.push("MethodCall(");
                self.concat("name: ");
                self.visit(&c.name);
                self.concat("arguments: [");
                self.visit_all(node);
                self.push("]");
                self.push(")");
            },
            _ => {},
        }
        assert(self.text() =~= before + dump_spec(node.node(), self.indent(), self.numbers()));
    }

    fn visit_assignment(&mut self, node: &ASTNode)
        requires
            node is Assignment,
        ensures
            final(self).indent() == old(self).indent(),
            final(self).numbers() == old(self).numbers(),
            final(self).text() == old(self).text() + dump_spec(node.node(), old(self).indent(), old(self).numbers()),
        decreases node, 1int,
    {
        let ghost before = self.text();
        match node {
            ASTNode::Assignment(a) => {
                self.push("Assignment(");
                self.concat("name: ");
                self.visit(&a.name);
                self.visit(&a.value);
                self.push(")");
            },
            _ => {},
        }
        assert(self.text() =~= before + dump_spec(node.node(), self.indent(), self.numbers()));
    }

    fn visit_method_def(&mut self, node: &ASTNode)
        requires
            node is MethodDef,
        ensures
            final(self).indent() == old(self).indent(),
            final(self).numbers() == old(self).numbers(),
            final(self).text() == old(self).text() + dump_spec(node.node(), old(self).indent(), old(self).numbers()),
        decreases node, 1int,
    {
        let ghost before = self.text();
        match node {
            ASTNode::MethodDef(d) => {
                let t = enclosed("MethodDef(", d.name.as_str(), ")");
                self.push(t.as_str());
                self.concat("body: [");
                self.visit(&d.body);
                self.push("]");
            },
            _ => {},
        }
        assert(self.text() =~= before + dump_spec(node.node(), self.indent(), self.numbers()));
    }

    fn visit_class_def(&mut self, node: &ASTNode)
        requires
            node is ClassDef,
        ensures
            final(self).indent() == old(self).indent(),
            final(self).numbers() == old(self).numbers(),
            final(self).text() == old(self).text() + dump_spec(node.node(), old(self).indent(), old(self).numbers()),
        decreases node, 1int,
    {
        let ghost before = self.text();
        match node {
            ASTNode::ClassDef(c) => {
                let t = enclosed("ClassDef(", c.name.as_str(), ")");
                self.push(t.as_str());
                self.concat("body: [");
                self.visit(&c.body);
                self.push("]");
            },
            _ => {},
        }
        assert(self.text() =~= before + dump_spec(node.node(), self.indent(), self.numbers()));
    }

    fn visit_attribute(&mut self, node: &ASTNode)
        requires
            node is Attribute,
        ensures
            final(self).indent() == old(self).indent(),
            final(self).numbers() == old(self).numbers(),
            final(self).text() == old(self).text() + dump_spec(node.node(), old(self).indent(), old(self).numbers()),
        decreases node, 1int,
    {
        let ghost before = self.text();
        match node {
            ASTNode::Attribute(a) => {
                self.push("Attribute(");
                self.concat("name: ");
                self.visit(&a.name);
                self.concat("value: ");
                let t = enclosed("\"", a.value.as_str(), "\"");
                self.push(t.as_str());
                self.push(")");
            },
            _ => {},
        }
        assert(self.text() =~= before + dump_spec(node.node(), self.indent(), self.numbers()));
    }

    fn visit_compare(&mut self, node: &ASTNode)
        requires
            node is Compare,
        ensures
            final(self).indent() == old(self).indent(),
            final(self).numbers() == old(self).numbers(),
            final(self).text() == old(self).text() + dump_spec(node.node(), old(self).indent(), old(self).numbers()),
        decreases node, 1int,
    {
        let ghost before = self.text();
        match node {
            ASTNode::Compare(c) => {
                self.push("Compare(");
                self.concat("left: ");
                self.visit(&c.left);
                self.concat("operator: ");
                self.push(operator_text(c.operator));
                self.concat("right: ");
                self.visit(&c.right);
                self.push(")");
            },
            _ => {},
        }
        assert(self.text() =~= before + dump_spec(node.node(), self.indent(), self.numbers()));
    }

    fn visit_bin_op(&mut self, node: &ASTNode)
        requires
            node is BinOp,
        ensures
            final(self).indent() == old(self).indent(),
            final(self).numbers() == old(self).numbers(),
            final(self).text() == old(self).text() + dump_spec(node.node(), old(self).indent(), old(self).numbers()),
        decreases node, 1int,
    {
        let ghost before = self.text();
        match node {
            ASTNode::BinOp(b) => {
                self.push("BinOp(");
                self.concat("left: ");
                self.visit(&b.left);
                self.concat("operator: ");
                self.push(operator_text(b.operator));
                self.concat("right: ");
                self.visit(&b.right);
                self.push(")");
            },
            _ => {},
        }
        assert(self.text() =~= before + dump_spec(node.node(), self.indent(), self.numbers()));
    }

    fn visit_unary_op(&mut self, node: &ASTNode)
        requires
            node is UnaryOp,
        ensures
            final(self).indent() == old(self).indent(),
            final(self).numbers() == old(self).numbers(),
            final(self).text() == old(self).text() + dump_spec(node.node(), old(self).indent(), old(self).numbers()),
        decreases node, 1int,
    {
        let ghost before = self.text();
        match node {
            ASTNode::UnaryOp(u) => {
                self.push("UnaryOp(");
                self.concat("operator: ");
                self.push(token_kind_name(u.operator));
                self.concat("operand: ");
                self.visit(&u.operand);
                self.push(")");
            },
            _ => {},
        }
        assert(self.text() =~= before + dump_spec(node.node(), self.indent(), self.numbers()));
    }

    fn visit_if(&mut self, node: &ASTNode)
        requires
            node is If,
        ensures
            final(self).indent() == old(self).indent(),
            final(self).numbers() == old(self).numbers(),
            final(self).text() == old(self).text() + dump_spec(node.node(), old(self).indent(), old(self).numbers()),
        decreases node, 1int,
    {
        let ghost before = self.text();
        match node {
            ASTNode::If(i) => {
                self.push("If(");
                self.concat("test: ");
                self.visit(&i.test);
                self.concat("body: [");
                self.visit(&i.body);
                self.push("]");
                self.push(")");
            },
            _ => {},
        }
        assert(self.text() =~= before + dump_spec(node.node(), self.indent(), self.numbers()));
    }

    fn visit_while(&mut self, node: &ASTNode)
        requires
            node is While,
        ensures
            final(self).indent() == old(self).indent(),
            final(self).numbers() == old(self).numbers(),
            final(self).text() == old(self).text() + dump_spec(node.node(), old(self).indent(), old(self).numbers()),
        decreases node, 1int,
    {
        let ghost before = self.text();
        match node {
            ASTNode::While(w) => {
                self.push("While(");
                self.concat("condition: ");
                self.visit(&w.condition);
                self.concat("body: [");
                self.visit(&w.body);
                self.push("]");
                self.push(")");
            },
            _ => {},
        }
        assert(self.text() =~= before + dump_spec(node.node(), self.indent(), self.numbers()));
    }

    fn visit_import(&mut self, node: &ASTNode)
        requires
            node is Import,
        ensures
            final(self).indent() == old(self).indent(),
            final(self).numbers() == old(self).numbers(),
            final(self).text() == old(self).text() + dump_spec(node.node(), old(self).indent(), old(self).numbers()),
        decreases node, 1int,
    {
        let ghost before = self.text();
        match node {
            ASTNode::Import(i) => {
                let t = enclosed("Import(", i.name.as_str(), ")");
                self.push(t.as_str());
            },
            _ => {},
        }
        assert(self.text() =~= before + dump_spec(node.node(), self.indent(), self.numbers()));
    }

    fn visit_break(&mut self, node: &ASTNode)
        requires
            node is Break,
        ensures
            final(self).indent() == old(self).indent(),
            final(self).numbers() == old(self).numbers(),
            final(self).text() == old(self).text() + dump_spec(node.node(), old(self).indent(), old(self).numbers()),
        decreases node, 1int,
    {
        let ghost before = self.text();
        match node {
            ASTNode::Break() => {
                self.push("Break");
            },
            _ => {},
        }
        assert(self.text() =~= before + dump_spec(node.node(), self.indent(), self.numbers()));
    }

    fn visit_return(&mut self, node: &ASTNode)
        requires
            node is Return,
        ensures
            final(self).indent() == old(self).indent(),
            final(self).numbers() == old(self).numbers(),
            final(self).text() == old(self).text() + dump_spec(node.node(), old(self).indent(), old(self).numbers()),
        decreases node, 1int,
    {
        let ghost before = self.text();
        match node {
            ASTNode::Return(r) => {
                self.push("Return(");
                let ghost mid = self.text();
                match &r.value {
                    Some(v) => self.visit(v),
                    None => {},
                }
                assert(self.text() == mid + dump_option_spec(option_view(r.value), self.indent(), self.numbers()));
                self.push(")");
            },
            _ => {},
        }
        assert(self.text() =~= before + dump_spec(node.node(), self.indent(), self.numbers()));
    }

    fn visit_raise(&mut self, node: &ASTNode)
        requires
            node is Raise,
        ensures
            final(self).indent() == old(self).indent(),
            final(self).numbers() == old(self).numbers(),
            final(self).text() == old(self).text() + dump_spec(node.node(), old(self).indent(), old(self).numbers()),
        decreases node, 1int,
    {
        let ghost before = self.text();
        match node {
            ASTNode::Raise(r) => {
                self.push("Raise(");
                let ghost mid = self.text();
                match &r.message {
                    Some(v) => self.visit(v),
                    None => {},
                }
                assert(self.text() == mid + dump_option_spec(option_view(r.message), self.indent(), self.numbers()));
                self.push(")");
            },
            _ => {},
        }
        assert(self.text() =~= before + dump_spec(node.node(), self.indent(), self.numbers()));
    }

    /// Writes the dumps of the statements of a block or the arguments of a call.
    fn visit_all(&mut self, node: &ASTNode)
        requires
            node is Block || node is MethodCall,
        ensures
            final(self).indent() == old(self).indent(),
            final(self).numbers() == old(self).numbers(),
            final(self).text() == old(self).text() + dump_list_spec(
                match node {
                    ASTNode::Block(b) => nodes_view(b.statements@),
                    ASTNode::MethodCall(c) => nodes_view(c.arguments@),
                    _ => Seq::empty(),
                },
                old(self).indent(), old(self).numbers()),
        decreases node, 0int,
    {
        let v = match node {
            ASTNode::Block(b) => &b.statements,
            ASTNode::MethodCall(c) => &c.arguments,
            _ => {
                return;
            },
        };
        let ghost before = self.text();
        let ghost xs = nodes_view(v@);
        proof {
            lemma_nodes_view_len(v@);
            assert(xs.subrange(0, 0) =~= Seq::<Node>::empty());
        }
        let mut i: usize = 0;
        while i < v.len()
            invariant
                0 <= i <= v@.len(),
                xs == nodes_view(v@),
                xs.len() == v@.len(),
                forall|j: int| 0 <= j < xs.len() ==> #[trigger] xs[j] == v@[j].node(),
                self.indent() == old(self).indent(),
                self.numbers() == old(self).numbers(),
                before == old(self).text(),
                self.text() == before + dump_list_spec(xs.subrange(0, i as int), self.indent(), self.numbers()),
                node is Block ==> *v == node->Block_0.statements,
                node is MethodCall ==> *v == node->MethodCall_0.arguments,
                node is Block || node is MethodCall,
            decreases v@.len() - i,
        {
            proof {
                if node is Block {
                    assert(decreases_to!(*node => node->Block_0));
                    assert(decreases_to!(node->Block_0 => node->Block_0.statements));
                } else {
                    assert(decreases_to!(*node => node->MethodCall_0));
                    assert(decreases_to!(node->MethodCall_0 => node->MethodCall_0.arguments));
                }
                assert(decreases_to!(*v => v@));
                assert(decreases_to!(v@ => v@[i as int]));
            }
            self.visit(&v[i]);
            proof {
                lemma_dump_list_split(xs, i as int, self.indent(), self.numbers());
            }
            i = i + 1;
        }
        assert(xs.subrange(0, i as int) =~= xs);
    }
}

/// `open`, the text, and `close`.
fn enclosed(open: &str, t: &str, close: &str) -> (r: String)
    ensures
        r@ == open@ + t@ + close@,
{
    let mut r = String::new();
    push_str(&mut r, open);
    push_str(&mut r, t);
    push_str(&mut r, close);
    assert(r@ =~= open@ + t@ + close@);
    r
}

/// The dump of a list, split after `i` items.
proof fn lemma_dump_list_split(xs: Seq<Node>, i: int, ind: int, nums: Seq<(Seq<char>, Seq<char>)>)
    requires
        0 <= i < xs.len(),
    ensures
        dump_list_spec(xs.subrange(0, i + 1), ind, nums) == dump_list_spec(xs.subrange(0, i), ind, nums)
            + dump_spec(xs[i], ind, nums),
    decreases i,
{
    let p = xs.subrange(0, i + 1);
    if i == 0 {
        assert(p.subrange(1, p.len() as int) =~= Seq::<Node>::empty());
        assert(xs.subrange(0, 0) =~= Seq::<Node>::empty());
        assert(p[0] == xs[0]);
        assert(dump_list_spec(Seq::<Node>::empty(), ind, nums) == Seq::<char>::empty());
        assert(dump_list_spec(p, ind, nums) == dump_spec(xs[0], ind, nums) + dump_list_spec(
            p.subrange(1, p.len() as int),
            ind, nums));
        assert(dump_list_spec(p, ind, nums) =~= dump_spec(xs[0], ind, nums));
        assert(dump_list_spec(xs.subrange(0, 0), ind, nums) =~= Seq::<char>::empty());
    } else {
        let q = xs.subrange(1, xs.len() as int);
        lemma_dump_list_split(q, i - 1, ind, nums);
        assert(q.subrange(0, i) =~= p.subrange(1, p.len() as int));
        assert(q.subrange(0, i - 1) =~= xs.subrange(0, i).subrange(1, i));
        assert(q[i - 1] == xs[i]);
        assert(dump_list_spec(xs.subrange(0, i), ind, nums) =~= dump_spec(xs[0], ind, nums) + dump_list_spec(
            xs.subrange(0, i).subrange(1, i),
            ind, nums));
        assert(dump_list_spec(p, ind, nums) =~= dump_spec(xs[0], ind, nums) + dump_list_spec(
            p.subrange(1, p.len() as int),
            ind, nums));
    }
}

impl ASTNode {
    /// Writes the dump of this node with the dumper.
    pub fn accept(&self, dumper: &mut ASTDumper)
        ensures
            final(dumper).indent() == old(dumper).indent(),
            final(dumper).numbers() == old(dumper).numbers(),
            final(dumper).text() == old(dumper).text() + dump_spec(self.node(), old(dumper).indent(), old(dumper).numbers()),
    {
        dumper.visit(self)
    }
}

/// The dump names each operator by its own name: the name of the token it is read from (the
/// kind `EqEqual` apart, whose operator is named `Equal`), and no two operators by one name.
pub proof fn law_operator_names(op: Operator, other: Operator, k: TokenType)
    ensures
        token_operator(k) == Some(op) && k != TokenType::EqEqual ==> operator_name(op)
            == kind_name(k),
        token_operator(TokenType::EqEqual) == Some(op) ==> operator_name(op) == kind_name(
            TokenType::Equal,
        ),
        operator_name(op) == operator_name(other) ==> op == other,
{
    reveal_strlit("Equal");
    reveal_strlit("Neq");
    reveal_strlit("Gt");
    reveal_strlit("Lt");
    reveal_strlit("Gte");
    reveal_strlit("Lte");
    reveal_strlit("Plus");
    reveal_strlit("Minus");
    if operator_name(op) == operator_name(other) && op != other {
        assert(operator_name(op)[0] == operator_name(other)[0]);
        assert(operator_name(op).len() == operator_name(other).len());
    }
}

/// No two token kinds share a name in the dump.
pub proof fn law_kind_names_distinct(a: TokenType, b: TokenType)
    ensures
        kind_name(a) == kind_name(b) ==> a == b,
{
    reveal_strlit("Identifier");
    reveal_strlit("Newline");
    reveal_strlit("StringLiteral");
    reveal_strlit("LeftParen");
    reveal_strlit("RightParen");
    reveal_strlit("Equal");
    reveal_strlit("EqEqual");
    reveal_strlit("Gt");
    reveal_strlit("Lt");
    reveal_strlit("Gte");
    reveal_strlit("Lte");
    reveal_strlit("Neq");
    reveal_strlit("NumberLiteral");
    reveal_strlit("Def");
    reveal_strlit("End");
    reveal_strlit("Comma");
    reveal_strlit("Class");
    reveal_strlit("Dot");
    reveal_strlit("Comment");
    reveal_strlit("If");
    reveal_strlit("Import");
    reveal_strlit("Plus");
    reveal_strlit("Minus");
    reveal_strlit("While");
    reveal_strlit("Break");
    reveal_strlit("Return");
    reveal_strlit("Not");
    reveal_strlit("Raise");
    if kind_name(a) == kind_name(b) && a != b {
        assert(kind_name(a).len() == kind_name(b).len());
        assert(kind_name(a)[0] == kind_name(b)[0]);
        assert(kind_name(a)[1] == kind_name(b)[1]);
    }
}

/// Looking for `q` in a text with one more char in front finds it one place further on.
proof fn lemma_find_char_shift(c: char, t: Seq<char>, i: int, q: char)
    requires
        0 <= i <= t.len(),
    ensures
        find_char(seq![c] + t, i + 1, q) == find_char(t, i, q) + 1,
    decreases t.len() - i,
{
    let u = seq![c] + t;
    if i < t.len() {
        assert(u[i + 1] == t[i]);
        if t[i] != q {
            lemma_find_char_shift(c, t, i + 1, q);
        }
    }
}

/// Looking for `q` in a text with more chars after the first `q` finds the same `q`.
proof fn lemma_find_char_append(t: Seq<char>, r: Seq<char>, i: int, q: char)
    requires
        0 <= i <= t.len(),
        find_char(t, i, q) < t.len(),
    ensures
        find_char(t + r, i, q) == find_char(t, i, q),
    decreases t.len() - i,
{
    assert((t + r)[i] == t[i]);
    if t[i] != q {
        lemma_find_char_append(t, r, i + 1, q);
    }
}

proof fn lemma_find_char_bounds(t: Seq<char>, i: int, q: char)
    requires
        0 <= i <= t.len(),
    ensures
        i <= find_char(t, i, q) <= t.len(),
        find_char(t, i, q) < t.len() ==> t[find_char(t, i, q)] == q,
        forall|k: int| i <= k < find_char(t, i, q) ==> t[k] != q,
    decreases t.len() - i,
{
    if i < t.len() && t[i] != q {
        lemma_find_char_bounds(t, i + 1, q);
    }
}

/// A number shows the same with a zero written in front of it: zeros in front do not count.
pub proof fn law_number_display_leading_zero(t: Seq<char>)
    requires
        t.len() > 0,
        t[0] != '.',
    ensures
        number_display(seq!['0'] + t) == number_display(t),
{
    let u = seq!['0'] + t;
    lemma_find_char_shift('0', t, 0, '.');
    assert(u[0] == '0');
    assert(find_char(u, 0, '.') == find_char(u, 1, '.'));
    let d = find_char(t, 0, '.');
    lemma_find_char_bounds(t, 0, '.');
    assert(d >= 1);
    assert(u.subrange(0, d + 1) =~= seq!['0'] + t.subrange(0, d));
    assert(u.subrange(0, d + 1).drop_first() =~= t.subrange(0, d));
    if d < t.len() {
        assert(u.subrange(d + 2, u.len() as int) =~= t.subrange(d + 1, t.len() as int));
    }
}

/// A number with a point shows the same with a zero written after it: zeros at the end of the
/// fraction do not count.
pub proof fn law_number_display_trailing_zero(t: Seq<char>)
    requires
        t.contains('.'),
    ensures
        number_display(t + seq!['0']) == number_display(t),
{
    let u = t + seq!['0'];
    let d = find_char(t, 0, '.');
    lemma_find_char_bounds(t, 0, '.');
    let k = choose|k: int| 0 <= k < t.len() && t[k] == '.';
    assert(d < t.len()) by {
        if d >= t.len() {
            assert(t[k] != '.');
        }
    }
    lemma_find_char_append(t, seq!['0'], 0, '.');
    assert(u.subrange(0, d) =~= t.subrange(0, d));
    let f = t.subrange(d + 1, t.len() as int);
    assert(u.subrange(d + 1, u.len() as int) =~= f.push('0'));
    assert(f.push('0').drop_last() =~= f);
}

/// The dump of a list shows every item, in order: the dump of two lists one after the other
/// is the dump of the first followed by the dump of the second, and the dump of a single item
/// is the dump of that item.
pub proof fn law_dump_list_items(
    xs: Seq<Node>,
    ys: Seq<Node>,
    x: Node,
    ind: int,
    nums: Seq<(Seq<char>, Seq<char>)>,
)
    ensures
        dump_list_spec(xs + ys, ind, nums) == dump_list_spec(xs, ind, nums) + dump_list_spec(
            ys,
            ind,
            nums,
        ),
        dump_list_spec(seq![x], ind, nums) == dump_spec(x, ind, nums),
    decreases xs.len(),
{
    if xs.len() == 0 {
        assert(xs + ys =~= ys);
    } else {
        let rest = xs.subrange(1, xs.len() as int);
        law_dump_list_items(rest, ys, x, ind, nums);
        assert((xs + ys).subrange(1, (xs + ys).len() as int) =~= rest + ys);
        assert((xs + ys)[0] == xs[0]);
    }
    assert(seq![x].subrange(1, 1) =~= Seq::<Node>::empty());
    assert(dump_list_spec(Seq::<Node>::empty(), ind, nums) == Seq::<char>::empty());
    assert(dump_spec(x, ind, nums) + Seq::<char>::empty() =~= dump_spec(x, ind, nums));
}

} // verus!
