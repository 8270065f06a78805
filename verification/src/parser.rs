use vstd::prelude::*;

use crate::ast::{
    is_expression_node, lemma_nodes_view_push, nodes_view, token_operator, ASTNode, Assignment,
    Attribute, BinOp, Block, ClassDef, Compare, Identifier, If, Import, MethodCall, MethodDef,
    Module, Node, Operator, Raise, Return, UnaryOp, While,
};
use crate::errors::{Error, ErrorView};
use crate::lexer::{lemma_lex_step_progress, lex_all, lex_step, LexOutcome, Lexer, Token, TokenType, TokenView};
use crate::text::{decimal, push_decimal, push_str};

verus! {

// ----------------------------------------------------------------------------------------
// The grammar, as mathematics over the sequence of tokens
// ----------------------------------------------------------------------------------------
//
// Every function below reads the tokens `ts` from index `i` on; `f` says whether lexing
// stopped on an error after the last token of `ts`. Consuming the last token then makes the
// lexer fail, and the parser gives up (`Parsing::Abort`); it gives up too where the tokens end
// inside a statement, as on a text of blank lines.

/// The outcome of parsing from a position: a value and the position after it, an error, or
/// giving up because the lexer failed or the tokens ended inside a statement.
pub enum Parsing<T> {
    Parsed(T, int),
    Error(ErrorView),
    Abort,
}

/// The kind of the token at `i`, if there is one.
pub open spec fn kind_at(ts: Seq<TokenView>, i: int) -> Option<TokenType> {
    if 0 <= i < ts.len() {
        Some(ts[i].kind)
    } else {
        None
    }
}

pub open spec fn is_at(ts: Seq<TokenView>, i: int, k: TokenType) -> bool {
    kind_at(ts, i) == Some(k)
}

/// Whether the token at `i` can be consumed: the lexer yields what follows it.
pub open spec fn can_advance(ts: Seq<TokenView>, f: bool, i: int) -> bool {
    !(f && i + 1 == ts.len())
}

pub open spec fn expected_message(t: TokenView) -> Seq<char> {
    "Expected token \""@ + t.value + "\" at line "@ + decimal(t.line as nat) + ", column "@
        + decimal(t.column as nat)
}

pub open spec fn unexpected_message(t: TokenView) -> Seq<char> {
    "Unexpected token "@ + t.value + " at line "@ + decimal(t.line as nat) + ", column "@
        + decimal(t.column as nat)
}

pub open spec fn missing_token_message() -> Seq<char> {
    "Unexpected token"@
}

/// Consumes a token of kind `k`.
pub open spec fn expect_spec(ts: Seq<TokenView>, f: bool, i: int, k: TokenType) -> Parsing<
    TokenView,
> {
    if !(0 <= i < ts.len()) {
        Parsing::Error(ErrorView::ParserError(missing_token_message()))
    } else if ts[i].kind != k {
        Parsing::Error(ErrorView::ParserError(expected_message(ts[i])))
    } else if can_advance(ts, f, i) {
        Parsing::Parsed(ts[i], i + 1)
    } else {
        Parsing::Abort
    }
}

/// Consumes the newlines at `i`.
pub open spec fn skip_newlines_spec(ts: Seq<TokenView>, f: bool, i: int) -> Parsing<()>
    decreases ts.len() - i,
{
    if is_at(ts, i, TokenType::Newline) {
        if can_advance(ts, f, i) {
            skip_newlines_spec(ts, f, i + 1)
        } else {
            Parsing::Abort
        }
    } else {
        Parsing::Parsed((), i)
    }
}

/// The text of an `import`: the tokens up to the end of the line, joined.
pub open spec fn import_name_spec(ts: Seq<TokenView>, f: bool, i: int, acc: Seq<char>) -> Parsing<
    Seq<char>,
>
    decreases ts.len() - i,
{
    if 0 <= i < ts.len() && ts[i].kind != TokenType::Newline {
        if can_advance(ts, f, i) {
            import_name_spec(ts, f, i + 1, acc + ts[i].value)
        } else {
            Parsing::Abort
        }
    } else {
        Parsing::Parsed(acc, i)
    }
}

/// The parameters of a method: identifiers separated by commas.
pub open spec fn parameters_spec(ts: Seq<TokenView>, f: bool, i: int, acc: Seq<Node>) -> Parsing<
    Seq<Node>,
>
    decreases ts.len() - i,
{
    if is_at(ts, i, TokenType::Identifier) {
        if !can_advance(ts, f, i) {
            Parsing::Abort
        } else {
            let acc2 = acc.push(Node::Identifier(ts[i].value));
            if is_at(ts, i + 1, TokenType::Comma) {
                if can_advance(ts, f, i + 1) {
                    parameters_spec(ts, f, i + 2, acc2)
                } else {
                    Parsing::Abort
                }
            } else {
                Parsing::Parsed(acc2, i + 1)
            }
        }
    } else {
        Parsing::Parsed(acc, i)
    }
}

pub open spec fn is_comparison(k: TokenType) -> bool {
    k == TokenType::EqEqual || k == TokenType::Gt || k == TokenType::Lt || k == TokenType::Gte
        || k == TokenType::Lte || k == TokenType::Neq
}

pub open spec fn is_sum_operator(k: TokenType) -> bool {
    k == TokenType::Plus || k == TokenType::Minus
}

/// The statements of a module, up to the end of the tokens.
pub open spec fn block_spec(ts: Seq<TokenView>, f: bool, i: int, acc: Seq<Node>) -> Parsing<
    Seq<Node>,
>
    decreases ts.len() - i, 14int,
{
    if !(0 <= i < ts.len()) {
        Parsing::Parsed(acc, i)
    } else {
        match statement_spec(ts, f, i) {
            Parsing::Parsed(s, j) => if i < j <= ts.len() {
                block_spec(ts, f, j, acc.push(s))
            } else {
                Parsing::Abort
            },
            Parsing::Error(e) => Parsing::Error(e),
            Parsing::Abort => Parsing::Abort,
        }
    }
}

/// The statements of a body, up to and including `end`, or up to the end of the tokens.
pub open spec fn body_spec(ts: Seq<TokenView>, f: bool, i: int, acc: Seq<Node>) -> Parsing<
    Seq<Node>,
>
    decreases ts.len() - i, 13int,
{
    if !(0 <= i < ts.len()) {
        Parsing::Parsed(acc, i)
    } else if ts[i].kind == TokenType::End {
        if can_advance(ts, f, i) {
            Parsing::Parsed(acc, i + 1)
        } else {
            Parsing::Abort
        }
    } else {
        match statement_spec(ts, f, i) {
            Parsing::Parsed(s, j) => if i < j <= ts.len() {
                body_spec(ts, f, j, acc.push(s))
            } else {
                Parsing::Abort
            },
            Parsing::Error(e) => Parsing::Error(e),
            Parsing::Abort => Parsing::Abort,
        }
    }
}

/// What a statement starting with a keyword at `j` (or with none) parses to.
pub open spec fn statement_head_spec(ts: Seq<TokenView>, f: bool, i: int, j: int) -> Parsing<Node>
    decreases ts.len() - i, 11int,
{
    if !(i <= j <= ts.len()) {
        Parsing::Abort
    } else if j < ts.len() && (ts[j].kind == TokenType::Def || ts[j].kind == TokenType::Class
        || ts[j].kind == TokenType::If || ts[j].kind == TokenType::Import || ts[j].kind
        == TokenType::While || ts[j].kind == TokenType::Break || ts[j].kind == TokenType::Return
        || ts[j].kind == TokenType::Raise) {
        if !can_advance(ts, f, j) {
            Parsing::Abort
        } else {
            let k = ts[j].kind;
            if k == TokenType::Def {
                method_def_spec(ts, f, j + 1)
            } else if k == TokenType::Class {
                class_def_spec(ts, f, j + 1)
            } else if k == TokenType::If {
                if_spec(ts, f, j + 1)
            } else if k == TokenType::Import {
                match import_name_spec(ts, f, j + 1, Seq::empty()) {
                    Parsing::Parsed(name, m) => Parsing::Parsed(Node::Import(name), m),
                    Parsing::Error(e) => Parsing::Error(e),
                    Parsing::Abort => Parsing::Abort,
                }
            } else if k == TokenType::While {
                while_spec(ts, f, j + 1)
            } else if k == TokenType::Break {
                Parsing::Parsed(Node::Break, j + 1)
            } else if k == TokenType::Return {
                match optional_expression_spec(ts, f, j + 1) {
                    Parsing::Parsed(v, m) => Parsing::Parsed(Node::Return(v), m),
                    Parsing::Error(e) => Parsing::Error(e),
                    Parsing::Abort => Parsing::Abort,
                }
            } else {
                match optional_expression_spec(ts, f, j + 1) {
                    Parsing::Parsed(v, m) => Parsing::Parsed(Node::Raise(v), m),
                    Parsing::Error(e) => Parsing::Error(e),
                    Parsing::Abort => Parsing::Abort,
                }
            }
        }
    } else {
        expression_spec(ts, f, j)
    }
}

/// A statement: leading newlines, the statement, and the newlines that end it.
pub open spec fn statement_spec(ts: Seq<TokenView>, f: bool, i: int) -> Parsing<Node>
    decreases ts.len() - i, 12int,
{
    match skip_newlines_spec(ts, f, i) {
        Parsing::Parsed(_, j) => match statement_head_spec(ts, f, i, j) {
            Parsing::Parsed(s, m) => if !(0 <= m < ts.len()) {
                Parsing::Parsed(s, m)
            } else {
                match expect_spec(ts, f, m, TokenType::Newline) {
                    Parsing::Parsed(_, m1) => match skip_newlines_spec(ts, f, m1) {
                        Parsing::Parsed(_, m2) => Parsing::Parsed(s, m2),
                        Parsing::Error(e) => Parsing::Error(e),
                        Parsing::Abort => Parsing::Abort,
                    },
                    Parsing::Error(e) => Parsing::Error(e),
                    Parsing::Abort => Parsing::Abort,
                }
            },
            Parsing::Error(e) => Parsing::Error(e),
            Parsing::Abort => Parsing::Abort,
        },
        Parsing::Error(e) => Parsing::Error(e),
        Parsing::Abort => Parsing::Abort,
    }
}

/// An expression, unless the line ends here (after `return` and `raise`).
pub open spec fn optional_expression_spec(ts: Seq<TokenView>, f: bool, i: int) -> Parsing<
    Option<Box<Node>>,
>
    decreases ts.len() - i, 10int,
{
    if 0 <= i < ts.len() && ts[i].kind != TokenType::Newline {
        match expression_spec(ts, f, i) {
            Parsing::Parsed(e, j) => Parsing::Parsed(Some(Box::new(e)), j),
            Parsing::Error(e) => Parsing::Error(e),
            Parsing::Abort => Parsing::Abort,
        }
    } else {
        Parsing::Parsed(None, i)
    }
}

/// `class NAME` NEWLINE body.
pub open spec fn class_def_spec(ts: Seq<TokenView>, f: bool, i: int) -> Parsing<Node>
    decreases ts.len() - i, 10int,
{
    match expect_spec(ts, f, i, TokenType::Identifier) {
        Parsing::Parsed(name, j) => match expect_spec(ts, f, j, TokenType::Newline) {
            Parsing::Parsed(_, k) => if i < k <= ts.len() {
                match body_spec(ts, f, k, Seq::empty()) {
                    Parsing::Parsed(b, m) => Parsing::Parsed(
                        Node::ClassDef(name.value, Box::new(Node::Block(b))),
                        m,
                    ),
                    Parsing::Error(e) => Parsing::Error(e),
                    Parsing::Abort => Parsing::Abort,
                }
            } else {
                Parsing::Abort
            },
            Parsing::Error(e) => Parsing::Error(e),
            Parsing::Abort => Parsing::Abort,
        },
        Parsing::Error(e) => Parsing::Error(e),
        Parsing::Abort => Parsing::Abort,
    }
}

/// A condition, NEWLINE, and a body: what `if` and `while` are made of.
pub open spec fn guarded_body_spec(ts: Seq<TokenView>, f: bool, i: int) -> Parsing<
    (Node, Seq<Node>),
>
    decreases ts.len() - i, 10int,
{
    match expression_spec(ts, f, i) {
        Parsing::Parsed(test, j) => match expect_spec(ts, f, j, TokenType::Newline) {
            Parsing::Parsed(_, k) => if i < k <= ts.len() {
                match body_spec(ts, f, k, Seq::empty()) {
                    Parsing::Parsed(b, m) => Parsing::Parsed((test, b), m),
                    Parsing::Error(e) => Parsing::Error(e),
                    Parsing::Abort => Parsing::Abort,
                }
            } else {
                Parsing::Abort
            },
            Parsing::Error(e) => Parsing::Error(e),
            Parsing::Abort => Parsing::Abort,
        },
        Parsing::Error(e) => Parsing::Error(e),
        Parsing::Abort => Parsing::Abort,
    }
}

pub open spec fn if_spec(ts: Seq<TokenView>, f: bool, i: int) -> Parsing<Node>
    decreases ts.len() - i, 11int,
{
    match guarded_body_spec(ts, f, i) {
        Parsing::Parsed((test, b), m) => Parsing::Parsed(
            Node::If(Box::new(test), Box::new(Node::Block(b))),
            m,
        ),
        Parsing::Error(e) => Parsing::Error(e),
        Parsing::Abort => Parsing::Abort,
    }
}

pub open spec fn while_spec(ts: Seq<TokenView>, f: bool, i: int) -> Parsing<Node>
    decreases ts.len() - i, 11int,
{
    match guarded_body_spec(ts, f, i) {
        Parsing::Parsed((test, b), m) => Parsing::Parsed(
            Node::While(Box::new(test), Box::new(Node::Block(b))),
            m,
        ),
        Parsing::Error(e) => Parsing::Error(e),
        Parsing::Abort => Parsing::Abort,
    }
}

/// The optional parameter list of a method, from just after its name.
pub open spec fn method_parameters_spec(ts: Seq<TokenView>, f: bool, j: int) -> Parsing<
    Seq<Node>,
> {
    if is_at(ts, j, TokenType::LeftParen) {
        if !can_advance(ts, f, j) {
            Parsing::Abort
        } else {
            match parameters_spec(ts, f, j + 1, Seq::empty()) {
                Parsing::Parsed(ps, k) => match expect_spec(ts, f, k, TokenType::RightParen) {
                    Parsing::Parsed(_, k2) => Parsing::Parsed(ps, k2),
                    Parsing::Error(e) => Parsing::Error(e),
                    Parsing::Abort => Parsing::Abort,
                },
                Parsing::Error(e) => Parsing::Error(e),
                Parsing::Abort => Parsing::Abort,
            }
        }
    } else {
        Parsing::Parsed(Seq::empty(), j)
    }
}

/// `def NAME` [`(` parameters `)`] NEWLINE body.
pub open spec fn method_def_spec(ts: Seq<TokenView>, f: bool, i: int) -> Parsing<Node>
    decreases ts.len() - i, 10int,
{
    match expect_spec(ts, f, i, TokenType::Identifier) {
        Parsing::Parsed(name, j) => match method_parameters_spec(ts, f, j) {
            Parsing::Parsed(ps, k) => match expect_spec(ts, f, k, TokenType::Newline) {
                Parsing::Parsed(_, k3) => if i < k3 <= ts.len() {
                    match body_spec(ts, f, k3, Seq::empty()) {
                        Parsing::Parsed(b, m) => Parsing::Parsed(
                            Node::MethodDef(name.value, ps, Box::new(Node::Block(b))),
                            m,
                        ),
                        Parsing::Error(e) => Parsing::Error(e),
                        Parsing::Abort => Parsing::Abort,
                    }
                } else {
                    Parsing::Abort
                },
                Parsing::Error(e) => Parsing::Error(e),
                Parsing::Abort => Parsing::Abort,
            },
            Parsing::Error(e) => Parsing::Error(e),
            Parsing::Abort => Parsing::Abort,
        },
        Parsing::Error(e) => Parsing::Error(e),
        Parsing::Abort => Parsing::Abort,
    }
}

/// An expression: sums joined by comparison operators, grouped from the left.
pub open spec fn expression_spec(ts: Seq<TokenView>, f: bool, i: int) -> Parsing<Node>
    decreases ts.len() - i, 9int,
{
    match sum_spec(ts, f, i) {
        Parsing::Parsed(l, j) => if i < j <= ts.len() {
            comparison_rest_spec(ts, f, j, l)
        } else {
            Parsing::Abort
        },
        Parsing::Error(e) => Parsing::Error(e),
        Parsing::Abort => Parsing::Abort,
    }
}

pub open spec fn comparison_rest_spec(ts: Seq<TokenView>, f: bool, j: int, l: Node) -> Parsing<
    Node,
>
    decreases ts.len() - j, 9int,
{
    if 0 <= j < ts.len() && is_comparison(ts[j].kind) {
        if !can_advance(ts, f, j) {
            Parsing::Abort
        } else {
            match sum_spec(ts, f, j + 1) {
                Parsing::Parsed(r, k) => if j < k <= ts.len() {
                    comparison_rest_spec(
                        ts,
                        f,
                        k,
                        Node::Compare(
                            Box::new(l),
                            token_operator(ts[j].kind).unwrap(),
                            Box::new(r),
                        ),
                    )
                } else {
                    Parsing::Abort
                },
                Parsing::Error(e) => Parsing::Error(e),
                Parsing::Abort => Parsing::Abort,
            }
        }
    } else {
        Parsing::Parsed(l, j)
    }
}

/// A sum: primaries joined by `+` and `-`, grouped from the left.
pub open spec fn sum_spec(ts: Seq<TokenView>, f: bool, i: int) -> Parsing<Node>
    decreases ts.len() - i, 8int,
{
    match primary_spec(ts, f, i) {
        Parsing::Parsed(l, j) => if i < j <= ts.len() {
            sum_rest_spec(ts, f, j, l)
        } else {
            Parsing::Abort
        },
        Parsing::Error(e) => Parsing::Error(e),
        Parsing::Abort => Parsing::Abort,
    }
}

pub open spec fn sum_rest_spec(ts: Seq<TokenView>, f: bool, j: int, l: Node) -> Parsing<Node>
    decreases ts.len() - j, 8int,
{
    if 0 <= j < ts.len() && is_sum_operator(ts[j].kind) {
        if !can_advance(ts, f, j) {
            Parsing::Abort
        } else {
            match primary_spec(ts, f, j + 1) {
                Parsing::Parsed(r, k) => if j < k <= ts.len() {
                    sum_rest_spec(
                        ts,
                        f,
                        k,
                        Node::BinOp(Box::new(l), token_operator(ts[j].kind).unwrap(), Box::new(r)),
                    )
                } else {
                    Parsing::Abort
                },
                Parsing::Error(e) => Parsing::Error(e),
                Parsing::Abort => Parsing::Abort,
            }
        }
    } else {
        Parsing::Parsed(l, j)
    }
}

/// A primary: an atom followed by calls, assignments and attribute accesses.
pub open spec fn primary_spec(ts: Seq<TokenView>, f: bool, i: int) -> Parsing<Node>
    decreases ts.len() - i, 7int,
{
    match atom_spec(ts, f, i) {
        Parsing::Parsed(a, j) => if i < j <= ts.len() {
            primary_rest_spec(ts, f, j, a)
        } else {
            Parsing::Abort
        },
        Parsing::Error(e) => Parsing::Error(e),
        Parsing::Abort => Parsing::Abort,
    }
}

pub open spec fn primary_rest_spec(ts: Seq<TokenView>, f: bool, j: int, e: Node) -> Parsing<Node>
    decreases ts.len() - j, 7int,
{
    if !(0 <= j < ts.len()) {
        Parsing::Parsed(e, j)
    } else if ts[j].kind == TokenType::LeftParen {
        if !can_advance(ts, f, j) {
            Parsing::Abort
        } else {
            match arguments_spec(ts, f, j + 1, Seq::empty()) {
                Parsing::Parsed(args, k) => match expect_spec(ts, f, k, TokenType::RightParen) {
                    Parsing::Parsed(_, k2) => if j < k2 <= ts.len() {
                        primary_rest_spec(ts, f, k2, Node::MethodCall(Box::new(e), args))
                    } else {
                        Parsing::Abort
                    },
                    Parsing::Error(err) => Parsing::Error(err),
                    Parsing::Abort => Parsing::Abort,
                },
                Parsing::Error(err) => Parsing::Error(err),
                Parsing::Abort => Parsing::Abort,
            }
        }
    } else if ts[j].kind == TokenType::Equal {
        if !can_advance(ts, f, j) {
            Parsing::Abort
        } else {
            match expression_spec(ts, f, j + 1) {
                Parsing::Parsed(v, k) => if j < k <= ts.len() {
                    primary_rest_spec(ts, f, k, Node::Assignment(Box::new(e), Box::new(v)))
                } else {
                    Parsing::Abort
                },
                Parsing::Error(err) => Parsing::Error(err),
                Parsing::Abort => Parsing::Abort,
            }
        }
    } else if ts[j].kind == TokenType::Dot {
        if !can_advance(ts, f, j) {
            Parsing::Abort
        } else {
            match expect_spec(ts, f, j + 1, TokenType::Identifier) {
                Parsing::Parsed(t, k) => if j < k <= ts.len() {
                    primary_rest_spec(ts, f, k, Node::Attribute(Box::new(e), t.value))
                } else {
                    Parsing::Abort
                },
                Parsing::Error(err) => Parsing::Error(err),
                Parsing::Abort => Parsing::Abort,
            }
        }
    } else {
        Parsing::Parsed(e, j)
    }
}

/// The arguments of a call: expressions separated by commas, up to `)`.
pub open spec fn arguments_spec(ts: Seq<TokenView>, f: bool, i: int, acc: Seq<Node>) -> Parsing<
    Seq<Node>,
>
    decreases ts.len() - i, 10int,
{
    if 0 <= i < ts.len() && ts[i].kind != TokenType::RightParen {
        match expression_spec(ts, f, i) {
            Parsing::Parsed(a, k) => if i < k <= ts.len() {
                if is_at(ts, k, TokenType::Comma) {
                    if can_advance(ts, f, k) {
                        arguments_spec(ts, f, k + 1, acc.push(a))
                    } else {
                        Parsing::Abort
                    }
                } else {
                    Parsing::Parsed(acc.push(a), k)
                }
            } else {
                Parsing::Abort
            },
            Parsing::Error(e) => Parsing::Error(e),
            Parsing::Abort => Parsing::Abort,
        }
    } else {
        Parsing::Parsed(acc, i)
    }
}

/// An atom: an identifier, a string, a number, or `+` or `-` before an atom.
pub open spec fn atom_spec(ts: Seq<TokenView>, f: bool, i: int) -> Parsing<Node>
    decreases ts.len() - i, 6int,
{
    if !(0 <= i < ts.len()) {
        Parsing::Abort
    } else {
        let t = ts[i];
        if t.kind == TokenType::Identifier || t.kind == TokenType::StringLiteral || t.kind
            == TokenType::NumberLiteral || t.kind == TokenType::Plus || t.kind
            == TokenType::Minus {
            if !can_advance(ts, f, i) {
                Parsing::Abort
            } else if t.kind == TokenType::Identifier {
                Parsing::Parsed(Node::Identifier(t.value), i + 1)
            } else if t.kind == TokenType::StringLiteral {
                Parsing::Parsed(Node::StringLiteral(t.value), i + 1)
            } else if t.kind == TokenType::NumberLiteral {
                Parsing::Parsed(Node::NumberLiteral(t.value), i + 1)
            } else {
                match atom_spec(ts, f, i + 1) {
                    Parsing::Parsed(o, j) => Parsing::Parsed(Node::UnaryOp(t.kind, Box::new(o)), j),
                    Parsing::Error(e) => Parsing::Error(e),
                    Parsing::Abort => Parsing::Abort,
                }
            }
        } else {
            Parsing::Error(ErrorView::ParserError(unexpected_message(t)))
        }
    }
}

/// What `parse` yields: the module of all statements, read from the first token.
pub open spec fn parse_spec(ts: Seq<TokenView>, f: bool, started: bool, pos: int) -> Parsing<Node> {
    let start: Option<int> = if !started {
        if ts.len() == 0 && f {
            None
        } else {
            Some(0)
        }
    } else if pos < ts.len() {
        if can_advance(ts, f, pos) {
            Some(pos + 1)
        } else {
            None
        }
    } else {
        Some(pos)
    };
    match start {
        None => Parsing::Abort,
        Some(i) => match block_spec(ts, f, i, Seq::empty()) {
            Parsing::Parsed(b, j) => Parsing::Parsed(Node::Module(Box::new(Node::Block(b))), j),
            Parsing::Error(e) => Parsing::Error(e),
            Parsing::Abort => Parsing::Abort,
        },
    }
}


// ----------------------------------------------------------------------------------------
// The parser
// ----------------------------------------------------------------------------------------

/// What a step of the parser yields: a value, an error, or giving up because the lexer
/// failed on the text after the last token.
#[derive(Debug)]
pub enum Step<T> {
    Done(T),
    Failed(Error),
    Aborted,
}

/// Whether an executed step yields the node that the grammar says.
pub open spec fn node_matches(r: Step<Box<ASTNode>>, s: Parsing<Node>) -> bool {
    match s {
        Parsing::Parsed(v, _) => r matches Step::Done(x) && x.node() == v,
        Parsing::Error(e) => r matches Step::Failed(err) && err@ == e,
        Parsing::Abort => r is Aborted,
    }
}

/// Whether an executed step yields the list of nodes that the grammar says.
pub open spec fn nodes_matches(r: Step<Vec<Box<ASTNode>>>, s: Parsing<Seq<Node>>) -> bool {
    match s {
        Parsing::Parsed(v, _) => r matches Step::Done(x) && nodes_view(x@) == v,
        Parsing::Error(e) => r matches Step::Failed(err) && err@ == e,
        Parsing::Abort => r is Aborted,
    }
}

/// Whether an executed step yields the token that the grammar says.
pub open spec fn token_matches(r: Step<Token>, s: Parsing<TokenView>) -> bool {
    match s {
        Parsing::Parsed(v, _) => r matches Step::Done(x) && x@ == v,
        Parsing::Error(e) => r matches Step::Failed(err) && err@ == e,
        Parsing::Abort => r is Aborted,
    }
}

/// Whether an executed step that yields no value ends as the grammar says.
pub open spec fn unit_matches(r: Step<()>, s: Parsing<()>) -> bool {
    match s {
        Parsing::Parsed(_, _) => r is Done,
        Parsing::Error(e) => r matches Step::Failed(err) && err@ == e,
        Parsing::Abort => r is Aborted,
    }
}

/// The position after a successful parse.
pub open spec fn ends_at<V>(s: Parsing<V>, p: int) -> bool {
    s matches Parsing::Parsed(_, k) ==> p == k
}

pub open spec fn map_parsing<A, B>(s: Parsing<A>, g: spec_fn(A) -> B) -> Parsing<B> {
    match s {
        Parsing::Parsed(v, k) => Parsing::Parsed(g(v), k),
        Parsing::Error(e) => Parsing::Error(e),
        Parsing::Abort => Parsing::Abort,
    }
}

/// Builds the syntax tree of a program from the tokens of its text.
pub struct Parser {
    tokens: Vec<Token>,
    failed: bool,
    pos: usize,
    started: bool,
}

fn copy_token(t: &Token) -> (c: Token)
    ensures
        c@ == t@,
{
    Token { kind: t.kind, value: t.value.clone(), line: t.line, column: t.column }
}

fn expected_error(t: &Token) -> (e: Error)
    ensures
        e@ == ErrorView::ParserError(expected_message(t@)),
{
    let mut m = String::new();
    push_str(&mut m, "Expected token \"");
    push_str(&mut m, t.value.as_str());
    push_str(&mut m, "\" at line ");
    push_decimal(&mut m, t.line);
    push_str(&mut m, ", column ");
    push_decimal(&mut m, t.column);
    Error::ParserError(m)
}

fn unexpected_error(t: &Token) -> (e: Error)
    ensures
        e@ == ErrorView::ParserError(unexpected_message(t@)),
{
    let mut m = String::new();
    push_str(&mut m, "Unexpected token ");
    push_str(&mut m, t.value.as_str());
    push_str(&mut m, " at line ");
    push_decimal(&mut m, t.line);
    push_str(&mut m, ", column ");
    push_decimal(&mut m, t.column);
    Error::ParserError(m)
}

impl Parser {
    #[verifier::type_invariant]
    spec fn inv(self) -> bool {
        &&& self.pos <= self.tokens@.len()
        &&& !self.started ==> self.pos == 0
    }

    /// The tokens that the parser reads.
    pub closed spec fn tokens(&self) -> Seq<TokenView> {
        self.tokens@.map_values(|t: Token| t@)
    }

    /// Whether lexing stopped on an error after the last token.
    pub closed spec fn failed(&self) -> bool {
        self.failed
    }

    /// The index of the current token (the end of the tokens once all are read).
    pub closed spec fn pos(&self) -> int {
        self.pos as int
    }

    /// Whether parsing has begun: before, there is no current token.
    pub closed spec fn started(&self) -> bool {
        self.started
    }

    pub open spec fn same_input(&self, other: &Parser) -> bool {
        &&& self.tokens() == other.tokens()
        &&& self.failed() == other.failed()
        &&& self.started() == other.started()
    }

    /// A parser over the tokens of the lexer's text from where the lexer stands.
    pub fn new(lexer: Lexer) -> (p: Self)
        ensures
            p.tokens() == lex_all(lexer.text(), lexer.state()).0,
            p.failed() == lex_all(lexer.text(), lexer.state()).1,
            !p.started(),
            p.pos() == 0,
    {
        let mut lexer = lexer;
        let ghost s = lexer.text();
        let ghost st0 = lexer.state();
        let _ = lexer.is_at_end();
        let mut tokens: Vec<Token> = Vec::new();
        let mut failed = false;
        let mut done = false;
        while !done
            invariant
                lexer.text() == s,
                lexer.state().position <= s.len(),
                !done ==> !failed,
                done ==> lex_all(s, st0) == (tokens@.map_values(|t: Token| t@), failed),
                !done ==> lex_all(s, st0) == (
                    tokens@.map_values(|t: Token| t@) + lex_all(s, lexer.state()).0,
                    lex_all(s, lexer.state()).1,
                ),
            decreases s.len() - lexer.state().position, if done { 0int } else { 1int },
        {
            let ghost st = lexer.state();
            let ghost before = tokens@.map_values(|t: Token| t@);
            proof {
                lemma_lex_step_progress(s, st);
            }
            match lexer.next_token() {
                Ok(Some(t)) => {
                    tokens.push(t);
                    proof {
                        assert(tokens@.map_values(|t: Token| t@) =~= before.push(t@));
                        let rest = lex_all(s, lexer.state()).0;
                        assert(before + (seq![t@] + rest) =~= before.push(t@) + rest);
                    }
                },
                Ok(None) => {
                    done = true;
                    proof {
                        assert(before + Seq::<TokenView>::empty() =~= before);
                    }
                },
                Err(_) => {
                    done = true;
                    failed = true;
                    proof {
                        assert(before + Seq::<TokenView>::empty() =~= before);
                    }
                },
            }
        }
        Parser { tokens, failed, pos: 0, started: false }
    }

    /// The kind of the current token.
    fn peek_kind(&self) -> (k: Option<TokenType>)
        ensures
            k == (if self.started() { kind_at(self.tokens(), self.pos()) } else { None }),
    {
        proof {
            use_type_invariant(self);
        }
        if self.started && self.pos < self.tokens.len() {
            Some(self.tokens[self.pos].kind)
        } else {
            None
        }
    }

    /// Whether the current token has kind `kind`.
    fn at_kind(&self, kind: TokenType) -> (b: bool)
        ensures
            b == (self.started() && is_at(self.tokens(), self.pos(), kind)),
    {
        match self.peek_kind() {
            Some(k) => k == kind,
            None => false,
        }
    }

    /// The current token.
    fn peek(&self) -> (t: Option<&Token>)
        ensures
            self.started() && 0 <= self.pos() < self.tokens().len() ==> (t matches Some(x) && x@
                == self.tokens()[self.pos()]),
            !(self.started() && 0 <= self.pos() < self.tokens().len()) ==> t is None,
    {
        proof {
            use_type_invariant(self);
        }
        if self.started && self.pos < self.tokens.len() {
            Some(&self.tokens[self.pos])
        } else {
            None
        }
    }

    /// Moves past the current token; `false` where the lexer fails on what follows it.
    fn next_token(&mut self) -> (ok: bool)
        requires
            old(self).started(),
            0 <= old(self).pos() < old(self).tokens().len(),
        ensures
            final(self).same_input(old(self)),
            ok == can_advance(old(self).tokens(), old(self).failed(), old(self).pos()),
            ok ==> final(self).pos() == old(self).pos() + 1,
            !ok ==> final(self).pos() == old(self).pos(),
    {
        proof {
            use_type_invariant(&*self);
            assert(self.tokens().len() == self.tokens@.len());
        }
        let len = self.tokens.len();
        if self.pos + 1 == len && self.failed {
            false
        } else {
            self.pos = self.pos + 1;
            true
        }
    }
}


/// What a step of the parser that yields a node promises: the input is unchanged, the node
/// and the position after it are the grammar's, and a node consumes at least one token.
pub open spec fn parsed_node(old: Parser, new: Parser, r: Step<Box<ASTNode>>, s: Parsing<Node>) -> bool {
    &&& new.same_input(&old)
    &&& node_matches(r, s)
    &&& ends_at(s, new.pos())
    &&& (r is Done ==> old.pos() < new.pos() <= old.tokens().len())
}

/// The same for a step that yields a list of nodes, which may consume nothing.
pub open spec fn parsed_nodes(
    old: Parser,
    new: Parser,
    r: Step<Vec<Box<ASTNode>>>,
    s: Parsing<Seq<Node>>,
) -> bool {
    &&& new.same_input(&old)
    &&& nodes_matches(r, s)
    &&& ends_at(s, new.pos())
    &&& (r is Done ==> old.pos() <= new.pos() <= old.tokens().len())
}

impl Parser {
    /// Consumes the current token where it has kind `kind`.
    fn accept(&mut self, kind: TokenType) -> (r: Step<Option<Token>>)
        requires
            old(self).started(),
        ensures
            final(self).same_input(old(self)),
            is_at(old(self).tokens(), old(self).pos(), kind) ==> if can_advance(
                old(self).tokens(),
                old(self).failed(),
                old(self).pos(),
            ) {
                (r matches Step::Done(Some(t)) && t@ == old(self).tokens()[old(self).pos()])
                    && final(self).pos() == old(self).pos() + 1
            } else {
                r is Aborted
            },
            !is_at(old(self).tokens(), old(self).pos(), kind) ==> (r matches Step::Done(None))
                && final(self).pos() == old(self).pos(),
    {
        match self.peek() {
            Some(t) => {
                if t.kind == kind {
                    let c = copy_token(t);
                    if self.next_token() {
                        Step::Done(Some(c))
                    } else {
                        Step::Aborted
                    }
                } else {
                    Step::Done(None)
                }
            },
            None => Step::Done(None),
        }
    }

    /// Consumes the current token, which must have kind `kind`.
    fn expect(&mut self, kind: TokenType) -> (r: Step<Token>)
        requires
            old(self).started(),
        ensures
            final(self).same_input(old(self)),
            token_matches(r, expect_spec(old(self).tokens(), old(self).failed(), old(self).pos(), kind)),
            ends_at(expect_spec(old(self).tokens(), old(self).failed(), old(self).pos(), kind), final(self).pos()),
    {
        match self.peek() {
            Some(t) => {
                if t.kind == kind {
                    let c = copy_token(t);
                    if self.next_token() {
                        Step::Done(c)
                    } else {
                        Step::Aborted
                    }
                } else {
                    Step::Failed(expected_error(t))
                }
            },
            None => Step::Failed(Error::ParserError("Unexpected token".to_string())),
        }
    }

    /// Consumes the newlines at the current position.
    fn skip_newlines(&mut self) -> (r: Step<()>)
        requires
            old(self).started(),
        ensures
            final(self).same_input(old(self)),
            unit_matches(r, skip_newlines_spec(old(self).tokens(), old(self).failed(), old(self).pos())),
            ends_at(skip_newlines_spec(old(self).tokens(), old(self).failed(), old(self).pos()), final(self).pos()),
            r is Done ==> old(self).pos() <= final(self).pos() <= old(self).tokens().len(),
    {
        proof {
            use_type_invariant(&*self);
        }
        let ghost ts = self.tokens();
        let ghost f = self.failed();
        let ghost p0 = self.pos();
        while self.at_kind(TokenType::Newline)
            invariant
                self.same_input(old(self)),
                self.tokens() == ts,
                self.failed() == f,
                ts == old(self).tokens(),
                f == old(self).failed(),
                p0 == old(self).pos(),
                self.started(),
                p0 <= self.pos() <= ts.len(),
                skip_newlines_spec(ts, f, p0) == skip_newlines_spec(ts, f, self.pos()),
            decreases ts.len() - self.pos(),
        {
            proof {
                use_type_invariant(&*self);
            }
            let ghost p = self.pos();
            if !self.next_token() {
                assert(skip_newlines_spec(ts, f, p) is Abort);
                return Step::Aborted;
            }
        }
        Step::Done(())
    }
}


fn is_comparison_kind(k: TokenType) -> (b: bool)
    ensures
        b == is_comparison(k),
{
    k == TokenType::EqEqual || k == TokenType::Gt || k == TokenType::Lt || k == TokenType::Gte
        || k == TokenType::Lte || k == TokenType::Neq
}

impl Parser {
    /// The comparison operator of the current token, if it is one.
    fn comparison_at(&self) -> (r: Option<Operator>)
        ensures
            r == (if self.started() && 0 <= self.pos() < self.tokens().len() && is_comparison(
                self.tokens()[self.pos()].kind,
            ) {
                token_operator(self.tokens()[self.pos()].kind)
            } else {
                None
            }),
    {
        match self.peek_kind() {
            Some(k) => if is_comparison_kind(k) {
                Operator::from_token(&k)
            } else {
                None
            },
            None => None,
        }
    }

    /// An atom: an identifier, a string, a number, or `+` or `-` before an atom.
    fn parse_atom(&mut self) -> (r: Step<Box<ASTNode>>)
        requires
            old(self).started(),
        ensures
            parsed_node(
                *old(self),
                *final(self),
                r,
                atom_spec(old(self).tokens(), old(self).failed(), old(self).pos()),
            ),
        decreases old(self).tokens().len() - old(self).pos(), 11int,
    {
        proof {
            use_type_invariant(&*self);
        }
        let t = match self.peek() {
            Some(t) => t,
            None => {
                return Step::Aborted;
            },
        };
        let kind = t.kind;
        if kind == TokenType::Identifier || kind == TokenType::StringLiteral || kind
            == TokenType::NumberLiteral {
            let v = t.value.clone();
            if !self.next_token() {
                return Step::Aborted;
            }
            let node = if kind == TokenType::Identifier {
                ASTNode::Identifier(Identifier::new(v))
            } else if kind == TokenType::StringLiteral {
                ASTNode::StringLiteral(v)
            } else {
                ASTNode::NumberLiteral(v)
            };
            Step::Done(Box::new(node))
        } else if kind == TokenType::Plus || kind == TokenType::Minus {
            if !self.next_token() {
                return Step::Aborted;
            }
            match self.parse_atom() {
                Step::Done(operand) => Step::Done(
                    Box::new(ASTNode::UnaryOp(UnaryOp { operator: kind, operand })),
                ),
                Step::Failed(e) => Step::Failed(e),
                Step::Aborted => Step::Aborted,
            }
        } else {
            Step::Failed(unexpected_error(t))
        }
    }

    /// A primary: an atom followed by calls, assignments and attribute accesses.
    fn parse_primary(&mut self) -> (r: Step<Box<ASTNode>>)
        requires
            old(self).started(),
        ensures
            parsed_node(
                *old(self),
                *final(self),
                r,
                primary_spec(old(self).tokens(), old(self).failed(), old(self).pos()),
            ),
        decreases old(self).tokens().len() - old(self).pos(), 12int,
    {
        let ghost ts = self.tokens();
        let ghost f = self.failed();
        let ghost p0 = self.pos();
        let mut primary = match self.parse_atom() {
            Step::Done(a) => a,
            Step::Failed(e) => {
                return Step::Failed(e);
            },
            Step::Aborted => {
                return Step::Aborted;
            },
        };
        loop
            invariant
                self.same_input(old(self)),
                ts == old(self).tokens(),
                f == old(self).failed(),
                p0 == old(self).pos(),
                self.started(),
                p0 < self.pos() <= ts.len(),
                primary_spec(ts, f, p0) == primary_rest_spec(ts, f, self.pos(), primary.node()),
            decreases ts.len() - self.pos(),
        {
            let ghost j = self.pos();
            if self.at_kind(TokenType::LeftParen) {
                if !self.next_token() {
                    return Step::Aborted;
                }
                let arguments = match self.parse_arguments() {
                    Step::Done(a) => a,
                    Step::Failed(e) => {
                        return Step::Failed(e);
                    },
                    Step::Aborted => {
                        return Step::Aborted;
                    },
                };
                match self.expect(TokenType::RightParen) {
                    Step::Done(_) => {},
                    Step::Failed(e) => {
                        return Step::Failed(e);
                    },
                    Step::Aborted => {
                        return Step::Aborted;
                    },
                }
                primary = Box::new(ASTNode::MethodCall(MethodCall::new(primary, arguments)));
            } else if self.at_kind(TokenType::Equal) {
                if !self.next_token() {
                    return Step::Aborted;
                }
                let value = match self.parse_expression() {
                    Step::Done(v) => v,
                    Step::Failed(e) => {
                        return Step::Failed(e);
                    },
                    Step::Aborted => {
                        return Step::Aborted;
                    },
                };
                primary = Box::new(ASTNode::Assignment(Assignment::new(primary, value)));
            } else if self.at_kind(TokenType::Dot) {
                if !self.next_token() {
                    return Step::Aborted;
                }
                let name = match self.expect(TokenType::Identifier) {
                    Step::Done(t) => t,
                    Step::Failed(e) => {
                        return Step::Failed(e);
                    },
                    Step::Aborted => {
                        return Step::Aborted;
                    },
                };
                primary = Box::new(ASTNode::Attribute(Attribute::new(primary, name.value)));
            } else {
                return Step::Done(primary);
            }
        }
    }

    /// The arguments of a call: expressions separated by commas, up to `)`.
    fn parse_arguments(&mut self) -> (r: Step<Vec<Box<ASTNode>>>)
        requires
            old(self).started(),
        ensures
            parsed_nodes(
                *old(self),
                *final(self),
                r,
                arguments_spec(old(self).tokens(), old(self).failed(), old(self).pos(), Seq::empty()),
            ),
        decreases old(self).tokens().len() - old(self).pos(), 16int,
    {
        proof {
            use_type_invariant(&*self);
        }
        let ghost ts = self.tokens();
        let ghost f = self.failed();
        let ghost p0 = self.pos();
        let mut arguments: Vec<Box<ASTNode>> = Vec::new();
        loop
            invariant
                self.same_input(old(self)),
                ts == old(self).tokens(),
                f == old(self).failed(),
                p0 == old(self).pos(),
                self.started(),
                p0 <= self.pos() <= ts.len(),
                arguments_spec(ts, f, p0, Seq::empty()) == arguments_spec(
                    ts,
                    f,
                    self.pos(),
                    nodes_view(arguments@),
                ),
            decreases ts.len() - self.pos(),
        {
            let more = match self.peek() {
                Some(t) => t.kind != TokenType::RightParen,
                None => false,
            };
            if !more {
                return Step::Done(arguments);
            }
            let a = match self.parse_expression() {
                Step::Done(a) => a,
                Step::Failed(e) => {
                    return Step::Failed(e);
                },
                Step::Aborted => {
                    return Step::Aborted;
                },
            };
            proof {
                lemma_nodes_view_push(arguments@, a);
            }
            arguments.push(a);
            match self.accept(TokenType::Comma) {
                Step::Done(Some(_)) => {},
                Step::Done(None) => {
                    return Step::Done(arguments);
                },
                Step::Failed(e) => {
                    return Step::Failed(e);
                },
                Step::Aborted => {
                    return Step::Aborted;
                },
            }
        }
    }

    /// A sum: primaries joined by `+` and `-`, grouped from the left.
    fn parse_sum(&mut self) -> (r: Step<Box<ASTNode>>)
        requires
            old(self).started(),
        ensures
            parsed_node(
                *old(self),
                *final(self),
                r,
                sum_spec(old(self).tokens(), old(self).failed(), old(self).pos()),
            ),
        decreases old(self).tokens().len() - old(self).pos(), 13int,
    {
        let ghost ts = self.tokens();
        let ghost f = self.failed();
        let ghost p0 = self.pos();
        let mut primary = match self.parse_primary() {
            Step::Done(a) => a,
            Step::Failed(e) => {
                return Step::Failed(e);
            },
            Step::Aborted => {
                return Step::Aborted;
            },
        };
        loop
            invariant
                self.same_input(old(self)),
                ts == old(self).tokens(),
                f == old(self).failed(),
                p0 == old(self).pos(),
                self.started(),
                p0 < self.pos() <= ts.len(),
                sum_spec(ts, f, p0) == sum_rest_spec(ts, f, self.pos(), primary.node()),
            decreases ts.len() - self.pos(),
        {
            let operator = if self.at_kind(TokenType::Plus) {
                Operator::Plus
            } else if self.at_kind(TokenType::Minus) {
                Operator::Minus
            } else {
                return Step::Done(primary);
            };
            if !self.next_token() {
                return Step::Aborted;
            }
            let right = match self.parse_primary() {
                Step::Done(a) => a,
                Step::Failed(e) => {
                    return Step::Failed(e);
                },
                Step::Aborted => {
                    return Step::Aborted;
                },
            };
            primary = Box::new(ASTNode::BinOp(BinOp { left: primary, operator, right }));
        }
    }

    /// Sums joined by comparison operators, grouped from the left.
    fn parse_comparison(&mut self) -> (r: Step<Box<ASTNode>>)
        requires
            old(self).started(),
        ensures
            parsed_node(
                *old(self),
                *final(self),
                r,
                expression_spec(old(self).tokens(), old(self).failed(), old(self).pos()),
            ),
        decreases old(self).tokens().len() - old(self).pos(), 14int,
    {
        let ghost ts = self.tokens();
        let ghost f = self.failed();
        let ghost p0 = self.pos();
        let mut primary = match self.parse_sum() {
            Step::Done(a) => a,
            Step::Failed(e) => {
                return Step::Failed(e);
            },
            Step::Aborted => {
                return Step::Aborted;
            },
        };
        loop
            invariant
                self.same_input(old(self)),
                ts == old(self).tokens(),
                f == old(self).failed(),
                p0 == old(self).pos(),
                self.started(),
                p0 < self.pos() <= ts.len(),
                expression_spec(ts, f, p0) == comparison_rest_spec(
                    ts,
                    f,
                    self.pos(),
                    primary.node(),
                ),
            decreases ts.len() - self.pos(),
        {
            let operator = match self.comparison_at() {
                Some(op) => op,
                None => {
                    return Step::Done(primary);
                },
            };
            if !self.next_token() {
                return Step::Aborted;
            }
            let right = match self.parse_sum() {
                Step::Done(a) => a,
                Step::Failed(e) => {
                    return Step::Failed(e);
                },
                Step::Aborted => {
                    return Step::Aborted;
                },
            };
            primary = Box::new(ASTNode::Compare(Compare { left: primary, operator, right }));
        }
    }

    /// An expression.
    fn parse_expression(&mut self) -> (r: Step<Box<ASTNode>>)
        requires
            old(self).started(),
        ensures
            parsed_node(
                *old(self),
                *final(self),
                r,
                expression_spec(old(self).tokens(), old(self).failed(), old(self).pos()),
            ),
        decreases old(self).tokens().len() - old(self).pos(), 15int,
    {
        self.parse_comparison()
    }
}


/// The statements of a module as one block node.
pub open spec fn block_node_spec(ts: Seq<TokenView>, f: bool, i: int) -> Parsing<Node> {
    match block_spec(ts, f, i, Seq::empty()) {
        Parsing::Parsed(b, k) => Parsing::Parsed(Node::Block(b), k),
        Parsing::Error(e) => Parsing::Error(e),
        Parsing::Abort => Parsing::Abort,
    }
}

/// The text of an `import` as a node.
pub open spec fn import_spec(ts: Seq<TokenView>, f: bool, i: int) -> Parsing<Node> {
    match import_name_spec(ts, f, i, Seq::empty()) {
        Parsing::Parsed(name, k) => Parsing::Parsed(Node::Import(name), k),
        Parsing::Error(e) => Parsing::Error(e),
        Parsing::Abort => Parsing::Abort,
    }
}

/// A `return` statement after its keyword.
pub open spec fn return_spec(ts: Seq<TokenView>, f: bool, i: int) -> Parsing<Node> {
    match optional_expression_spec(ts, f, i) {
        Parsing::Parsed(v, k) => Parsing::Parsed(Node::Return(v), k),
        Parsing::Error(e) => Parsing::Error(e),
        Parsing::Abort => Parsing::Abort,
    }
}

/// A `raise` statement after its keyword.
pub open spec fn raise_spec(ts: Seq<TokenView>, f: bool, i: int) -> Parsing<Node> {
    match optional_expression_spec(ts, f, i) {
        Parsing::Parsed(v, k) => Parsing::Parsed(Node::Raise(v), k),
        Parsing::Error(e) => Parsing::Error(e),
        Parsing::Abort => Parsing::Abort,
    }
}

/// A block node of the given statements.
fn block_box(statements: Vec<Box<ASTNode>>) -> (b: Box<ASTNode>)
    ensures
        b.node() == Node::Block(nodes_view(statements@)),
{
    Box::new(ASTNode::Block(Block::new(statements)))
}

impl Parser {
    /// Whether there is a current token.
    fn has_current(&self) -> (b: bool)
        ensures
            b == (self.started() && 0 <= self.pos() < self.tokens().len()),
    {
        proof {
            use_type_invariant(self);
        }
        self.started && self.pos < self.tokens.len()
    }

    /// The statements of a body, up to and including `end`, or up to the end of the tokens.
    fn parse_body(&mut self) -> (r: Step<Vec<Box<ASTNode>>>)
        requires
            old(self).started(),
        ensures
            parsed_nodes(
                *old(self),
                *final(self),
                r,
                body_spec(old(self).tokens(), old(self).failed(), old(self).pos(), Seq::empty()),
            ),
        decreases old(self).tokens().len() - old(self).pos(), 19int,
    {
        proof {
            use_type_invariant(&*self);
        }
        let ghost ts = self.tokens();
        let ghost f = self.failed();
        let ghost p0 = self.pos();
        let mut statements: Vec<Box<ASTNode>> = Vec::new();
        loop
            invariant
                self.same_input(old(self)),
                ts == old(self).tokens(),
                f == old(self).failed(),
                p0 == old(self).pos(),
                self.started(),
                p0 <= self.pos() <= ts.len(),
                body_spec(ts, f, p0, Seq::empty()) == body_spec(
                    ts,
                    f,
                    self.pos(),
                    nodes_view(statements@),
                ),
            decreases ts.len() - self.pos(),
        {
            if !self.has_current() {
                return Step::Done(statements);
            }
            if self.at_kind(TokenType::End) {
                if !self.next_token() {
                    return Step::Aborted;
                }
                return Step::Done(statements);
            }
            let statement = match self.parse_statement() {
                Step::Done(s) => s,
                Step::Failed(e) => {
                    return Step::Failed(e);
                },
                Step::Aborted => {
                    return Step::Aborted;
                },
            };
            proof {
                lemma_nodes_view_push(statements@, statement);
            }
            statements.push(statement);
        }
    }

    /// The statements of a module, up to the end of the tokens, as one block.
    fn parse_block(&mut self) -> (r: Step<Box<ASTNode>>)
        requires
            old(self).started(),
        ensures
            final(self).same_input(old(self)),
            node_matches(r, block_node_spec(old(self).tokens(), old(self).failed(), old(self).pos())),
            ends_at(block_node_spec(old(self).tokens(), old(self).failed(), old(self).pos()), final(self).pos()),
        decreases old(self).tokens().len() - old(self).pos(), 20int,
    {
        proof {
            use_type_invariant(&*self);
        }
        let ghost ts = self.tokens();
        let ghost f = self.failed();
        let ghost p0 = self.pos();
        let mut statements: Vec<Box<ASTNode>> = Vec::new();
        while self.has_current()
            invariant
                self.same_input(old(self)),
                ts == old(self).tokens(),
                f == old(self).failed(),
                p0 == old(self).pos(),
                self.started(),
                p0 <= self.pos() <= ts.len(),
                block_spec(ts, f, p0, Seq::empty()) == block_spec(
                    ts,
                    f,
                    self.pos(),
                    nodes_view(statements@),
                ),
            decreases ts.len() - self.pos(),
        {
            let statement = match self.parse_statement() {
                Step::Done(s) => s,
                Step::Failed(e) => {
                    return Step::Failed(e);
                },
                Step::Aborted => {
                    return Step::Aborted;
                },
            };
            proof {
                lemma_nodes_view_push(statements@, statement);
            }
            statements.push(statement);
        }
        Step::Done(Box::new(ASTNode::Block(Block::new(statements))))
    }

    /// A statement: leading newlines, the statement, and the newlines that end it.
    fn parse_statement(&mut self) -> (r: Step<Box<ASTNode>>)
        requires
            old(self).started(),
        ensures
            parsed_node(
                *old(self),
                *final(self),
                r,
                statement_spec(old(self).tokens(), old(self).failed(), old(self).pos()),
            ),
        decreases old(self).tokens().len() - old(self).pos(), 18int,
    {
        let ghost ts = self.tokens();
        let ghost f = self.failed();
        let ghost i = self.pos();
        match self.skip_newlines() {
            Step::Done(_) => {},
            Step::Failed(e) => {
                return Step::Failed(e);
            },
            Step::Aborted => {
                return Step::Aborted;
            },
        }
        let ghost j = self.pos();
        let statement = match self.parse_statement_head() {
            Step::Done(s) => s,
            Step::Failed(e) => {
                return Step::Failed(e);
            },
            Step::Aborted => {
                return Step::Aborted;
            },
        };
        assert(statement_head_spec(ts, f, i, j) == statement_head_spec(ts, f, j, j));
        if !self.has_current() {
            return Step::Done(statement);
        }
        match self.expect(TokenType::Newline) {
            Step::Done(_) => {},
            Step::Failed(e) => {
                return Step::Failed(e);
            },
            Step::Aborted => {
                return Step::Aborted;
            },
        }
        match self.skip_newlines() {
            Step::Done(_) => {},
            Step::Failed(e) => {
                return Step::Failed(e);
            },
            Step::Aborted => {
                return Step::Aborted;
            },
        }
        Step::Done(statement)
    }

    /// The statement that starts at the current token, after its leading newlines.
    fn parse_statement_head(&mut self) -> (r: Step<Box<ASTNode>>)
        requires
            old(self).started(),
        ensures
            parsed_node(
                *old(self),
                *final(self),
                r,
                statement_head_spec(
                    old(self).tokens(),
                    old(self).failed(),
                    old(self).pos(),
                    old(self).pos(),
                ),
            ),
        decreases old(self).tokens().len() - old(self).pos(), 17int,
    {
        proof {
            use_type_invariant(&*self);
        }
        let kind = match self.peek_kind() {
            Some(k) => k,
            None => {
                return self.parse_expression();
            },
        };
        if kind == TokenType::Def || kind == TokenType::Class || kind == TokenType::If || kind
            == TokenType::Import || kind == TokenType::While || kind == TokenType::Break || kind
            == TokenType::Return || kind == TokenType::Raise {
            if !self.next_token() {
                return Step::Aborted;
            }
            if kind == TokenType::Def {
                self.parse_method_def()
            } else if kind == TokenType::Class {
                self.parse_class_def()
            } else if kind == TokenType::If {
                self.parse_if_statement()
            } else if kind == TokenType::Import {
                self.parse_import()
            } else if kind == TokenType::While {
                self.parse_while_statement()
            } else if kind == TokenType::Break {
                Step::Done(Box::new(ASTNode::Break()))
            } else if kind == TokenType::Return {
                self.parse_return()
            } else {
                self.parse_raise()
            }
        } else {
            self.parse_expression()
        }
    }

    /// `class NAME` NEWLINE body, after the keyword.
    fn parse_class_def(&mut self) -> (r: Step<Box<ASTNode>>)
        requires
            old(self).started(),
        ensures
            parsed_node(
                *old(self),
                *final(self),
                r,
                class_def_spec(old(self).tokens(), old(self).failed(), old(self).pos()),
            ),
        decreases old(self).tokens().len() - old(self).pos(), 16int,
    {
        let identifier = match self.expect(TokenType::Identifier) {
            Step::Done(t) => t,
            Step::Failed(e) => {
                return Step::Failed(e);
            },
            Step::Aborted => {
                return Step::Aborted;
            },
        };
        match self.expect(TokenType::Newline) {
            Step::Done(_) => {},
            Step::Failed(e) => {
                return Step::Failed(e);
            },
            Step::Aborted => {
                return Step::Aborted;
            },
        }
        let body = match self.parse_body() {
            Step::Done(b) => b,
            Step::Failed(e) => {
                return Step::Failed(e);
            },
            Step::Aborted => {
                return Step::Aborted;
            },
        };
        let b = block_box(body);
        let n = Box::new(ASTNode::ClassDef(ClassDef::new(identifier.value, b)));
        assert(n.node() == Node::ClassDef(identifier.value@, Box::new(b.node())));
        Step::Done(n)
    }

    /// A condition, NEWLINE, and a body.
    fn parse_guarded_body(&mut self) -> (r: Step<(Box<ASTNode>, Vec<Box<ASTNode>>)>)
        requires
            old(self).started(),
        ensures
            final(self).same_input(old(self)),
            match guarded_body_spec(old(self).tokens(), old(self).failed(), old(self).pos()) {
                Parsing::Parsed((test, b), k) => (r matches Step::Done((t, body)) && t.node()
                    == test && nodes_view(body@) == b) && final(self).pos() == k && old(self).pos()
                    < k <= old(self).tokens().len(),
                Parsing::Error(e) => r matches Step::Failed(err) && err@ == e,
                Parsing::Abort => r is Aborted,
            },
        decreases old(self).tokens().len() - old(self).pos(), 16int,
    {
        let test = match self.parse_expression() {
            Step::Done(t) => t,
            Step::Failed(e) => {
                return Step::Failed(e);
            },
            Step::Aborted => {
                return Step::Aborted;
            },
        };
        match self.expect(TokenType::Newline) {
            Step::Done(_) => {},
            Step::Failed(e) => {
                return Step::Failed(e);
            },
            Step::Aborted => {
                return Step::Aborted;
            },
        }
        let body = match self.parse_body() {
            Step::Done(b) => b,
            Step::Failed(e) => {
                return Step::Failed(e);
            },
            Step::Aborted => {
                return Step::Aborted;
            },
        };
        Step::Done((test, body))
    }

    /// `if` condition NEWLINE body, after the keyword.
    fn parse_if_statement(&mut self) -> (r: Step<Box<ASTNode>>)
        requires
            old(self).started(),
        ensures
            parsed_node(
                *old(self),
                *final(self),
                r,
                if_spec(old(self).tokens(), old(self).failed(), old(self).pos()),
            ),
        decreases old(self).tokens().len() - old(self).pos(), 17int,
    {
        match self.parse_guarded_body() {
            Step::Done((test, body)) => {
                let ghost tv = test.node();
                let b = block_box(body);
                let n = Box::new(ASTNode::If(If::new(test, b)));
                assert(n.node() == Node::If(Box::new(tv), Box::new(b.node())));
                Step::Done(n)
            },
            Step::Failed(e) => Step::Failed(e),
            Step::Aborted => Step::Aborted,
        }
    }

    /// `while` condition NEWLINE body, after the keyword.
    fn parse_while_statement(&mut self) -> (r: Step<Box<ASTNode>>)
        requires
            old(self).started(),
        ensures
            parsed_node(
                *old(self),
                *final(self),
                r,
                while_spec(old(self).tokens(), old(self).failed(), old(self).pos()),
            ),
        decreases old(self).tokens().len() - old(self).pos(), 17int,
    {
        match self.parse_guarded_body() {
            Step::Done((test, body)) => {
                let ghost tv = test.node();
                let b = block_box(body);
                let n = Box::new(ASTNode::While(While::new(test, b)));
                assert(n.node() == Node::While(Box::new(tv), Box::new(b.node())));
                Step::Done(n)
            },
            Step::Failed(e) => Step::Failed(e),
            Step::Aborted => Step::Aborted,
        }
    }

    /// The rest of a `while` statement, after its keyword; without a current token the parser
    /// gives up.
    pub fn parse_while(&mut self) -> (r: Step<Box<ASTNode>>)
        ensures
            old(self).started() ==> parsed_node(
                *old(self),
                *final(self),
                r,
                while_spec(old(self).tokens(), old(self).failed(), old(self).pos()),
            ),
            !old(self).started() ==> r is Aborted,
    {
        if !self.started {
            return Step::Aborted;
        }
        self.parse_while_statement()
    }

    /// The name of an `import`: the tokens up to the end of the line, joined.
    fn parse_import(&mut self) -> (r: Step<Box<ASTNode>>)
        requires
            old(self).started(),
        ensures
            final(self).same_input(old(self)),
            node_matches(r, import_spec(old(self).tokens(), old(self).failed(), old(self).pos())),
            ends_at(import_spec(old(self).tokens(), old(self).failed(), old(self).pos()), final(self).pos()),
            r is Done ==> old(self).pos() <= final(self).pos() <= old(self).tokens().len(),
    {
        proof {
            use_type_invariant(&*self);
        }
        let ghost ts = self.tokens();
        let ghost f = self.failed();
        let ghost p0 = self.pos();
        let mut module_name = String::new();
        loop
            invariant
                self.same_input(old(self)),
                ts == old(self).tokens(),
                f == old(self).failed(),
                p0 == old(self).pos(),
                self.started(),
                p0 <= self.pos() <= ts.len(),
                import_name_spec(ts, f, p0, Seq::empty()) == import_name_spec(
                    ts,
                    f,
                    self.pos(),
                    module_name@,
                ),
            decreases ts.len() - self.pos(),
        {
            proof {
                use_type_invariant(&*self);
            }
            match self.peek() {
                Some(t) => {
                    if t.kind == TokenType::Newline {
                        return Step::Done(Box::new(ASTNode::Import(Import::new(module_name))));
                    }
                    push_str(&mut module_name, t.value.as_str());
                },
                None => {
                    return Step::Done(Box::new(ASTNode::Import(Import::new(module_name))));
                },
            }
            if !self.next_token() {
                return Step::Aborted;
            }
        }
    }

    /// The value of a `return` or `raise`, unless the line ends here.
    fn parse_optional_expression(&mut self) -> (r: Step<Option<Box<ASTNode>>>)
        requires
            old(self).started(),
        ensures
            final(self).same_input(old(self)),
            match optional_expression_spec(old(self).tokens(), old(self).failed(), old(self).pos()) {
                Parsing::Parsed(v, k) => (r matches Step::Done(x) && crate::ast::option_view(x)
                    == v) && final(self).pos() == k && old(self).pos() <= k <= old(
                    self,
                ).tokens().len(),
                Parsing::Error(e) => r matches Step::Failed(err) && err@ == e,
                Parsing::Abort => r is Aborted,
            },
        decreases old(self).tokens().len() - old(self).pos(), 16int,
    {
        proof {
            use_type_invariant(&*self);
        }
        let more = match self.peek() {
            Some(t) => t.kind != TokenType::Newline,
            None => false,
        };
        if more {
            match self.parse_expression() {
                Step::Done(e) => Step::Done(Some(e)),
                Step::Failed(e) => Step::Failed(e),
                Step::Aborted => Step::Aborted,
            }
        } else {
            Step::Done(None)
        }
    }

    /// A `return` statement, after its keyword.
    fn parse_return(&mut self) -> (r: Step<Box<ASTNode>>)
        requires
            old(self).started(),
        ensures
            final(self).same_input(old(self)),
            node_matches(r, return_spec(old(self).tokens(), old(self).failed(), old(self).pos())),
            ends_at(return_spec(old(self).tokens(), old(self).failed(), old(self).pos()), final(self).pos()),
            r is Done ==> old(self).pos() <= final(self).pos() <= old(self).tokens().len(),
        decreases old(self).tokens().len() - old(self).pos(), 17int,
    {
        match self.parse_optional_expression() {
            Step::Done(value) => Step::Done(Box::new(ASTNode::Return(Return { value }))),
            Step::Failed(e) => Step::Failed(e),
            Step::Aborted => Step::Aborted,
        }
    }

    /// A `raise` statement, after its keyword.
    fn parse_raise(&mut self) -> (r: Step<Box<ASTNode>>)
        requires
            old(self).started(),
        ensures
            final(self).same_input(old(self)),
            node_matches(r, raise_spec(old(self).tokens(), old(self).failed(), old(self).pos())),
            ends_at(raise_spec(old(self).tokens(), old(self).failed(), old(self).pos()), final(self).pos()),
            r is Done ==> old(self).pos() <= final(self).pos() <= old(self).tokens().len(),
        decreases old(self).tokens().len() - old(self).pos(), 17int,
    {
        match self.parse_optional_expression() {
            Step::Done(message) => Step::Done(Box::new(ASTNode::Raise(Raise { message }))),
            Step::Failed(e) => Step::Failed(e),
            Step::Aborted => Step::Aborted,
        }
    }

    /// `def NAME` [`(` parameters `)`] NEWLINE body, after the keyword.
    fn parse_method_def(&mut self) -> (r: Step<Box<ASTNode>>)
        requires
            old(self).started(),
        ensures
            parsed_node(
                *old(self),
                *final(self),
                r,
                method_def_spec(old(self).tokens(), old(self).failed(), old(self).pos()),
            ),
        decreases old(self).tokens().len() - old(self).pos(), 16int,
    {
        let ghost ts = self.tokens();
        let ghost f = self.failed();
        let identifier = match self.expect(TokenType::Identifier) {
            Step::Done(t) => t,
            Step::Failed(e) => {
                return Step::Failed(e);
            },
            Step::Aborted => {
                return Step::Aborted;
            },
        };
        let ghost j = self.pos();
        let parameters = if self.at_kind(TokenType::LeftParen) {
            if !self.next_token() {
                return Step::Aborted;
            }
            let ps = match self.parse_parameters() {
                Step::Done(ps) => ps,
                Step::Failed(e) => {
                    return Step::Failed(e);
                },
                Step::Aborted => {
                    return Step::Aborted;
                },
            };
            match self.expect(TokenType::RightParen) {
                Step::Done(_) => {},
                Step::Failed(e) => {
                    return Step::Failed(e);
                },
                Step::Aborted => {
                    return Step::Aborted;
                },
            }
            ps
        } else {
            Vec::new()
        };
        assert(method_parameters_spec(ts, f, j) matches Parsing::Parsed(ps, k) && ps == nodes_view(
            parameters@,
        ) && k == self.pos());
        match self.expect(TokenType::Newline) {
            Step::Done(_) => {},
            Step::Failed(e) => {
                return Step::Failed(e);
            },
            Step::Aborted => {
                return Step::Aborted;
            },
        }
        let body = match self.parse_body() {
            Step::Done(b) => b,
            Step::Failed(e) => {
                return Step::Failed(e);
            },
            Step::Aborted => {
                return Step::Aborted;
            },
        };
        let ghost pv = nodes_view(parameters@);
        let b = block_box(body);
        let n = Box::new(ASTNode::MethodDef(MethodDef::new(identifier.value, parameters, b)));
        assert(n.node() == Node::MethodDef(identifier.value@, pv, Box::new(b.node())));
        Step::Done(n)
    }

    /// The parameters of a method: identifiers separated by commas.
    fn parse_parameters(&mut self) -> (r: Step<Vec<Box<ASTNode>>>)
        requires
            old(self).started(),
        ensures
            parsed_nodes(
                *old(self),
                *final(self),
                r,
                parameters_spec(old(self).tokens(), old(self).failed(), old(self).pos(), Seq::empty()),
            ),
    {
        proof {
            use_type_invariant(&*self);
        }
        let ghost ts = self.tokens();
        let ghost f = self.failed();
        let ghost p0 = self.pos();
        let mut parameters: Vec<Box<ASTNode>> = Vec::new();
        loop
            invariant
                self.same_input(old(self)),
                ts == old(self).tokens(),
                f == old(self).failed(),
                p0 == old(self).pos(),
                self.started(),
                p0 <= self.pos() <= ts.len(),
                parameters_spec(ts, f, p0, Seq::empty()) == parameters_spec(
                    ts,
                    f,
                    self.pos(),
                    nodes_view(parameters@),
                ),
            decreases ts.len() - self.pos(),
        {
            proof {
                use_type_invariant(&*self);
            }
            let token = match self.accept(TokenType::Identifier) {
                Step::Done(Some(t)) => t,
                Step::Done(None) => {
                    return Step::Done(parameters);
                },
                Step::Failed(e) => {
                    return Step::Failed(e);
                },
                Step::Aborted => {
                    return Step::Aborted;
                },
            };
            let p = Box::new(ASTNode::Identifier(Identifier::new(token.value)));
            proof {
                lemma_nodes_view_push(parameters@, p);
            }
            parameters.push(p);
            match self.accept(TokenType::Comma) {
                Step::Done(Some(_)) => {},
                Step::Done(None) => {
                    return Step::Done(parameters);
                },
                Step::Failed(e) => {
                    return Step::Failed(e);
                },
                Step::Aborted => {
                    return Step::Aborted;
                },
            }
        }
    }

    /// Parses the whole program; `None` exactly where parsing stops: the lexer fails on text
    /// that the parser reaches, or the tokens end inside a statement (as on blank lines alone).
    pub fn try_parse(&mut self) -> (r: Option<Result<ASTNode, Error>>)
        ensures
            match parse_spec(old(self).tokens(), old(self).failed(), old(self).started(), old(self).pos()) {
                Parsing::Parsed(v, _) => r matches Some(Ok(n)) && n.node() == v,
                Parsing::Error(e) => r matches Some(Err(err)) && err@ == e,
                Parsing::Abort => r is None,
            },
    {
        proof {
            use_type_invariant(&*self);
        }
        if !self.started {
            if self.tokens.len() == 0 && self.failed {
                return None;
            }
            self.started = true;
        } else if self.pos < self.tokens.len() {
            if !self.next_token() {
                return None;
            }
        }
        match self.parse_block() {
            Step::Done(b) => Some(Ok(ASTNode::Module(Module::new(b)))),
            Step::Failed(e) => Some(Err(e)),
            Step::Aborted => None,
        }
    }

    /// Parses the whole program into a module.
    pub fn parse(&mut self) -> (r: Result<ASTNode, Error>)
        requires
            !(parse_spec(old(self).tokens(), old(self).failed(), old(self).started(), old(self).pos()) is Abort),
        ensures
            match parse_spec(old(self).tokens(), old(self).failed(), old(self).started(), old(self).pos()) {
                Parsing::Parsed(v, _) => r matches Ok(n) && n.node() == v,
                Parsing::Error(e) => r matches Err(err) && err@ == e,
                Parsing::Abort => false,
            },
    {
        match self.try_parse() {
            Some(r) => r,
            None => Err(Error::ParserError(String::new())),
        }
    }
}

/// The statements of a module run to the end of the tokens.
proof fn lemma_block_reads_all(ts: Seq<TokenView>, f: bool, i: int, acc: Seq<Node>)
    requires
        0 <= i <= ts.len(),
    ensures
        block_spec(ts, f, i, acc) matches Parsing::Parsed(_, k) ==> k == ts.len(),
    decreases ts.len() - i,
{
    if i < ts.len() {
        match statement_spec(ts, f, i) {
            Parsing::Parsed(s, j) => {
                if i < j <= ts.len() {
                    lemma_block_reads_all(ts, f, j, acc.push(s));
                }
            },
            _ => {},
        }
    }
}

/// A program that parses is read to its last token: parsing stops at the end of the tokens.
pub proof fn law_parse_reads_all_tokens(ts: Seq<TokenView>, f: bool, started: bool, pos: int)
    requires
        0 <= pos <= ts.len(),
    ensures
        parse_spec(ts, f, started, pos) matches Parsing::Parsed(_, k) ==> k == ts.len(),
{
    if !started {
        lemma_block_reads_all(ts, f, 0, Seq::empty());
    } else if pos < ts.len() {
        lemma_block_reads_all(ts, f, pos + 1, Seq::empty());
    } else {
        lemma_block_reads_all(ts, f, pos, Seq::empty());
    }
}

/// A list of statements read after `prefix`: `prefix` followed by them, where reading
/// succeeded; an error or giving up as it came.
pub open spec fn after_prefix<T>(prefix: Seq<T>, r: Parsing<Seq<T>>) -> Parsing<Seq<T>> {
    match r {
        Parsing::Parsed(v, k) => Parsing::Parsed(prefix + v, k),
        Parsing::Error(e) => Parsing::Error(e),
        Parsing::Abort => Parsing::Abort,
    }
}

/// The statements already read are kept, in order, ahead of those read from `i` on: the
/// body read with `acc` before it is `acc` followed by the body read from scratch.
pub proof fn law_body_keeps_earlier(ts: Seq<TokenView>, f: bool, i: int, acc: Seq<Node>)
    ensures
        body_spec(ts, f, i, acc) == after_prefix(acc, body_spec(ts, f, i, Seq::empty())),
    decreases ts.len() - i,
{
    if !(0 <= i < ts.len()) || ts[i].kind == TokenType::End {
        assert(acc + Seq::<Node>::empty() =~= acc);
    } else {
        match statement_spec(ts, f, i) {
            Parsing::Parsed(s, j) => {
                if i < j <= ts.len() {
                    law_body_keeps_earlier(ts, f, j, acc.push(s));
                    law_body_keeps_earlier(ts, f, j, Seq::empty().push(s));
                    match body_spec(ts, f, j, Seq::empty()) {
                        Parsing::Parsed(v, k) => {
                            assert(acc.push(s) + v =~= acc + (Seq::empty().push(s) + v));
                        },
                        _ => {},
                    }
                }
            },
            _ => {},
        }
    }
}

/// A body holds one entry for each statement read, in order: where a statement `s` is read
/// from `i` (not at `end`) and ends at `j`, the body from `i` is `s` followed by the body
/// from `j`.
pub proof fn law_body_statement_then_rest(
    ts: Seq<TokenView>,
    f: bool,
    i: int,
    s: Node,
    j: int,
)
    requires
        0 <= i < ts.len(),
        ts[i].kind != TokenType::End,
        statement_spec(ts, f, i) == Parsing::Parsed(s, j),
        i < j <= ts.len(),
    ensures
        body_spec(ts, f, i, Seq::empty()) == after_prefix(
            seq![s],
            body_spec(ts, f, j, Seq::empty()),
        ),
{
    law_body_keeps_earlier(ts, f, j, Seq::empty().push(s));
    assert(Seq::<Node>::empty().push(s) =~= seq![s]);
}

/// The statements of a module already read are kept, in order, ahead of those read from `i`
/// on.
pub proof fn law_block_keeps_earlier(ts: Seq<TokenView>, f: bool, i: int, acc: Seq<Node>)
    ensures
        block_spec(ts, f, i, acc) == after_prefix(acc, block_spec(ts, f, i, Seq::empty())),
    decreases ts.len() - i,
{
    if !(0 <= i < ts.len()) {
        assert(acc + Seq::<Node>::empty() =~= acc);
    } else {
        match statement_spec(ts, f, i) {
            Parsing::Parsed(s, j) => {
                if i < j <= ts.len() {
                    law_block_keeps_earlier(ts, f, j, acc.push(s));
                    law_block_keeps_earlier(ts, f, j, Seq::empty().push(s));
                    match block_spec(ts, f, j, Seq::empty()) {
                        Parsing::Parsed(v, k) => {
                            assert(acc.push(s) + v =~= acc + (Seq::empty().push(s) + v));
                        },
                        _ => {},
                    }
                }
            },
            _ => {},
        }
    }
}

/// A module holds one entry for each statement read, in order: where a statement `s` is read
/// from `i` and ends at `j`, the statements from `i` are `s` followed by those from `j`.
pub proof fn law_block_statement_then_rest(
    ts: Seq<TokenView>,
    f: bool,
    i: int,
    s: Node,
    j: int,
)
    requires
        0 <= i < ts.len(),
        statement_spec(ts, f, i) == Parsing::Parsed(s, j),
        i < j <= ts.len(),
    ensures
        block_spec(ts, f, i, Seq::empty()) == after_prefix(
            seq![s],
            block_spec(ts, f, j, Seq::empty()),
        ),
{
    law_block_keeps_earlier(ts, f, j, Seq::empty().push(s));
    assert(Seq::<Node>::empty().push(s) =~= seq![s]);
}

/// The node of a plain operand token: a name, a string or a number, standing for itself.
pub open spec fn operand_node(t: TokenView) -> Option<Node> {
    if t.kind == TokenType::Identifier {
        Some(Node::Identifier(t.value))
    } else if t.kind == TokenType::StringLiteral {
        Some(Node::StringLiteral(t.value))
    } else if t.kind == TokenType::NumberLiteral {
        Some(Node::NumberLiteral(t.value))
    } else {
        None
    }
}

/// Whether an expression ends before `k`: the tokens end, or the token there cannot go on an
/// expression (no call, assignment, attribute, arithmetic or comparison).
pub open spec fn expression_ends_at(ts: Seq<TokenView>, k: int) -> bool {
    k >= ts.len() || !(ts[k].kind == TokenType::LeftParen || ts[k].kind == TokenType::Equal
        || ts[k].kind == TokenType::Dot || is_sum_operator(ts[k].kind) || is_comparison(
        ts[k].kind,
    ))
}

proof fn lemma_operand(ts: Seq<TokenView>, f: bool, i: int)
    requires
        0 <= i < ts.len(),
        operand_node(ts[i]) is Some,
        can_advance(ts, f, i),
    ensures
        atom_spec(ts, f, i) == Parsing::Parsed(operand_node(ts[i]).unwrap(), i + 1),
{
}

proof fn lemma_plain_primary(ts: Seq<TokenView>, f: bool, i: int)
    requires
        0 <= i < ts.len(),
        operand_node(ts[i]) is Some,
        can_advance(ts, f, i),
        i + 1 >= ts.len() || !(ts[i + 1].kind == TokenType::LeftParen || ts[i + 1].kind
            == TokenType::Equal || ts[i + 1].kind == TokenType::Dot),
    ensures
        primary_spec(ts, f, i) == Parsing::Parsed(operand_node(ts[i]).unwrap(), i + 1),
{
    lemma_operand(ts, f, i);
}

/// A comparison of two plain operands reads as a comparison node whose left side is the first
/// operand, whose operator is the one its token stands for, and whose right side is the second
/// operand.
pub proof fn law_comparison_operands(ts: Seq<TokenView>, f: bool, i: int)
    requires
        0 <= i,
        i + 3 <= ts.len(),
        operand_node(ts[i]) is Some,
        is_comparison(ts[i + 1].kind),
        operand_node(ts[i + 2]) is Some,
        expression_ends_at(ts, i + 3),
        can_advance(ts, f, i + 2),
    ensures
        expression_spec(ts, f, i) == Parsing::Parsed(
            Node::Compare(
                Box::new(operand_node(ts[i]).unwrap()),
                token_operator(ts[i + 1].kind).unwrap(),
                Box::new(operand_node(ts[i + 2]).unwrap()),
            ),
            i + 3,
        ),
{
    lemma_plain_primary(ts, f, i);
    lemma_plain_primary(ts, f, i + 2);
    assert(sum_spec(ts, f, i) == Parsing::Parsed(operand_node(ts[i]).unwrap(), i + 1));
    assert(sum_spec(ts, f, i + 2) == Parsing::Parsed(operand_node(ts[i + 2]).unwrap(), i + 3));
}

/// Arithmetic groups from the left: three plain operands joined by `+` or `-` read as the
/// first two joined, then joined with the third, each by the operator its token stands for.
pub proof fn law_sum_groups_left(ts: Seq<TokenView>, f: bool, i: int)
    requires
        0 <= i,
        i + 5 <= ts.len(),
        operand_node(ts[i]) is Some,
        is_sum_operator(ts[i + 1].kind),
        operand_node(ts[i + 2]) is Some,
        is_sum_operator(ts[i + 3].kind),
        operand_node(ts[i + 4]) is Some,
        expression_ends_at(ts, i + 5),
        can_advance(ts, f, i + 4),
    ensures
        expression_spec(ts, f, i) == Parsing::Parsed(
            Node::BinOp(
                Box::new(
                    Node::BinOp(
                        Box::new(operand_node(ts[i]).unwrap()),
                        token_operator(ts[i + 1].kind).unwrap(),
                        Box::new(operand_node(ts[i + 2]).unwrap()),
                    ),
                ),
                token_operator(ts[i + 3].kind).unwrap(),
                Box::new(operand_node(ts[i + 4]).unwrap()),
            ),
            i + 5,
        ),
{
    lemma_plain_primary(ts, f, i);
    lemma_plain_primary(ts, f, i + 2);
    lemma_plain_primary(ts, f, i + 4);
    let x = operand_node(ts[i]).unwrap();
    let y = operand_node(ts[i + 2]).unwrap();
    let z = operand_node(ts[i + 4]).unwrap();
    let xy = Node::BinOp(Box::new(x), token_operator(ts[i + 1].kind).unwrap(), Box::new(y));
    let xyz = Node::BinOp(Box::new(xy), token_operator(ts[i + 3].kind).unwrap(), Box::new(z));
    assert(sum_rest_spec(ts, f, i + 5, xyz) == Parsing::Parsed(xyz, i + 5));
    assert(sum_rest_spec(ts, f, i + 3, xy) == Parsing::Parsed(xyz, i + 5));
    assert(sum_rest_spec(ts, f, i + 1, x) == Parsing::Parsed(xyz, i + 5));
    assert(sum_spec(ts, f, i) == Parsing::Parsed(xyz, i + 5));
}

/// The arguments of a call already read are kept, in order, ahead of those read from `i` on.
pub proof fn law_arguments_keep_earlier(ts: Seq<TokenView>, f: bool, i: int, acc: Seq<Node>)
    ensures
        arguments_spec(ts, f, i, acc) == after_prefix(acc, arguments_spec(ts, f, i, Seq::empty())),
    decreases ts.len() - i,
{
    if 0 <= i < ts.len() && ts[i].kind != TokenType::RightParen {
        match expression_spec(ts, f, i) {
            Parsing::Parsed(a, k) => {
                if i < k <= ts.len() {
                    assert(acc.push(a) =~= acc + Seq::empty().push(a));
                    if is_at(ts, k, TokenType::Comma) && can_advance(ts, f, k) {
                        law_arguments_keep_earlier(ts, f, k + 1, acc.push(a));
                        law_arguments_keep_earlier(ts, f, k + 1, Seq::empty().push(a));
                        match arguments_spec(ts, f, k + 1, Seq::empty()) {
                            Parsing::Parsed(v, m) => {
                                assert(acc.push(a) + v =~= acc + (Seq::empty().push(a) + v));
                            },
                            _ => {},
                        }
                    }
                }
            },
            _ => {},
        }
    } else {
        assert(acc + Seq::<Node>::empty() =~= acc);
    }
}

/// The parameters of a method already read are kept, in order, ahead of those read from `i`
/// on.
pub proof fn law_parameters_keep_earlier(ts: Seq<TokenView>, f: bool, i: int, acc: Seq<Node>)
    ensures
        parameters_spec(ts, f, i, acc) == after_prefix(acc, parameters_spec(ts, f, i, Seq::empty())),
    decreases ts.len() - i,
{
    if is_at(ts, i, TokenType::Identifier) && can_advance(ts, f, i) {
        let p = Node::Identifier(ts[i].value);
        assert(acc.push(p) =~= acc + Seq::empty().push(p));
        if is_at(ts, i + 1, TokenType::Comma) && can_advance(ts, f, i + 1) {
            law_parameters_keep_earlier(ts, f, i + 2, acc.push(p));
            law_parameters_keep_earlier(ts, f, i + 2, Seq::empty().push(p));
            match parameters_spec(ts, f, i + 2, Seq::empty()) {
                Parsing::Parsed(v, m) => {
                    assert(acc.push(p) + v =~= acc + (Seq::empty().push(p) + v));
                },
                _ => {},
            }
        }
    } else {
        assert(acc + Seq::<Node>::empty() =~= acc);
    }
}

/// The name of an import is the text of its tokens up to the end of the line, joined in
/// order: the text already read is kept ahead of the text read from `i` on.
pub proof fn law_import_name_keeps_earlier(ts: Seq<TokenView>, f: bool, i: int, acc: Seq<char>)
    ensures
        import_name_spec(ts, f, i, acc) == after_prefix(acc, import_name_spec(ts, f, i, Seq::empty())),
    decreases ts.len() - i,
{
    if 0 <= i < ts.len() && ts[i].kind != TokenType::Newline && can_advance(ts, f, i) {
        law_import_name_keeps_earlier(ts, f, i + 1, acc + ts[i].value);
        law_import_name_keeps_earlier(ts, f, i + 1, Seq::empty() + ts[i].value);
        match import_name_spec(ts, f, i + 1, Seq::empty()) {
            Parsing::Parsed(v, m) => {
                assert((acc + ts[i].value) + v =~= acc + ((Seq::empty() + ts[i].value) + v));
            },
            _ => {},
        }
    } else {
        assert(acc + Seq::<char>::empty() =~= acc);
    }
}

} // verus!
