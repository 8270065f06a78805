use kya::ast::{
    ASTNode, Assignment, Attribute, BinOp, Block, ClassDef, Compare, Identifier, If, Import,
    MethodCall, MethodDef, Module, Operator, Raise, Return, UnaryOp, While,
};
use kya::errors::Error;
use kya::lexer::{Lexer, TokenType};
use kya::parser::{Parser, Step};

fn parse(text: &str) -> Result<ASTNode, Error> {
    let mut parser = Parser::new(Lexer::new(text.to_string()));
    parser.try_parse().expect("the lexer fails on text the parser reaches")
}

fn module(statements: Vec<Box<ASTNode>>) -> ASTNode {
    ASTNode::Module(Module::new(Box::new(ASTNode::Block(Block::new(statements)))))
}

fn ident(name: &str) -> Box<ASTNode> {
    Box::new(ASTNode::Identifier(Identifier::new(name.to_string())))
}

fn number(text: &str) -> Box<ASTNode> {
    Box::new(ASTNode::NumberLiteral(text.to_string()))
}

fn block(statements: Vec<Box<ASTNode>>) -> Box<ASTNode> {
    Box::new(ASTNode::Block(Block::new(statements)))
}

#[test]
fn test_parse_return_statement() {
    let input = "return 42\n";
    let lexer = Lexer::new(input.to_string());
    let mut parser = Parser::new(lexer);

    let ast = parser.parse().unwrap();

    let expected_ast = module(vec![Box::new(ASTNode::Return(Return { value: Some(number("42")) }))]);

    assert_eq!(ast, expected_ast);
    if let ASTNode::Module(m) = &ast {
        if let ASTNode::Block(b) = &*m.block {
            if let ASTNode::Return(r) = &*b.statements[0] {
                if let Some(v) = &r.value {
                    if let ASTNode::NumberLiteral(text) = &**v {
                        assert_eq!(text.parse::<f64>().unwrap(), 42.0);
                        return;
                    }
                }
            }
        }
    }
    panic!("unexpected tree");
}

#[test]
fn test_parse_assignment_of_a_sum() {
    let ast = parse("x = 1 + 2 - 3\n").unwrap();
    let sum = Box::new(ASTNode::BinOp(BinOp {
        left: Box::new(ASTNode::BinOp(BinOp { left: number("1"), operator: Operator::Plus, right: number("2") })),
        operator: Operator::Minus,
        right: number("3"),
    }));
    let expected = module(vec![Box::new(ASTNode::Assignment(Assignment::new(ident("x"), sum)))]);
    assert_eq!(ast, expected);
}

#[test]
fn test_parse_comparisons_group_from_the_left() {
    let ast = parse("a == b > c").unwrap();
    let inner = Box::new(ASTNode::Compare(Compare { left: ident("a"), operator: Operator::Equal, right: ident("b") }));
    let expected = module(vec![Box::new(ASTNode::Compare(Compare { left: inner, operator: Operator::Gt, right: ident("c") }))]);
    assert_eq!(ast, expected);
}

#[test]
fn test_parse_method_def_with_parameters() {
    let ast = parse("def f(a, b)\nreturn a\nend\n").unwrap();
    let body = block(vec![Box::new(ASTNode::Return(Return { value: Some(ident("a")) }))]);
    let expected = module(vec![Box::new(ASTNode::MethodDef(MethodDef::new(
        "f".to_string(),
        vec![ident("a"), ident("b")],
        body,
    )))]);
    assert_eq!(ast, expected);
}

#[test]
fn test_parse_class_if_while_import() {
    let ast = parse("class A\nend\nif x\ny\nend\nwhile z\nbreak\nend\nimport a.b\n").unwrap();
    let expected = module(vec![
        Box::new(ASTNode::ClassDef(ClassDef::new("A".to_string(), block(vec![])))),
        Box::new(ASTNode::If(If::new(ident("x"), block(vec![ident("y")])))),
        Box::new(ASTNode::While(While::new(ident("z"), block(vec![Box::new(ASTNode::Break())])))),
        Box::new(ASTNode::Import(Import::new("a.b".to_string()))),
    ]);
    assert_eq!(ast, expected);
}

#[test]
fn test_parse_call_attribute_unary_raise() {
    let ast = parse("f(1, 'a').g = -x\nraise\n").unwrap();
    let call = Box::new(ASTNode::MethodCall(MethodCall::new(
        ident("f"),
        vec![number("1"), Box::new(ASTNode::StringLiteral("a".to_string()))],
    )));
    let target = Box::new(ASTNode::Attribute(Attribute::new(call, "g".to_string())));
    let value = Box::new(ASTNode::UnaryOp(UnaryOp { operator: TokenType::Minus, operand: ident("x") }));
    let expected = module(vec![
        Box::new(ASTNode::Assignment(Assignment::new(target, value))),
        Box::new(ASTNode::Raise(Raise { message: None })),
    ]);
    assert_eq!(ast, expected);
}

#[test]
fn test_parse_error_unexpected_token() {
    match parse("end\n") {
        Err(Error::ParserError(m)) => assert_eq!(m, "Unexpected token end at line 1, column 1"),
        other => panic!("unexpected {:?}", other),
    }
}

#[test]
fn test_parse_error_expected_token() {
    match parse("def 1\n") {
        Err(Error::ParserError(m)) => assert_eq!(m, "Expected token \"1\" at line 1, column 5"),
        other => panic!("unexpected {:?}", other),
    }
}

#[test]
fn test_parse_error_missing_token() {
    match parse("def") {
        Err(Error::ParserError(m)) => assert_eq!(m, "Unexpected token"),
        other => panic!("unexpected {:?}", other),
    }
}

#[test]
fn test_parse_gives_up_where_the_lexer_fails_on_reached_text() {
    let mut parser = Parser::new(Lexer::new("\n".to_string()));
    assert!(parser.try_parse().is_none());
    let mut parser = Parser::new(Lexer::new("x @".to_string()));
    assert!(parser.try_parse().is_none());
}

#[test]
fn test_parse_lexer_error_after_a_parse_error_is_not_reached() {
    match parse("end @") {
        Err(Error::ParserError(m)) => assert_eq!(m, "Unexpected token end at line 1, column 1"),
        other => panic!("unexpected {:?}", other),
    }
}

#[test]
fn test_parse_while_before_parse_gives_up() {
    let mut parser = Parser::new(Lexer::new("x\n".to_string()));
    assert!(matches!(parser.parse_while(), Step::Aborted));
}

#[test]
fn test_parse_empty_program() {
    assert_eq!(parse("").unwrap(), module(vec![]));
}

#[test]
fn parsing_stops_where_the_tokens_end_inside_a_statement() {
    let mut parser = Parser::new(Lexer::new("\n\n".to_string()));
    assert!(parser.try_parse().is_none());
}
