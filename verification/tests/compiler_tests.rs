use kya::ast::{self, ASTNode, Block, Identifier};
use kya::bytecode::{ComparisonOperator, Const, Opcode, Operator};
use kya::compiler::Compiler;
use kya::errors::Error;
use kya::lexer::Lexer;
use kya::parser::Parser;
use std::sync::Arc;

fn compile_text(text: &str) -> (Result<(), Error>, Vec<u8>) {
    let mut parser = Parser::new(Lexer::new(text.to_string()));
    let tree = parser.parse().unwrap();
    let mut compiler = Compiler::new(Arc::new(tree));
    let r = compiler.try_compile().expect("no overflow");
    (r, compiler.get_output().code)
}

#[test]
fn test_compile_while() {
    let condition = ASTNode::Compare(ast::Compare {
        left: Box::new(ASTNode::Identifier(ast::Identifier::new("x".to_string()))),
        operator: ast::Operator::Equal,
        right: Box::new(ASTNode::NumberLiteral("0".to_string())),
    });

    let body = ASTNode::Block(ast::Block::new(vec![Box::new(ASTNode::Identifier(
        ast::Identifier::new("x".to_string()),
    ))]));

    let while_node = ASTNode::While(ast::While {
        condition: Box::new(condition),
        body: Box::new(body),
    });

    let mut compiler = Compiler::new(Arc::new(while_node));
    let _ = compiler.compile();

    let code_object = compiler.get_output();

    let expected_output = vec![
        Opcode::LoadName as u8,
        0,
        Opcode::LoadConst as u8,
        0,
        Opcode::Compare as u8,
        ComparisonOperator::Equal as u8,
        Opcode::PopAndJumpIfFalse as u8,
        13,
        Opcode::LoadName as u8,
        0,
        Opcode::PopTop as u8,
        Opcode::JumpBack as u8,
        13,
    ];

    assert_eq!(expected_output, code_object.code);
}

#[test]
fn test_compile_with_break() {
    let condition = ASTNode::Compare(ast::Compare {
        left: Box::new(ASTNode::Identifier(ast::Identifier::new("x".to_string()))),
        operator: ast::Operator::Equal,
        right: Box::new(ASTNode::NumberLiteral("0".to_string())),
    });

    let body = ASTNode::Block(ast::Block::new(vec![
        Box::new(ASTNode::Identifier(ast::Identifier::new("x".to_string()))),
        Box::new(ASTNode::Break()),
    ]));

    let while_node = ASTNode::While(ast::While {
        condition: Box::new(condition),
        body: Box::new(body),
    });

    let mut compiler = Compiler::new(Arc::new(while_node));
    let _ = compiler.compile();

    let code_object = compiler.get_output();

    let expected_output = vec![
        Opcode::LoadName as u8,
        0,
        Opcode::LoadConst as u8,
        0,
        Opcode::Compare as u8,
        ComparisonOperator::Equal as u8,
        Opcode::PopAndJumpIfFalse as u8,
        15,
        Opcode::LoadName as u8,
        0,
        Opcode::PopTop as u8,
        Opcode::Jump as u8,
        15,
        Opcode::JumpBack as u8,
        15,
    ];

    assert_eq!(expected_output, code_object.code);
}

#[test]
fn test_if() {
    let condition = ASTNode::Compare(ast::Compare {
        left: Box::new(ASTNode::Identifier(ast::Identifier::new("x".to_string()))),
        operator: ast::Operator::Equal,
        right: Box::new(ASTNode::NumberLiteral("0".to_string())),
    });

    let body = ASTNode::Block(ast::Block::new(vec![Box::new(ASTNode::Identifier(
        ast::Identifier::new("x".to_string()),
    ))]));

    let if_node = ASTNode::If(ast::If {
        test: Box::new(condition),
        body: Box::new(body),
    });

    let mut compiler = Compiler::new(Arc::new(if_node));
    let _ = compiler.compile();

    let code_object = compiler.get_output();

    let expected_output = vec![
        Opcode::LoadName as u8,
        0,
        Opcode::LoadConst as u8,
        0,
        Opcode::Compare as u8,
        ComparisonOperator::Equal as u8,
        Opcode::PopAndJumpIfFalse as u8,
        11,
        Opcode::LoadName as u8,
        0,
        Opcode::PopTop as u8,
    ];

    assert_eq!(expected_output, code_object.code);
}

#[test]
fn test_compile_class() {
    let class_def = ASTNode::ClassDef(ast::ClassDef {
        name: "MyClass".to_string(),
        body: Box::new(ASTNode::Block(ast::Block::new(vec![]))),
    });

    let mut compiler = Compiler::new(Arc::new(class_def));
    let _ = compiler.compile();

    let code_object = compiler.get_output();

    let expected_output = vec![
        Opcode::LoadConst as u8,
        0,
        Opcode::MakeClass as u8,
    ];

    assert_eq!(expected_output, code_object.code);
    match &code_object.consts[0] {
        Const::Code(c) => assert_eq!(c.name, "MyClass"),
        _ => panic!("Expected CodeObject"),
    }
}

#[test]
fn test_compile_return() {
    let return_node = ASTNode::MethodDef(ast::MethodDef {
        name: "my_method".to_string(),
        parameters: vec![Box::new(ASTNode::Identifier(ast::Identifier::new(
            "x".to_string(),
        )))],
        body: Box::new(ASTNode::Block(ast::Block::new(vec![Box::new(
            ASTNode::Return(ast::Return {
                value: Some(Box::new(ASTNode::Identifier(ast::Identifier::new(
                    "x".to_string(),
                )))),
            }),
        )]))),
    });

    let mut compiler = Compiler::new(Arc::new(return_node));
    let _ = compiler.compile();

    let code_object = compiler.get_output();
    let function_code_object = match &code_object.consts[0] {
        Const::Code(code_object) => code_object,
        _ => panic!("Expected CodeObject"),
    };

    let expected_output = vec![
        Opcode::LoadName as u8,
        0,
        Opcode::Return as u8,
    ];

    assert_eq!(expected_output, function_code_object.code);
    assert_eq!(function_code_object.name, "my_method");
    assert_eq!(function_code_object.args, vec!["x".to_string()]);
}

#[test]
fn test_compile_bin_op() {
    let bin_op = ASTNode::BinOp(ast::BinOp {
        left: Box::new(ASTNode::NumberLiteral("5".to_string())),
        operator: ast::Operator::Plus,
        right: Box::new(ASTNode::NumberLiteral("3".to_string())),
    });

    let mut compiler = Compiler::new(Arc::new(bin_op));
    let _ = compiler.compile();

    let code_object = compiler.get_output();

    let expected_output = vec![
        Opcode::LoadConst as u8,
        0,
        Opcode::LoadConst as u8,
        1,
        Opcode::BinaryOp as u8,
        Operator::Plus as u8,
    ];

    assert_eq!(expected_output, code_object.code);
}

#[test]
fn test_compile_assignment_and_names_are_shared() {
    let (r, code) = compile_text("x = 1\nx\n");
    assert!(r.is_ok());
    assert_eq!(code, vec![0, 0, 1, 0, 2, 0, 4, 2, 0, 4]);
}

#[test]
fn test_compile_method_call() {
    let (r, code) = compile_text("print('a', b)\n");
    assert!(r.is_ok());
    assert_eq!(code, vec![2, 0, 0, 0, 2, 1, 3, 2, 4]);
}

#[test]
fn test_compile_attribute_store_and_load() {
    let (r, code) = compile_text("a.b = c.d\n");
    assert!(r.is_ok());
    // value c.d, then a, then STORE_ATTR b, then the statement's value is popped
    assert_eq!(code, vec![2, 0, 6, 1, 2, 2, 12, 3, 4]);
}

#[test]
fn test_compile_break_outside_loop() {
    let (r, _) = compile_text("break\n");
    match r {
        Err(Error::SyntaxError(m)) => assert_eq!(m, "Break statement outside of loop"),
        other => panic!("unexpected {:?}", other),
    }
}

#[test]
fn test_compile_return_outside_function() {
    let (r, _) = compile_text("return 1\n");
    match r {
        Err(Error::SyntaxError(m)) => assert_eq!(m, "Return statement outside of function"),
        other => panic!("unexpected {:?}", other),
    }
}

#[test]
fn test_compile_assignment_to_a_number() {
    let (r, code) = compile_text("1 = 2\n");
    match r {
        Err(Error::CompilationError(m)) => assert_eq!(m, "Assignment name must be an identifier"),
        other => panic!("unexpected {:?}", other),
    }
    assert_eq!(code, vec![0, 0]);
}

#[test]
fn test_compile_bad_parameters_and_operators() {
    let def = ASTNode::MethodDef(ast::MethodDef {
        name: "m".to_string(),
        parameters: vec![Box::new(ASTNode::NumberLiteral("1".to_string()))],
        body: Box::new(ASTNode::Block(Block::new(vec![]))),
    });
    let mut compiler = Compiler::new(Arc::new(def));
    match compiler.compile() {
        Err(Error::CompilationError(m)) => assert_eq!(m, "Method parameters must be identifiers"),
        other => panic!("unexpected {:?}", other),
    }
    let cmp = ASTNode::Compare(ast::Compare {
        left: Box::new(ASTNode::Identifier(Identifier::new("a".to_string()))),
        operator: ast::Operator::Plus,
        right: Box::new(ASTNode::Identifier(Identifier::new("b".to_string()))),
    });
    let mut compiler = Compiler::new(Arc::new(cmp));
    match compiler.compile() {
        Err(Error::CompilationError(m)) => assert_eq!(m, "Comparison operator is missing"),
        other => panic!("unexpected {:?}", other),
    }
    let bin = ASTNode::BinOp(ast::BinOp {
        left: Box::new(ASTNode::Identifier(Identifier::new("a".to_string()))),
        operator: ast::Operator::Lt,
        right: Box::new(ASTNode::Identifier(Identifier::new("b".to_string()))),
    });
    let mut compiler = Compiler::new(Arc::new(bin));
    match compiler.compile() {
        Err(Error::CompilationError(m)) => assert_eq!(m, "Binary operator is missing"),
        other => panic!("unexpected {:?}", other),
    }
}

#[test]
fn test_compile_return_without_value_loads_none() {
    let (r, code) = compile_text("def f\nreturn\nend\n");
    assert!(r.is_ok());
    assert_eq!(code, vec![0, 0, 5]);
}

#[test]
fn test_compile_if_overflow_gives_up() {
    // A condition whose code fills 254 bytes puts the jump operand at the 256th byte.
    let mut args = Vec::new();
    for _ in 0..125 {
        args.push(Box::new(ASTNode::Identifier(Identifier::new("a".to_string()))));
    }
    let call = ASTNode::MethodCall(ast::MethodCall::new(
        Box::new(ASTNode::Identifier(Identifier::new("f".to_string()))),
        args,
    ));
    let node = ASTNode::If(ast::If::new(Box::new(call), Box::new(ASTNode::Block(Block::new(vec![])))));
    let mut compiler = Compiler::new(Arc::new(node));
    assert!(compiler.try_compile().is_none());
}

#[test]
fn test_node_compile_into_compiler() {
    let mut compiler = Compiler::new(Arc::new(ASTNode::Block(Block::new(vec![]))));
    let node = ASTNode::Identifier(Identifier::new("y".to_string()));
    assert!(node.compile(&mut compiler).is_ok());
    assert!(node.compile(&mut compiler).is_ok());
    let out = compiler.get_output();
    assert_eq!(out.code, vec![2, 0, 2, 0]);
    assert_eq!(out.names, vec!["y".to_string()]);
}
