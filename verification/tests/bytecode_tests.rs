use kya::ast;
use kya::bytecode::{CodeObject, ComparisonOperator, Const, Opcode, Operator};

fn code_with(bytes: Vec<u8>, names: Vec<&str>) -> CodeObject {
    let mut c = CodeObject::new();
    for b in bytes {
        c.add_instruction(b);
    }
    for n in names {
        c.add_name(n.to_string());
    }
    c
}

#[test]
fn test_disassemble_loop() {
    let mut c = code_with(vec![2, 0, 0, 0, 7, 0, 9, 13, 2, 0, 4, 8, 13], vec!["x"]);
    c.add_const(Const::Number("0".to_string()));
    assert_eq!(
        c.dis(),
        "0000: LOAD_NAME 0 (x)\n0002: LOAD_CONST 0\n0004: COMPARE EQUAL\n0006: JUMP_IF_FALSE 13\n0008: LOAD_NAME 0 (x)\n0010: POP_TOP\n0011: JUMP_BACK 13"
    );
}

#[test]
fn test_disassemble_other_instructions() {
    let c = code_with(vec![1, 0, 3, 2, 5, 6, 1, 10, 4, 11], vec!["a", "b"]);
    assert_eq!(
        c.dis(),
        "0000: STORE_NAME 0\n0002: CALL_FUNCTION 2\n0004: MAKE_FUNCTION\n0005: LOAD_ATTR 1 (b)\n0007: JUMP 4\n0009: MAKE_CLASS"
    );
}

#[test]
fn test_disassemble_gives_up() {
    // STORE_ATTR is not shown by the disassembler
    assert!(code_with(vec![12, 0], vec!["a"]).try_dis().is_none());
    // a name index past the names
    assert!(code_with(vec![2, 3], vec!["a"]).try_dis().is_none());
    // a missing operand
    assert!(code_with(vec![0], vec![]).try_dis().is_none());
    // an unknown comparison
    assert!(code_with(vec![7, 9], vec![]).try_dis().is_none());
    // the empty code is shown as nothing
    assert_eq!(code_with(vec![], vec![]).try_dis(), Some(String::new()));
}

#[test]
fn test_add_name_reuses_indices() {
    let mut c = CodeObject::new();
    assert_eq!(c.add_name("a".to_string()), 0);
    assert_eq!(c.add_name("b".to_string()), 1);
    assert_eq!(c.add_name("a".to_string()), 0);
    assert_eq!(c.names, vec!["a".to_string(), "b".to_string()]);
    assert_eq!(c.add_const(Const::Str("s".to_string())), 0);
    assert_eq!(c.add_const(Const::Str("s".to_string())), 1);
}

#[test]
fn test_set_and_read_instructions() {
    let mut c = code_with(vec![9, 0], vec![]);
    c.set_instruction_at(1, 7);
    assert_eq!(c.instruction_at(1), 7);
    assert_eq!(c.instructions_count(), 2);
}

#[test]
fn test_opcode_bytes_round_trip() {
    for b in 0u8..=255 {
        match Opcode::from_u8(b) {
            Some(op) => {
                assert!(b < 16);
                assert_eq!(op.to_u8(), b);
                assert_eq!(op as u8, b);
            }
            None => assert!(b >= 16),
        }
        match ComparisonOperator::from_u8(b) {
            Some(op) => assert_eq!(op.to_u8(), b),
            None => assert!(b >= 6),
        }
        match Operator::from_u8(b) {
            Some(op) => assert_eq!(op.to_u8(), b),
            None => assert!(b >= 2),
        }
    }
    assert_eq!(Opcode::from_u8(12), Some(Opcode::StoreAttr));
    assert_eq!(ComparisonOperator::from_u8(0), Some(ComparisonOperator::Equal));
    assert_eq!(ComparisonOperator::Lte.name(), "LESS_EQUAL");
}

#[test]
fn test_operators_of_the_tree() {
    assert_eq!(ComparisonOperator::from_ast_operator(ast::Operator::Neq), Some(ComparisonOperator::Neq));
    assert_eq!(ComparisonOperator::from_ast_operator(ast::Operator::Plus), None);
    assert_eq!(Operator::from_ast_operator(ast::Operator::Minus), Some(Operator::Minus));
    assert_eq!(Operator::from_ast_operator(ast::Operator::Gt), None);
}

#[test]
fn test_copy_keeps_everything() {
    let mut inner = code_with(vec![2, 0, 13], vec!["x"]);
    inner.args.push("x".to_string());
    inner.name = "f".to_string();
    let mut outer = CodeObject::new();
    outer.add_const(Const::Code(Box::new(inner)));
    outer.add_instruction(0);
    outer.add_instruction(0);
    let copy = outer.copy();
    assert_eq!(copy, outer);
}
