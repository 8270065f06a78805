use kya::bytecode::{CodeObject, ComparisonOperator, Const, Operator};
use kya::compiler::Compiler;
use kya::errors::Error;
use kya::interpreter::Frame;
use kya::lexer::Lexer;
use kya::opcodes::{can_execute, execute, AttrName, Effect};
use kya::parser::Parser;
use std::sync::Arc;

fn code_of(bytes: &[u8], names: &[&str], consts: usize) -> Arc<CodeObject> {
    let mut code = CodeObject::new();
    for b in bytes {
        code.add_instruction(*b);
    }
    for n in names {
        code.add_name(n.to_string());
    }
    for i in 0..consts {
        code.add_const(Const::Number(i.to_string()));
    }
    Arc::new(code)
}

/// A frame whose next byte is the operand of `bytes[0]`, with `stack` on the stack.
fn frame_at(bytes: &[u8], names: &[&str], consts: usize, stack: Vec<i32>) -> Frame<i32> {
    let mut frame = Frame::new(code_of(bytes, names, consts));
    for v in stack {
        frame.push_stack(v);
    }
    let _ = frame.next_opcode();
    frame
}

fn underflow() -> Error {
    Error::RuntimeError("Attempted to pop from an empty stack".to_string())
}

#[test]
fn load_const_checks_the_index() {
    let mut frame = frame_at(&[0, 1], &[], 2, vec![]);
    assert!(matches!(execute(&mut frame, 0), Ok(Effect::PushConst(1))));
    assert_eq!(frame.pc, 2);
    let mut frame = frame_at(&[0, 2], &[], 2, vec![]);
    assert_eq!(
        execute(&mut frame, 0).err(),
        Some(Error::RuntimeError("Constant at index 2 not found".to_string()))
    );
    assert_eq!(frame.pc, 1);
}

#[test]
fn store_and_load_name() {
    let mut frame = frame_at(&[1, 0], &["x"], 0, vec![7]);
    match execute(&mut frame, 1) {
        Ok(Effect::StoreName(name, v)) => {
            assert_eq!(name, "x");
            assert_eq!(v, 7);
        }
        _ => panic!("expected a store"),
    }
    assert!(frame.stack.is_empty());
    let mut frame = frame_at(&[1, 0], &["x"], 0, vec![]);
    assert_eq!(execute(&mut frame, 1).err(), Some(underflow()));
    let mut frame = frame_at(&[2, 3], &["x"], 0, vec![]);
    assert_eq!(
        execute(&mut frame, 2).err(),
        Some(Error::RuntimeError("Name at index 3 not defined".to_string()))
    );
    let mut frame = frame_at(&[2, 0], &["x"], 0, vec![]);
    assert!(matches!(execute(&mut frame, 2), Ok(Effect::LoadName(n)) if n == "x"));
}

#[test]
fn call_keeps_the_order_of_the_arguments() {
    let mut frame = frame_at(&[3, 2], &[], 0, vec![5, 100, 1, 2]);
    match execute(&mut frame, 3) {
        Ok(Effect::Call(callable, args)) => {
            assert_eq!(callable, 100);
            assert_eq!(args, vec![1, 2]);
        }
        _ => panic!("expected a call"),
    }
    assert_eq!(frame.stack, vec![5]);
    assert_eq!(frame.pc, 2);
    let mut frame = frame_at(&[3, 2], &[], 0, vec![1, 2]);
    assert_eq!(execute(&mut frame, 3).err(), Some(underflow()));
    assert_eq!(frame.stack, vec![1, 2]);
}

#[test]
fn compare_and_binary_op_pop_right_then_left() {
    let mut frame = frame_at(&[7, 3], &[], 0, vec![1, 2]);
    assert!(matches!(execute(&mut frame, 7), Ok(Effect::Compare(1, 2, ComparisonOperator::Lt))));
    let mut frame = frame_at(&[7, 9], &[], 0, vec![1, 2]);
    assert_eq!(
        execute(&mut frame, 7).err(),
        Some(Error::RuntimeError("Invalid comparison operator: 9".to_string()))
    );
    let mut frame = frame_at(&[15, 1], &[], 0, vec![8, 3]);
    assert!(matches!(execute(&mut frame, 15), Ok(Effect::BinaryOp(8, 3, Operator::Minus))));
    let mut frame = frame_at(&[15, 2], &[], 0, vec![8, 3]);
    assert_eq!(
        execute(&mut frame, 15).err(),
        Some(Error::RuntimeError("Invalid binary operator: 2".to_string()))
    );
    let mut frame = frame_at(&[15], &[], 0, vec![8]);
    assert!(can_execute(&frame, 15));
    assert_eq!(execute(&mut frame, 15).err(), Some(underflow()));
}

#[test]
fn jumps_move_the_counter() {
    let mut frame = frame_at(&[4, 4, 8, 3], &[], 0, vec![]);
    frame.set_pc(3);
    assert!(can_execute(&frame, 8));
    assert!(matches!(execute(&mut frame, 8), Ok(Effect::Nothing)));
    assert_eq!(frame.pc, 1);
    let mut frame = frame_at(&[10, 0], &[], 0, vec![]);
    assert!(matches!(execute(&mut frame, 10), Ok(Effect::Nothing)));
    assert_eq!(frame.pc, 0);
    let mut frame = frame_at(&[9, 6], &[], 0, vec![0]);
    assert!(matches!(execute(&mut frame, 9), Ok(Effect::JumpIfFalse(0, 6))));
    assert_eq!(frame.pc, 2);
}

#[test]
fn instructions_that_would_stop_the_machine_are_recognised() {
    let frame = frame_at(&[0], &[], 1, vec![]);
    assert!(!can_execute(&frame, 0));
    assert!(!can_execute(&frame, 16));
    let frame = frame_at(&[8, 5], &[], 0, vec![]);
    assert!(!can_execute(&frame, 8));
    let frame = frame_at(&[4], &[], 0, vec![]);
    assert!(can_execute(&frame, 4));
}

#[test]
fn attribute_reads_and_writes() {
    let mut frame = frame_at(&[6, 0], &["name"], 0, vec![3]);
    assert!(matches!(execute(&mut frame, 6), Ok(Effect::LoadAttr(3, AttrName::Name(n))) if n == "name"));
    let mut frame = frame_at(&[6, 4], &["name"], 0, vec![3]);
    assert!(matches!(execute(&mut frame, 6), Ok(Effect::LoadAttr(3, AttrName::Unknown(4)))));
    let mut frame = frame_at(&[6], &["name"], 0, vec![3]);
    assert!(matches!(execute(&mut frame, 6), Ok(Effect::LoadAttr(3, AttrName::Missing))));
    let mut frame = frame_at(&[12, 0], &["name"], 0, vec![9, 3]);
    assert!(matches!(execute(&mut frame, 12), Ok(Effect::StoreAttr(3, 9, n)) if n == "name"));
    assert!(frame.stack.is_empty());
}

#[test]
fn return_raise_and_the_rest() {
    let mut frame = frame_at(&[13], &[], 0, vec![1, 2]);
    assert!(matches!(execute(&mut frame, 13), Ok(Effect::Nothing)));
    assert_eq!(frame.return_value, Some(2));
    assert_eq!(frame.stack, vec![1]);
    let mut frame = frame_at(&[14], &[], 0, vec![4]);
    assert!(matches!(execute(&mut frame, 14), Ok(Effect::Raise(4))));
    let mut frame = frame_at(&[4], &[], 0, vec![4]);
    assert!(matches!(execute(&mut frame, 4), Ok(Effect::Nothing)));
    assert!(frame.stack.is_empty());
    let mut frame = frame_at(&[5], &[], 0, vec![4]);
    assert!(matches!(execute(&mut frame, 5), Ok(Effect::MakeFunction(4))));
    let mut frame = frame_at(&[11], &[], 0, vec![4]);
    assert!(matches!(execute(&mut frame, 11), Ok(Effect::MakeClass(4))));
}

fn compiled(text: &str) -> CodeObject {
    let mut parser = Parser::new(Lexer::new(text.to_string()));
    let tree = parser.parse().unwrap();
    let mut compiler = Compiler::new(Arc::new(tree));
    compiler.compile().unwrap();
    compiler.get_output()
}

#[test]
fn the_jump_back_of_a_compiled_loop_returns_to_its_condition() {
    let prefix = compiled("x = 1\n").code.len();
    let code = compiled("x = 1\nwhile x < 3\nx = x + 1\nend\n");
    let n = code.code.len();
    assert_eq!(code.code[n - 2], 8);
    assert_eq!(code.code[prefix], 2);
    let mut frame: Frame<i32> = Frame::new(Arc::new(code));
    frame.set_pc(n - 1);
    assert!(can_execute(&frame, 8));
    assert!(matches!(execute(&mut frame, 8), Ok(Effect::Nothing)));
    assert_eq!(frame.pc, prefix);
}

#[test]
fn compiled_code_reads_as_instructions_that_run() {
    let programs = vec![
        "x = 1\nwhile x < 3\nx = x + 1\nif x == 2\nbreak\nend\nend\n",
        "def f(a, b)\nreturn a - b\nend\nprint(f(3, 1))\n",
        "class C\ndef g()\nreturn self\nend\nend\nc = C()\nc.y = 'a'\nprint(c.y)\n",
        "if 1 < 2\nprint('yes')\nend\n",
    ];
    for text in programs {
        let code = compiled(text);
        let bytes = code.code.clone();
        let shared = Arc::new(code);
        let mut i = 0;
        while i < bytes.len() {
            let op = bytes[i];
            assert!(op < 16, "opcode {} at {} in {:?}", op, i, text);
            let mut frame: Frame<i32> = Frame::new(shared.clone());
            frame.push_stack(1);
            frame.push_stack(2);
            frame.set_pc(i + 1);
            assert!(can_execute(&frame, op), "opcode {} at {} in {:?}", op, i, text);
            i += if [4, 5, 11, 13, 14].contains(&op) { 1 } else { 2 };
        }
        assert_eq!(i, bytes.len(), "{:?}", text);
    }
}
