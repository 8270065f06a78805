use vstd::prelude::*;

use crate::ast::Node;
use crate::bytecode::{
    comparison_byte, comparison_holds, operator_byte, operator_result, ComparisonOperator, Operator,
};
use crate::decoding::{decodes_from, instruction_len, lemma_start_is_instruction, starts_from};
use crate::compiler::{compile_spec, enter_scope_spec, jumps_ok, law_while_jumps, CompileState, ScopeType};
use crate::errors::{Error, ErrorView};
use crate::interpreter::{empty_stack_error, Frame, FrameView};
use crate::text::{decimal, push_decimal, push_str};

verus! {

/// How the name operand of an attribute read came out: past the end of the code, an index
/// with no name, or a name.
pub enum AttrName {
    Missing,
    Unknown(u8),
    Name(String),
}

/// The mathematical value of an [`AttrName`].
pub enum AttrNameView {
    Missing,
    Unknown(u8),
    Name(Seq<char>),
}

impl View for AttrName {
    type V = AttrNameView;

    open spec fn view(&self) -> AttrNameView {
        match self {
            AttrName::Missing => AttrNameView::Missing,
            AttrName::Unknown(i) => AttrNameView::Unknown(*i),
            AttrName::Name(s) => AttrNameView::Name(s@),
        }
    }
}

/// The work that an instruction leaves to the runtime, which holds the objects and the names.
pub enum Effect<T> {
    /// Nothing is left to do.
    Nothing,
    /// Push the object of the constant at this index.
    PushConst(usize),
    /// Bind the name to the value among the frame's locals.
    StoreName(String, T),
    /// Push what the name resolves to.
    LoadName(String),
    /// Call the callable with the arguments, in order, and push the result.
    Call(T, Vec<T>),
    /// Make a function of the code object and bind it under its name.
    MakeFunction(T),
    /// Check that the object has attributes, then push the named one.
    LoadAttr(T, AttrName),
    /// Push the comparison of the left value with the right one.
    Compare(T, T, ComparisonOperator),
    /// Move to the target where the value counts as false.
    JumpIfFalse(T, usize),
    /// Run the class body of the code object and bind the class under its name.
    MakeClass(T),
    /// Set the attribute of the object (first) to the value (second), then push the value.
    StoreAttr(T, T, String),
    /// Raise the value, which must be an exception.
    Raise(T),
    /// Push the result of the operator on the left and the right value.
    BinaryOp(T, T, Operator),
}

/// The mathematical value of an [`Effect`].
pub enum EffectView<T> {
    Nothing,
    PushConst(usize),
    StoreName(Seq<char>, T),
    LoadName(Seq<char>),
    Call(T, Seq<T>),
    MakeFunction(T),
    LoadAttr(T, AttrNameView),
    Compare(T, T, ComparisonOperator),
    JumpIfFalse(T, usize),
    MakeClass(T),
    StoreAttr(T, T, Seq<char>),
    Raise(T),
    BinaryOp(T, T, Operator),
}

impl<T> View for Effect<T> {
    type V = EffectView<T>;

    open spec fn view(&self) -> EffectView<T> {
        match self {
            Effect::Nothing => EffectView::Nothing,
            Effect::PushConst(i) => EffectView::PushConst(*i),
            Effect::StoreName(s, v) => EffectView::StoreName(s@, *v),
            Effect::LoadName(s) => EffectView::LoadName(s@),
            Effect::Call(c, args) => EffectView::Call(*c, args@),
            Effect::MakeFunction(v) => EffectView::MakeFunction(*v),
            Effect::LoadAttr(v, a) => EffectView::LoadAttr(*v, a@),
            Effect::Compare(l, r, op) => EffectView::Compare(*l, *r, *op),
            Effect::JumpIfFalse(v, t) => EffectView::JumpIfFalse(*v, *t),
            Effect::MakeClass(v) => EffectView::MakeClass(*v),
            Effect::StoreAttr(o, v, s) => EffectView::StoreAttr(*o, *v, s@),
            Effect::Raise(v) => EffectView::Raise(*v),
            Effect::BinaryOp(l, r, op) => EffectView::BinaryOp(*l, *r, *op),
        }
    }
}

/// The byte after the opcode.
pub open spec fn operand<T>(f: FrameView<T>) -> u8 {
    f.code.code[f.pc]
}

/// The frame after reading the operand, with a new stack.
pub open spec fn advanced<T>(f: FrameView<T>, stack: Seq<T>) -> FrameView<T> {
    FrameView { pc: f.pc + 1, stack: stack, ..f }
}

/// The frame with a new stack.
pub open spec fn restacked<T>(f: FrameView<T>, stack: Seq<T>) -> FrameView<T> {
    FrameView { stack: stack, ..f }
}

/// The error of a name index with no name.
pub open spec fn name_error(i: u8) -> ErrorView {
    ErrorView::RuntimeError("Name at index "@ + decimal(i as nat) + " not defined"@)
}

/// The error of a constant index with no constant.
pub open spec fn const_error(i: u8) -> ErrorView {
    ErrorView::RuntimeError("Constant at index "@ + decimal(i as nat) + " not found"@)
}

/// The error of a byte that is no comparison.
pub open spec fn comparison_error(b: u8) -> ErrorView {
    ErrorView::RuntimeError("Invalid comparison operator: "@ + decimal(b as nat))
}

/// The error of a byte that is no binary operator.
pub open spec fn operator_error(b: u8) -> ErrorView {
    ErrorView::RuntimeError("Invalid binary operator: "@ + decimal(b as nat))
}

/// The comparison of a byte below 6.
pub open spec fn comparison_of(b: u8) -> ComparisonOperator {
    if b == 0 {
        ComparisonOperator::Equal
    } else if b == 1 {
        ComparisonOperator::Neq
    } else if b == 2 {
        ComparisonOperator::Gt
    } else if b == 3 {
        ComparisonOperator::Lt
    } else if b == 4 {
        ComparisonOperator::Gte
    } else {
        ComparisonOperator::Lte
    }
}

/// The binary operator of a byte below 2.
pub open spec fn operator_of(b: u8) -> Operator {
    if b == 0 {
        Operator::Plus
    } else {
        Operator::Minus
    }
}

/// What an instruction does to a frame, whose opcode has just been read: the frame after it and
/// the work left to the runtime, or the error it stops with.
pub open spec fn step_spec<T>(f: FrameView<T>, opcode: u8) -> Result<(FrameView<T>, EffectView<T>), ErrorView> {
    let s = f.stack;
    let n = s.len();
    let b = operand(f);
    let names = f.code.names;
    if opcode == 0 {
        if (b as int) < f.code.consts.len() {
            Ok((advanced(f, s), EffectView::PushConst(b as usize)))
        } else {
            Err(const_error(b))
        }
    } else if opcode == 1 {
        if (b as int) >= names.len() {
            Err(name_error(b))
        } else if n == 0 {
            Err(empty_stack_error())
        } else {
            Ok((advanced(f, s.drop_last()), EffectView::StoreName(names[b as int], s.last())))
        }
    } else if opcode == 2 {
        if (b as int) >= names.len() {
            Err(name_error(b))
        } else {
            Ok((advanced(f, s), EffectView::LoadName(names[b as int])))
        }
    } else if opcode == 3 {
        if n < b + 1 {
            Err(empty_stack_error())
        } else {
            Ok((advanced(f, s.take(n - b - 1)), EffectView::Call(s[n - b - 1], s.subrange(n - b, n as int))))
        }
    } else if opcode == 8 {
        Ok((FrameView { pc: f.pc + 1 - b, ..f }, EffectView::Nothing))
    } else if opcode == 10 {
        Ok((FrameView { pc: b as int, ..f }, EffectView::Nothing))
    } else if n == 0 {
        Err(empty_stack_error())
    } else if opcode == 4 {
        Ok((restacked(f, s.drop_last()), EffectView::Nothing))
    } else if opcode == 5 {
        Ok((restacked(f, s.drop_last()), EffectView::MakeFunction(s.last())))
    } else if opcode == 6 {
        if f.pc >= f.code.code.len() {
            Ok((restacked(f, s.drop_last()), EffectView::LoadAttr(s.last(), AttrNameView::Missing)))
        } else if (b as int) < names.len() {
            Ok((advanced(f, s.drop_last()), EffectView::LoadAttr(s.last(), AttrNameView::Name(names[b as int]))))
        } else {
            Ok((advanced(f, s.drop_last()), EffectView::LoadAttr(s.last(), AttrNameView::Unknown(b))))
        }
    } else if opcode == 9 {
        Ok((advanced(f, s.drop_last()), EffectView::JumpIfFalse(s.last(), b as usize)))
    } else if opcode == 11 {
        Ok((restacked(f, s.drop_last()), EffectView::MakeClass(s.last())))
    } else if opcode == 13 {
        Ok((FrameView { stack: s.drop_last(), return_value: Some(s.last()), ..f }, EffectView::Nothing))
    } else if opcode == 14 {
        Ok((restacked(f, s.drop_last()), EffectView::Raise(s.last())))
    } else if n < 2 {
        Err(empty_stack_error())
    } else if opcode == 7 {
        if b >= 6 {
            Err(comparison_error(b))
        } else {
            Ok((advanced(f, s.take(n - 2)), EffectView::Compare(s[n - 2], s[n - 1], comparison_of(b))))
        }
    } else if opcode == 12 {
        if (b as int) >= names.len() {
            Err(name_error(b))
        } else {
            Ok((advanced(f, s.take(n - 2)), EffectView::StoreAttr(s[n - 1], s[n - 2], names[b as int])))
        }
    } else {
        if b >= 2 {
            Err(operator_error(b))
        } else {
            Ok((advanced(f, s.take(n - 2)), EffectView::BinaryOp(s[n - 2], s[n - 1], operator_of(b))))
        }
    }
}

/// The instruction runs without stopping the machine: its opcode is one of the sixteen, the
/// operand it reads is inside the code, and a jump back does not go before the start.
pub open spec fn runs<T>(f: FrameView<T>, opcode: u8) -> bool {
    let n = f.stack.len();
    let has_operand = 0 <= f.pc < f.code.code.len();
    &&& opcode < 16
    &&& (opcode == 0 || opcode == 1 || opcode == 2 || opcode == 3 || opcode == 10) ==> has_operand
    &&& opcode == 8 ==> has_operand && operand(f) <= f.pc + 1
    &&& (opcode == 7 || opcode == 12 || opcode == 15) && n >= 2 ==> has_operand
    &&& opcode == 9 && n >= 1 ==> has_operand
}

/// `r` is what the instruction gives, and `after` the frame it leaves; an error leaves the
/// frame as it was.
pub open spec fn stepped<T>(before: FrameView<T>, after: FrameView<T>, opcode: u8, r: Result<Effect<T>, Error>) -> bool {
    match step_spec(before, opcode) {
        Ok((f, e)) => r matches Ok(eff) && eff@ == e && after == f,
        Err(ev) => r matches Err(err) && err@ == ev && after == before,
    }
}

/// Whether the instruction with this opcode runs on the frame without stopping the machine.
pub fn can_execute<T>(frame: &Frame<T>, opcode: u8) -> (b: bool)
    ensures
        b == runs(frame@, opcode),
{
    let n = frame.stack.len();
    let len = frame.code.instructions_count();
    let has_operand = frame.pc < len;
    if opcode >= 16 {
        return false;
    }
    if opcode == 0 || opcode == 1 || opcode == 2 || opcode == 3 || opcode == 10 {
        return has_operand;
    }
    if opcode == 8 {
        return has_operand && (frame.code.instruction_at(frame.pc) as usize) <= frame.pc + 1;
    }
    if opcode == 7 || opcode == 12 || opcode == 15 {
        return n < 2 || has_operand;
    }
    if opcode == 9 {
        return n < 1 || has_operand;
    }
    true
}

fn stack_error() -> (e: Error)
    ensures
        e@ == empty_stack_error(),
{
    let mut message = String::new();
    push_str(&mut message, "Attempted to pop from an empty stack");
    Error::RuntimeError(message)
}

fn index_error(start: &str, i: u8, end: &str) -> (e: Error)
    ensures
        e@ == ErrorView::RuntimeError(start@ + decimal(i as nat) + end@),
{
    let mut message = String::new();
    push_str(&mut message, start);
    push_decimal(&mut message, i as usize);
    push_str(&mut message, end);
    Error::RuntimeError(message)
}

/// The byte after the opcode, without moving.
fn peek_operand<T>(frame: &Frame<T>) -> (b: u8)
    requires
        frame.pc < frame@.code.code.len(),
    ensures
        b == operand(frame@),
{
    frame.code.instruction_at(frame.pc)
}

/// Moves past the operand.
fn skip_operand<T>(frame: &mut Frame<T>)
    requires
        old(frame).pc < old(frame)@.code.code.len(),
    ensures
        final(frame)@ == (FrameView { pc: old(frame)@.pc + 1, ..old(frame)@ }),
{
    let _ = frame.next_opcode();
}

/// Pops the top value of a frame whose stack is not empty.
fn pop_top<T>(frame: &mut Frame<T>) -> (v: T)
    requires
        old(frame)@.stack.len() > 0,
    ensures
        v == old(frame)@.stack.last(),
        final(frame)@ == restacked(old(frame)@, old(frame)@.stack.drop_last()),
{
    let last = frame.stack.len() - 1;
    let v = frame.stack.remove(last);
    assert(frame.stack@ =~= old(frame)@.stack.drop_last());
    v
}

/// `LoadConst`: checks the constant's index; the runtime pushes its object.
pub fn op_load_const<T>(frame: &mut Frame<T>) -> (r: Result<Effect<T>, Error>)
    requires
        runs(old(frame)@, 0),
    ensures
        stepped(old(frame)@, final(frame)@, 0, r),
{
    let index = peek_operand(frame);
    match frame.get_const(index as usize) {
        Some(_) => {
            skip_operand(frame);
            Ok(Effect::PushConst(index as usize))
        },
        None => Err(index_error("Constant at index ", index, " not found")),
    }
}

/// `StoreName`: pops the value to bind under the operand's name.
pub fn op_store_name<T>(frame: &mut Frame<T>) -> (r: Result<Effect<T>, Error>)
    requires
        runs(old(frame)@, 1),
    ensures
        stepped(old(frame)@, final(frame)@, 1, r),
{
    let index = peek_operand(frame);
    match frame.get_name(index as usize) {
        Some(name) => {
            if frame.stack.len() == 0 {
                return Err(stack_error());
            }
            skip_operand(frame);
            let value = pop_top(frame);
            Ok(Effect::StoreName(name, value))
        },
        None => Err(index_error("Name at index ", index, " not defined")),
    }
}

/// `LoadName`: the operand's name, for the runtime to resolve and push.
pub fn op_load_name<T>(frame: &mut Frame<T>) -> (r: Result<Effect<T>, Error>)
    requires
        runs(old(frame)@, 2),
    ensures
        stepped(old(frame)@, final(frame)@, 2, r),
{
    let index = peek_operand(frame);
    match frame.get_name(index as usize) {
        Some(name) => {
            skip_operand(frame);
            Ok(Effect::LoadName(name))
        },
        None => Err(index_error("Name at index ", index, " not defined")),
    }
}

/// `Call`: pops as many arguments as the operand says, then the callable; the arguments keep
/// the order in which they were pushed.
pub fn op_call<T>(frame: &mut Frame<T>) -> (r: Result<Effect<T>, Error>)
    requires
        runs(old(frame)@, 3),
    ensures
        stepped(old(frame)@, final(frame)@, 3, r),
{
    let count = peek_operand(frame) as usize;
    let n = frame.stack.len();
    if n < count + 1 {
        return Err(stack_error());
    }
    skip_operand(frame);
    let args = frame.stack.split_off(n - count);
    let callable = pop_top(frame);
    assert(frame.stack@ =~= old(frame)@.stack.take(n - count - 1));
    Ok(Effect::Call(callable, args))
}

/// `PopTop`: drops the top value.
pub fn op_pop_top<T>(frame: &mut Frame<T>) -> (r: Result<Effect<T>, Error>)
    requires
        runs(old(frame)@, 4),
    ensures
        stepped(old(frame)@, final(frame)@, 4, r),
{
    if frame.stack.len() == 0 {
        return Err(stack_error());
    }
    let _ = pop_top(frame);
    Ok(Effect::Nothing)
}

/// `MakeFunction`: pops the code object of the function.
pub fn op_make_function<T>(frame: &mut Frame<T>) -> (r: Result<Effect<T>, Error>)
    requires
        runs(old(frame)@, 5),
    ensures
        stepped(old(frame)@, final(frame)@, 5, r),
{
    if frame.stack.len() == 0 {
        return Err(stack_error());
    }
    let code = pop_top(frame);
    Ok(Effect::MakeFunction(code))
}

/// `LoadAttr`: pops the object, then reads the attribute's name.
pub fn op_load_attr<T>(frame: &mut Frame<T>) -> (r: Result<Effect<T>, Error>)
    requires
        runs(old(frame)@, 6),
    ensures
        stepped(old(frame)@, final(frame)@, 6, r),
{
    if frame.stack.len() == 0 {
        return Err(stack_error());
    }
    let object = pop_top(frame);
    if frame.pc >= frame.code.instructions_count() {
        return Ok(Effect::LoadAttr(object, AttrName::Missing));
    }
    let index = frame.next_opcode();
    match frame.get_name(index as usize) {
        Some(name) => Ok(Effect::LoadAttr(object, AttrName::Name(name))),
        None => Ok(Effect::LoadAttr(object, AttrName::Unknown(index))),
    }
}

/// `Compare`: pops the right, then the left value, and reads the comparison.
pub fn op_compare<T>(frame: &mut Frame<T>) -> (r: Result<Effect<T>, Error>)
    requires
        runs(old(frame)@, 7),
    ensures
        stepped(old(frame)@, final(frame)@, 7, r),
{
    if frame.stack.len() < 2 {
        return Err(stack_error());
    }
    let byte = peek_operand(frame);
    match ComparisonOperator::from_u8(byte) {
        Some(operator) => {
            assert(operator == comparison_of(byte));
            skip_operand(frame);
            let right = pop_top(frame);
            let left = pop_top(frame);
            assert(frame.stack@ =~= old(frame)@.stack.take(old(frame)@.stack.len() - 2));
            Ok(Effect::Compare(left, right, operator))
        },
        None => {
            proof {
                reveal_strlit("");
            }
            assert(("Invalid comparison operator: "@ + decimal(byte as nat) + ""@) =~= ("Invalid comparison operator: "@ + decimal(byte as nat)));
            Err(index_error("Invalid comparison operator: ", byte, ""))
        },
    }
}

/// `JumpBack`: moves back by the operand, counted from after it.
pub fn op_jump_back<T>(frame: &mut Frame<T>) -> (r: Result<Effect<T>, Error>)
    requires
        runs(old(frame)@, 8),
    ensures
        stepped(old(frame)@, final(frame)@, 8, r),
{
    let offset = frame.next_opcode() as usize;
    let pc = frame.current_pc();
    frame.set_pc(pc - offset);
    Ok(Effect::Nothing)
}

/// `PopAndJumpIfFalse`: pops the condition and reads the target.
pub fn op_pop_and_jump_if_false<T>(frame: &mut Frame<T>) -> (r: Result<Effect<T>, Error>)
    requires
        runs(old(frame)@, 9),
    ensures
        stepped(old(frame)@, final(frame)@, 9, r),
{
    if frame.stack.len() == 0 {
        return Err(stack_error());
    }
    let target = frame.next_opcode() as usize;
    let condition = pop_top(frame);
    Ok(Effect::JumpIfFalse(condition, target))
}

/// `Jump`: moves to the operand.
pub fn op_jump<T>(frame: &mut Frame<T>) -> (r: Result<Effect<T>, Error>)
    requires
        runs(old(frame)@, 10),
    ensures
        stepped(old(frame)@, final(frame)@, 10, r),
{
    let target = frame.next_opcode() as usize;
    frame.set_pc(target);
    Ok(Effect::Nothing)
}

/// `MakeClass`: pops the code object of the class body.
pub fn op_make_class<T>(frame: &mut Frame<T>) -> (r: Result<Effect<T>, Error>)
    requires
        runs(old(frame)@, 11),
    ensures
        stepped(old(frame)@, final(frame)@, 11, r),
{
    if frame.stack.len() == 0 {
        return Err(stack_error());
    }
    let code = pop_top(frame);
    Ok(Effect::MakeClass(code))
}

/// `StoreAttr`: pops the object, then the value, and reads the attribute's name.
pub fn op_store_attr<T>(frame: &mut Frame<T>) -> (r: Result<Effect<T>, Error>)
    requires
        runs(old(frame)@, 12),
    ensures
        stepped(old(frame)@, final(frame)@, 12, r),
{
    if frame.stack.len() < 2 {
        return Err(stack_error());
    }
    let index = peek_operand(frame);
    match frame.get_name(index as usize) {
        Some(name) => {
            skip_operand(frame);
            let object = pop_top(frame);
            let value = pop_top(frame);
            assert(frame.stack@ =~= old(frame)@.stack.take(old(frame)@.stack.len() - 2));
            Ok(Effect::StoreAttr(object, value, name))
        },
        None => Err(index_error("Name at index ", index, " not defined")),
    }
}

/// `Return`: pops the value that the frame returns.
pub fn op_return<T>(frame: &mut Frame<T>) -> (r: Result<Effect<T>, Error>)
    requires
        runs(old(frame)@, 13),
    ensures
        stepped(old(frame)@, final(frame)@, 13, r),
{
    if frame.stack.len() == 0 {
        return Err(stack_error());
    }
    let value = pop_top(frame);
    frame.set_return_value(Some(value));
    Ok(Effect::Nothing)
}

/// `Raise`: pops the value to raise.
pub fn op_raise<T>(frame: &mut Frame<T>) -> (r: Result<Effect<T>, Error>)
    requires
        runs(old(frame)@, 14),
    ensures
        stepped(old(frame)@, final(frame)@, 14, r),
{
    if frame.stack.len() == 0 {
        return Err(stack_error());
    }
    let exception = pop_top(frame);
    Ok(Effect::Raise(exception))
}

/// `BinaryOp`: pops the right, then the left value, and reads the operator.
pub fn op_bin_op<T>(frame: &mut Frame<T>) -> (r: Result<Effect<T>, Error>)
    requires
        runs(old(frame)@, 15),
    ensures
        stepped(old(frame)@, final(frame)@, 15, r),
{
    if frame.stack.len() < 2 {
        return Err(stack_error());
    }
    let byte = peek_operand(frame);
    match Operator::from_u8(byte) {
        Some(operator) => {
            assert(operator == operator_of(byte));
            skip_operand(frame);
            let right = pop_top(frame);
            let left = pop_top(frame);
            assert(frame.stack@ =~= old(frame)@.stack.take(old(frame)@.stack.len() - 2));
            Ok(Effect::BinaryOp(left, right, operator))
        },
        None => {
            proof {
                reveal_strlit("");
            }
            assert(("Invalid binary operator: "@ + decimal(byte as nat) + ""@) =~= ("Invalid binary operator: "@ + decimal(byte as nat)));
            Err(index_error("Invalid binary operator: ", byte, ""))
        },
    }
}

/// Runs the instruction whose opcode was just read: the handler of that opcode.
pub fn execute<T>(frame: &mut Frame<T>, opcode: u8) -> (r: Result<Effect<T>, Error>)
    requires
        runs(old(frame)@, opcode),
    ensures
        stepped(old(frame)@, final(frame)@, opcode, r),
{
    match opcode {
        0 => op_load_const(frame),
        1 => op_store_name(frame),
        2 => op_load_name(frame),
        3 => op_call(frame),
        4 => op_pop_top(frame),
        5 => op_make_function(frame),
        6 => op_load_attr(frame),
        7 => op_compare(frame),
        8 => op_jump_back(frame),
        9 => op_pop_and_jump_if_false(frame),
        10 => op_jump(frame),
        11 => op_make_class(frame),
        12 => op_store_attr(frame),
        13 => op_return(frame),
        14 => op_raise(frame),
        _ => op_bin_op(frame),
    }
}

/// A compiled `while` loop runs as a loop. On a frame over the code of a loop that ends before
/// byte 256, the jump back at its end runs and moves the frame to the first byte of the
/// loop's condition; and the conditional jump after the condition pops the condition and hands
/// the end of the loop to the runtime as the place to go where it is false.
pub proof fn law_loop_runs_back<T>(n: Node, st: CompileState, f: FrameView<T>)
    requires
        n is While,
        jumps_ok(st),
        compile_spec(n, st).0 is Done,
        compile_spec(n, st).1.code.code.len() <= 255,
        f.code.code == compile_spec(n, st).1.code.code,
    ensures
        f.pc == f.code.code.len() - 1 ==> runs(f, 8) && step_spec(f, 8) == Ok::<(FrameView<T>, EffectView<T>), ErrorView>((
            FrameView { pc: st.code.code.len() as int, ..f },
            EffectView::Nothing,
        )),
        ({
            let c = compile_spec(*n->While_0, enter_scope_spec(st, ScopeType::While)).1.code.code.len();
            f.pc == c + 1 && f.stack.len() > 0 ==> runs(f, 9) && step_spec(f, 9) == Ok::<(FrameView<T>, EffectView<T>), ErrorView>((
                advanced(f, f.stack.drop_last()),
                EffectView::JumpIfFalse(f.stack.last(), f.code.code.len() as usize),
            ))
        }),
{
    law_while_jumps(n, st);
}

/// The machine runs the instructions of code that reads as whole instructions: once it has
/// read an opcode where an instruction starts, the instruction runs without stopping the
/// machine, but for a jump back, which also needs its offset to stay inside the code (as the
/// jump back of a compiled loop does: [`law_loop_runs_back`]).
pub proof fn law_decoded_instruction_runs<T>(f: FrameView<T>)
    requires
        decodes_from(f.code.code, 0),
        1 <= f.pc <= f.code.code.len(),
        starts_from(f.code.code, 0, f.pc - 1),
        f.code.code[f.pc - 1] != 8,
    ensures
        runs(f, f.code.code[f.pc - 1]),
{
    lemma_start_is_instruction(f.code.code, 0, f.pc - 1);
}

/// The machine reads back the operand that the compiler wrote: the comparison (or arithmetic
/// operator) whose byte is the operand of `Compare` (or `BinaryOp`) is the one the compiler
/// encoded, and each operand byte that the machine accepts is the byte of what it reads.
pub proof fn law_operands_read_back(c: ComparisonOperator, o: Operator, b: u8)
    ensures
        comparison_of(comparison_byte(c)) == c,
        operator_of(operator_byte(o)) == o,
        b < 6 ==> comparison_byte(comparison_of(b)) == b,
        b < 2 ==> operator_byte(operator_of(b)) == b,
{
}

/// A comparison of the syntax tree compiles to code that ends with `Compare`, whose operand
/// the machine reads as a comparison deciding, of every two numbers, what the source's
/// operator says; likewise an arithmetic operation ends with `BinaryOp`, whose operand the
/// machine reads as an operator computing what the source's operator says.
pub proof fn law_operators_compile_to_their_meaning(
    l: Node,
    op: crate::ast::Operator,
    r: Node,
    st: CompileState,
)
    ensures
        ({
            let (o, after) = compile_spec(Node::Compare(Box::new(l), op, Box::new(r)), st);
            let code = after.code.code;
            o is Done ==> {
                &&& code.len() >= 2
                &&& code[code.len() - 2] == 7
                &&& code[code.len() - 1] < 6
                &&& forall|x: int, y: int|
                    #[trigger] comparison_holds(comparison_of(code[code.len() - 1]), x, y)
                        == crate::ast::operator_compares(op, x, y)
            }
        }),
        ({
            let (o, after) = compile_spec(Node::BinOp(Box::new(l), op, Box::new(r)), st);
            let code = after.code.code;
            o is Done ==> {
                &&& code.len() >= 2
                &&& code[code.len() - 2] == 15
                &&& code[code.len() - 1] < 2
                &&& forall|x: int, y: int|
                    #[trigger] operator_result(operator_of(code[code.len() - 1]), x, y)
                        == crate::ast::operator_computes(op, x, y)
            }
        }),
{
    crate::bytecode::law_comparison_of_keeps_meaning(op, op);
    crate::bytecode::law_arithmetic_of_keeps_meaning(op);
}

/// The machine takes the operands of an instruction in the order they were pushed: with `x`
/// pushed before `y`, `Compare` compares `x` with `y` and `BinaryOp` computes `x` with `y`;
/// with a callee pushed before its arguments, `Call` calls it on them in the order they were
/// pushed; and `StoreAttr` stores the value `x` into the attribute of the object `y` pushed
/// after it. Each leaves the values below them on the stack.
pub proof fn law_operands_in_push_order<T>(f: FrameView<T>, below: Seq<T>, x: T, y: T, args: Seq<T>)
    requires
        0 <= f.pc < f.code.code.len(),
    ensures
        f.stack == below.push(x).push(y) && operand(f) < 6 ==> step_spec(f, 7) == Ok::<
            (FrameView<T>, EffectView<T>),
            ErrorView,
        >((advanced(f, below), EffectView::Compare(x, y, comparison_of(operand(f))))),
        f.stack == below.push(x).push(y) && operand(f) < 2 ==> step_spec(f, 15) == Ok::<
            (FrameView<T>, EffectView<T>),
            ErrorView,
        >((advanced(f, below), EffectView::BinaryOp(x, y, operator_of(operand(f))))),
        f.stack == below.push(x).push(y) && (operand(f) as int) < f.code.names.len() ==> step_spec(f, 12)
            == Ok::<(FrameView<T>, EffectView<T>), ErrorView>((
            advanced(f, below),
            EffectView::StoreAttr(y, x, f.code.names[operand(f) as int]),
        )),
        f.stack == below.push(x) + args && args.len() == operand(f) ==> step_spec(f, 3) == Ok::<
            (FrameView<T>, EffectView<T>),
            ErrorView,
        >((advanced(f, below), EffectView::Call(x, args))),
{
    let s = f.stack;
    let n = s.len();
    if s == below.push(x).push(y) {
        assert(s.take(n - 2) =~= below);
    }
    if s == below.push(x) + args && args.len() == operand(f) {
        let b = operand(f);
        assert(s.take(n - b - 1) =~= below);
        assert(s.subrange(n - b, n as int) =~= args);
        assert(s[n - b - 1] == x);
    }
}

} // verus!
