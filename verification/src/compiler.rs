use vstd::prelude::*;

use crate::ast::{
    is_expression_node, lemma_nodes_view_len, nodes_view, ASTNode, Assignment, Attribute, BinOp,
    Block, ClassDef, Compare, If, MethodCall, MethodDef, Node, Raise, Return, While,
};
use crate::bytecode::{
    arithmetic_of, comparison_byte, comparison_of, empty_code, index_byte, lemma_index_byte,
    name_index, names_with, operator_byte, CodeObject, CodeView, ComparisonOperator, Const,
    ConstView, Opcode, Operator,
};
use crate::errors::{Error, ErrorView};
use crate::parser::Step;
use std::sync::Arc;

verus! {

broadcast use vstd::string::group_string_axioms;

/// What a scope of the compiler is for.
#[derive(Debug, Clone, Copy, PartialEq, Eq, Structural)]
pub enum ScopeType {
    Function,
    While,
}

/// A scope of the compiler: a function body or a loop, with the positions of the jump
/// operands that are set when the scope ends.
#[derive(Debug)]
pub struct Scope {
    pub scope_type: ScopeType,
    pub jumps: Vec<usize>,
}

/// The mathematical value of a [`Scope`].
#[verifier::ext_equal]
pub struct ScopeView {
    pub kind: ScopeType,
    pub jumps: Seq<usize>,
}

impl View for Scope {
    type V = ScopeView;

    open spec fn view(&self) -> ScopeView {
        ScopeView { kind: self.scope_type, jumps: self.jumps@ }
    }
}

pub open spec fn scopes_view(s: Seq<Scope>) -> Seq<ScopeView> {
    s.map_values(|x: Scope| x@)
}

/// The state of the compiler: the code written so far and the open scopes.
#[verifier::ext_equal]
pub struct CompileState {
    pub code: CodeView,
    pub scopes: Seq<ScopeView>,
}

/// How a compilation step ends: done, with an error, or with a panic of the byte arithmetic.
pub enum Outcome {
    Done,
    Failed(ErrorView),
    Panic,
}

// ----------------------------------------------------------------------------------------
// The compilation, as mathematics
// ----------------------------------------------------------------------------------------

pub open spec fn with_code(st: CompileState, code: Seq<u8>) -> CompileState {
    CompileState { code: CodeView { code, ..st.code }, ..st }
}

pub open spec fn emit(st: CompileState, b: u8) -> CompileState {
    with_code(st, st.code.code.push(b))
}

pub open spec fn emit2(st: CompileState, a: u8, b: u8) -> CompileState {
    emit(emit(st, a), b)
}

pub open spec fn name_byte(st: CompileState, name: Seq<char>) -> u8 {
    index_byte(name_index(st.code.names, name, 0))
}

pub open spec fn name_added(st: CompileState, name: Seq<char>) -> CompileState {
    CompileState { code: CodeView { names: names_with(st.code.names, name), ..st.code }, ..st }
}

/// An instruction whose operand is the index of a name, adding the name where it is new.
pub open spec fn named(st: CompileState, opcode: u8, name: Seq<char>) -> CompileState {
    emit2(name_added(st, name), opcode, name_byte(st, name))
}

pub open spec fn load_const(st: CompileState, c: ConstView) -> CompileState {
    emit2(
        CompileState { code: CodeView { consts: st.code.consts.push(c), ..st.code }, ..st },
        0,
        index_byte(st.code.consts.len() as int),
    )
}

/// Sets the bytes at the positions `jumps` to `v`.
pub open spec fn patch(code: Seq<u8>, jumps: Seq<usize>, v: u8) -> Seq<u8>
    decreases jumps.len(),
{
    if jumps.len() == 0 {
        code
    } else {
        patch(code.update(jumps[0] as int, v), jumps.subrange(1, jumps.len() as int), v)
    }
}

pub open spec fn enter_scope_spec(st: CompileState, kind: ScopeType) -> CompileState {
    CompileState { scopes: st.scopes.push(ScopeView { kind, jumps: Seq::empty() }), ..st }
}

/// The scopes after a jump operand is recorded in the innermost one.
pub open spec fn jump_pushed(scopes: Seq<ScopeView>, j: usize) -> Seq<ScopeView> {
    if scopes.len() == 0 {
        scopes
    } else {
        let last = scopes.last();
        scopes.update(scopes.len() - 1, ScopeView { jumps: last.jumps.push(j), ..last })
    }
}

/// Records a jump operand in the innermost scope.
pub open spec fn push_jump_spec(st: CompileState, j: usize) -> CompileState {
    CompileState { scopes: jump_pushed(st.scopes, j), ..st }
}

/// Points the jumps of the innermost scope at `target`.
pub open spec fn backpatch_spec(st: CompileState, target: int) -> CompileState {
    if st.scopes.len() == 0 {
        st
    } else {
        with_code(st, patch(st.code.code, st.scopes.last().jumps, index_byte(target)))
    }
}

/// Closes the innermost scope; its jumps point at the end of the code.
pub open spec fn exit_scope_spec(st: CompileState) -> CompileState {
    if st.scopes.len() == 0 {
        st
    } else {
        CompileState {
            code: CodeView {
                code: patch(
                    st.code.code,
                    st.scopes.last().jumps,
                    index_byte(st.code.code.len() as int),
                ),
                ..st.code
            },
            scopes: st.scopes.drop_last(),
        }
    }
}

pub open spec fn in_scope(st: CompileState, kind: ScopeType) -> bool {
    st.scopes.len() > 0 && st.scopes.last().kind == kind
}

pub open spec fn all_identifiers(ps: Seq<Node>) -> bool {
    forall|i: int| 0 <= i < ps.len() ==> ps[i] is Identifier
}

pub open spec fn identifier_names(ps: Seq<Node>) -> Seq<Seq<char>> {
    ps.map_values(|p: Node| p->Identifier_0)
}

pub open spec fn compilation_error(m: Seq<char>) -> Outcome {
    Outcome::Failed(ErrorView::CompilationError(m))
}

pub open spec fn syntax_error(m: Seq<char>) -> Outcome {
    Outcome::Failed(ErrorView::SyntaxError(m))
}

/// A fresh compiler for the body of a function: empty code, one function scope.
pub open spec fn function_start() -> CompileState {
    CompileState {
        code: empty_code(),
        scopes: seq![ScopeView { kind: ScopeType::Function, jumps: Seq::empty() }],
    }
}

/// A fresh compiler for the body of a class: empty code, no scope.
pub open spec fn class_start() -> CompileState {
    CompileState { code: empty_code(), scopes: Seq::empty() }
}

/// The offset of the jump back to the condition of a loop, where it fits in a byte.
pub open spec fn loop_offset(end: int, start: int) -> Option<u8> {
    if end < start || end - start + 2 > 255 {
        None
    } else {
        Some((end - start + 2) as u8)
    }
}

/// Compiles a node: what happens, and the state after it.
pub open spec fn compile_spec(n: Node, st: CompileState) -> (Outcome, CompileState)
    decreases n, 1int,
{
    match n {
        Node::Module(b) => compile_spec(*b, st),
        Node::Identifier(name) => (Outcome::Done, named(st, 2, name)),
        Node::MethodCall(f, args) => {
            let (o1, s1) = compile_spec(*f, st);
            if !(o1 is Done) {
                (o1, s1)
            } else {
                let (o2, s2) = compile_list_spec(args, s1);
                if !(o2 is Done) {
                    (o2, s2)
                } else {
                    (Outcome::Done, emit2(s2, 3, index_byte(args.len() as int)))
                }
            }
        },
        Node::StringLiteral(s) => (Outcome::Done, load_const(st, ConstView::Str(s))),
        Node::NumberLiteral(s) => (Outcome::Done, load_const(st, ConstView::Number(s))),
        Node::Assignment(name, value) => {
            let (o1, s1) = compile_spec(*value, st);
            if !(o1 is Done) {
                (o1, s1)
            } else {
                match *name {
                    Node::Identifier(id) => (Outcome::Done, named(named(s1, 1, id), 2, id)),
                    Node::Attribute(obj, attr) => {
                        let (o2, s2) = compile_spec(*obj, s1);
                        if !(o2 is Done) {
                            (o2, s2)
                        } else {
                            (Outcome::Done, named(s2, 12, attr))
                        }
                    },
                    _ => (compilation_error("Assignment name must be an identifier"@), s1),
                }
            }
        },
        Node::MethodDef(name, params, body) => {
            let (o, inner) = compile_spec(*body, function_start());
            if !(o is Done) {
                (o, st)
            } else if !all_identifiers(params) {
                (compilation_error("Method parameters must be identifiers"@), st)
            } else {
                let exited = exit_scope_spec(inner).code;
                let code = CodeView { args: exited.args + identifier_names(params), name, ..exited };
                (Outcome::Done, emit(load_const(st, ConstView::Code(Box::new(code))), 5))
            }
        },
        Node::ClassDef(name, body) => {
            let (o, inner) = compile_spec(*body, class_start());
            if !(o is Done) {
                (o, st)
            } else {
                let code = CodeView { name, ..inner.code };
                (Outcome::Done, emit(load_const(st, ConstView::Code(Box::new(code))), 11))
            }
        },
        Node::Attribute(obj, attr) => {
            let (o1, s1) = compile_spec(*obj, st);
            if !(o1 is Done) {
                (o1, s1)
            } else {
                (Outcome::Done, named(s1, 6, attr))
            }
        },
        Node::Compare(l, op, r) => {
            let (o1, s1) = compile_spec(*l, st);
            if !(o1 is Done) {
                (o1, s1)
            } else {
                let (o2, s2) = compile_spec(*r, s1);
                if !(o2 is Done) {
                    (o2, s2)
                } else {
                    match comparison_of(op) {
                        Some(c) => (Outcome::Done, emit2(s2, 7, comparison_byte(c))),
                        None => (compilation_error("Comparison operator is missing"@), s2),
                    }
                }
            }
        },
        Node::BinOp(l, op, r) => {
            let (o1, s1) = compile_spec(*l, st);
            if !(o1 is Done) {
                (o1, s1)
            } else {
                let (o2, s2) = compile_spec(*r, s1);
                if !(o2 is Done) {
                    (o2, s2)
                } else {
                    match arithmetic_of(op) {
                        Some(a) => (Outcome::Done, emit2(s2, 15, operator_byte(a))),
                        None => (compilation_error("Binary operator is missing"@), s2),
                    }
                }
            }
        },
        Node::If(test, body) => {
            let (o1, s1) = compile_spec(*test, st);
            if !(o1 is Done) {
                (o1, s1)
            } else {
                let s2 = emit2(s1, 9, 0);
                let count = s2.code.code.len() as int % 256;
                if count == 0 {
                    (Outcome::Panic, s2)
                } else {
                    let (o3, s3) = compile_spec(*body, s2);
                    if !(o3 is Done) {
                        (o3, s3)
                    } else {
                        (
                            Outcome::Done,
                            with_code(
                                s3,
                                s3.code.code.update(
                                    count - 1,
                                    index_byte(s3.code.code.len() as int),
                                ),
                            ),
                        )
                    }
                }
            }
        },
        Node::While(_, _) => compile_while_spec(n, st),
        Node::Break => if !in_scope(st, ScopeType::While) {
            (syntax_error("Break statement outside of loop"@), st)
        } else {
            let s1 = emit2(st, 10, 0);
            (Outcome::Done, push_jump_spec(s1, (s1.code.code.len() - 1) as usize))
        },
        Node::Block(stmts) => compile_block_spec(stmts, st),
        Node::Return(v) => if !in_scope(st, ScopeType::Function) {
            (syntax_error("Return statement outside of function"@), st)
        } else {
            match v {
                Some(e) => {
                    let (o1, s1) = compile_spec(*e, st);
                    if !(o1 is Done) {
                        (o1, s1)
                    } else {
                        (Outcome::Done, emit(s1, 13))
                    }
                },
                None => (Outcome::Done, emit(named(st, 2, "None"@), 13)),
            }
        },
        Node::Raise(v) => match v {
            Some(e) => {
                let (o1, s1) = compile_spec(*e, st);
                if !(o1 is Done) {
                    (o1, s1)
                } else {
                    (Outcome::Done, emit(s1, 14))
                }
            },
            None => (Outcome::Done, emit(named(st, 2, "None"@), 14)),
        },
        Node::Import(_) => (Outcome::Done, st),
        Node::UnaryOp(_, _) => (Outcome::Done, st),
    }
}

/// Compiles a `while` loop: the condition, a conditional jump out of the loop, the body, and
/// a jump back to the condition; the jumps of the loop's scope then point past the loop.
pub open spec fn compile_while_spec(n: Node, st: CompileState) -> (Outcome, CompileState)
    decreases n, 0int,
{
    match n {
        Node::While(cond, body) => {
            let s0 = enter_scope_spec(st, ScopeType::While);
            let start = s0.code.code.len() as int % 256;
            let (o1, s1) = compile_spec(*cond, s0);
            if !(o1 is Done) {
                (o1, s1)
            } else {
                let s2 = emit(s1, 9);
                let operand = s2.code.code.len() as int % 256;
                let s3 = push_jump_spec(emit(s2, 0), operand as usize);
                let (o2, s4) = compile_spec(*body, s3);
                if !(o2 is Done) {
                    (o2, s4)
                } else {
                    let end = s4.code.code.len() as int % 256;
                    match loop_offset(end, start) {
                        None => (Outcome::Panic, s4),
                        Some(offset) => {
                            let s5 = emit2(s4, 8, offset);
                            (
                                Outcome::Done,
                                exit_scope_spec(backpatch_spec(s5, s5.code.code.len() - 1)),
                            )
                        },
                    }
                }
            }
        },
        _ => (Outcome::Done, st),
    }
}

/// Compiles the arguments of a call, in order.
pub open spec fn compile_list_spec(xs: Seq<Node>, st: CompileState) -> (Outcome, CompileState)
    decreases xs, 1int,
{
    if xs.len() == 0 {
        (Outcome::Done, st)
    } else {
        let (o, s1) = compile_spec(xs[0], st);
        if !(o is Done) {
            (o, s1)
        } else {
            compile_list_spec(xs.subrange(1, xs.len() as int), s1)
        }
    }
}

/// Compiles the statements of a block: the value of each expression is popped, and a
/// `break` ends the block.
pub open spec fn compile_block_spec(xs: Seq<Node>, st: CompileState) -> (Outcome, CompileState)
    decreases xs, 1int,
{
    if xs.len() == 0 {
        (Outcome::Done, st)
    } else if xs[0] is Break {
        compile_spec(xs[0], st)
    } else {
        let (o, s1) = compile_spec(xs[0], st);
        if !(o is Done) {
            (o, s1)
        } else {
            let s2 = if is_expression_node(xs[0]) {
                emit(s1, 4)
            } else {
                s1
            };
            compile_block_spec(xs.subrange(1, xs.len() as int), s2)
        }
    }
}


// ----------------------------------------------------------------------------------------
// The compiler
// ----------------------------------------------------------------------------------------

/// The state that a code object and a stack of scopes stand for.
pub open spec fn state_of(code: CodeObject, scopes: Seq<Scope>) -> CompileState {
    CompileState { code: code@, scopes: scopes_view(scopes) }
}

/// Every recorded jump operand lies inside the code.
pub open spec fn jumps_ok(st: CompileState) -> bool {
    forall|i: int, k: int|
        0 <= i < st.scopes.len() && 0 <= k < st.scopes[i].jumps.len() ==> #[trigger] st.scopes[i].jumps[k]
            < st.code.code.len()
}

pub open spec fn outcome_matches(r: Step<()>, o: Outcome) -> bool {
    match o {
        Outcome::Done => r is Done,
        Outcome::Failed(e) => r matches Step::Failed(err) && err@ == e,
        Outcome::Panic => r is Aborted,
    }
}

/// What a compilation step promises: the outcome and the state that the mathematics gives
/// (the state matters only where there is no panic); the jumps stay inside the code; and a
/// finished step does not shrink the code and leaves as many scopes open as it found.
pub open spec fn compiled(before: CompileState, o: Outcome, s: CompileState, r: Step<()>, after: CompileState) -> bool {
    &&& outcome_matches(r, o)
    &&& (!(o is Panic) ==> after == s)
    &&& jumps_ok(after)
    &&& (o is Done ==> after.code.code.len() >= before.code.code.len())
    &&& (o is Done ==> after.scopes.len() == before.scopes.len())
}

pub proof fn lemma_patch_len(code: Seq<u8>, jumps: Seq<usize>, v: u8)
    requires
        forall|k: int| 0 <= k < jumps.len() ==> #[trigger] jumps[k] < code.len(),
    ensures
        patch(code, jumps, v).len() == code.len(),
    decreases jumps.len(),
{
    if jumps.len() > 0 {
        lemma_patch_len(code.update(jumps[0] as int, v), jumps.subrange(1, jumps.len() as int), v);
    }
}

/// Appends an instruction byte.
fn emit_byte(code: &mut CodeObject, b: u8)
    ensures
        final(code)@ == emit(CompileState { code: old(code)@, scopes: Seq::empty() }, b).code,
{
    code.add_instruction(b);
}

/// An instruction whose operand is the index of `name`, which is added where it is new.
fn emit_named(code: &mut CodeObject, opcode: u8, name: String)
    ensures
        final(code)@ == named(CompileState { code: old(code)@, scopes: Seq::empty() }, opcode, name@).code,
{
    let index = code.add_name(name);
    code.add_instruction(opcode);
    code.add_instruction(index);
}

/// Loads a new constant.
fn emit_const(code: &mut CodeObject, c: Const)
    ensures
        final(code)@ == load_const(CompileState { code: old(code)@, scopes: Seq::empty() }, c@).code,
{
    let index = code.add_const(c);
    code.add_instruction(Opcode::LoadConst.to_u8());
    code.add_instruction(index);
}

/// Sets the operands at `jumps` to `v`.
fn patch_jumps(code: &mut CodeObject, jumps: &Vec<usize>, v: u8)
    requires
        forall|k: int| 0 <= k < jumps@.len() ==> #[trigger] jumps@[k] < old(code)@.code.len(),
    ensures
        final(code)@ == (CodeView { code: patch(old(code)@.code, jumps@, v), ..old(code)@ }),
        final(code)@.code.len() == old(code)@.code.len(),
{
    let ghost c0 = code@;
    let mut k: usize = 0;
    assert(jumps@.subrange(0, jumps@.len() as int) =~= jumps@);
    while k < jumps.len()
        invariant
            0 <= k <= jumps@.len(),
            forall|m: int| 0 <= m < jumps@.len() ==> #[trigger] jumps@[m] < c0.code.len(),
            code@.code.len() == c0.code.len(),
            code@ == (CodeView { code: code@.code, ..c0 }),
            patch(c0.code, jumps@, v) == patch(code@.code, jumps@.subrange(k as int, jumps@.len() as int), v),
        decreases jumps@.len() - k,
    {
        let ghost before = code@.code;
        let ghost rest = jumps@.subrange(k as int, jumps@.len() as int);
        code.set_instruction_at(jumps[k], v);
        k = k + 1;
        proof {
            assert(rest.subrange(1, rest.len() as int) =~= jumps@.subrange(k as int, jumps@.len() as int));
        }
    }
    proof {
        assert(jumps@.subrange(k as int, jumps@.len() as int) =~= Seq::<usize>::empty());
    }
}

/// Opens a scope.
fn enter_scope(scopes: &mut Vec<Scope>, scope_type: ScopeType)
    ensures
        scopes_view(final(scopes)@) == scopes_view(old(scopes)@).push(
            ScopeView { kind: scope_type, jumps: Seq::empty() },
        ),
{
    let ghost before = scopes_view(scopes@);
    scopes.push(Scope { scope_type, jumps: Vec::new() });
    assert(scopes_view(scopes@) =~= before.push(ScopeView { kind: scope_type, jumps: Seq::empty() }));
}

/// Records a jump operand in the innermost scope.
fn push_jump(scopes: &mut Vec<Scope>, jump: usize)
    requires
        old(scopes)@.len() > 0,
    ensures
        scopes_view(final(scopes)@) == jump_pushed(scopes_view(old(scopes)@), jump),
{
    let ghost before = scopes_view(scopes@);
    let mut scope = match scopes.pop() {
        Some(s) => s,
        None => {
            return;
        },
    };
    scope.jumps.push(jump);
    scopes.push(scope);
    assert(scopes_view(scopes@) =~= before.update(
        before.len() - 1,
        ScopeView { jumps: before.last().jumps.push(jump), ..before.last() },
    ));
}


/// Closes the innermost scope; its jumps point at the end of the code.
fn exit_scope(code: &mut CodeObject, scopes: &mut Vec<Scope>)
    requires
        jumps_ok(state_of(*old(code), old(scopes)@)),
    ensures
        state_of(*final(code), final(scopes)@) == exit_scope_spec(state_of(*old(code), old(scopes)@)),
        jumps_ok(state_of(*final(code), final(scopes)@)),
        final(code)@.code.len() == old(code)@.code.len(),
        final(scopes)@.len() == if old(scopes)@.len() > 0 { old(scopes)@.len() - 1 } else { 0 },
{
    let ghost before = state_of(*code, scopes@);
    match scopes.pop() {
        Some(scope) => {
            let count = code.instructions_count();
            proof {
                lemma_index_byte(count);
                let last = before.scopes.len() - 1;
                assert forall|k: int| 0 <= k < scope.jumps@.len() implies #[trigger] scope.jumps@[k]
                    < code@.code.len() by {
                    assert(before.scopes[last].jumps[k] == scope.jumps@[k]);
                }
                lemma_patch_len(code@.code, scope.jumps@, #[verifier::truncate] (count as u8));
            }
            #[verifier::truncate]
            let v = count as u8;
            patch_jumps(code, &scope.jumps, v);
            assert(scopes_view(scopes@) =~= before.scopes.drop_last());
            assert(state_of(*code, scopes@) =~= exit_scope_spec(before));
        },
        None => {},
    }
}

/// Points the jumps of the innermost scope at `target`.
fn backpatch(code: &mut CodeObject, scopes: &Vec<Scope>, target: usize)
    requires
        jumps_ok(state_of(*old(code), scopes@)),
    ensures
        state_of(*final(code), scopes@) == backpatch_spec(state_of(*old(code), scopes@), target as int),
        jumps_ok(state_of(*final(code), scopes@)),
        final(code)@.code.len() == old(code)@.code.len(),
{
    let ghost before = state_of(*code, scopes@);
    let n = scopes.len();
    if n > 0 {
        proof {
            lemma_index_byte(target);
            assert forall|k: int| 0 <= k < scopes@[n - 1].jumps@.len() implies #[trigger] scopes@[n
                - 1].jumps@[k] < code@.code.len() by {
                assert(before.scopes[n - 1].jumps[k] == scopes@[n - 1].jumps@[k]);
            }
            lemma_patch_len(code@.code, scopes@[n - 1].jumps@, #[verifier::truncate] (target as u8));
        }
        #[verifier::truncate]
        let v = target as u8;
        patch_jumps(code, &scopes[n - 1].jumps, v);
        assert(state_of(*code, scopes@) =~= backpatch_spec(before, target as int));
    }
}

pub open spec fn compiled_node(before: CompileState, n: Node, r: Step<()>, after: CompileState) -> bool {
    compiled(before, compile_spec(n, before).0, compile_spec(n, before).1, r, after)
}


/// Appends an instruction byte.
fn emit_op(code: &mut CodeObject, scopes: &Vec<Scope>, b: u8)
    requires
        jumps_ok(state_of(*old(code), scopes@)),
    ensures
        state_of(*final(code), scopes@) == emit(state_of(*old(code), scopes@), b),
        jumps_ok(state_of(*final(code), scopes@)),
{
    code.add_instruction(b);
}

/// An instruction whose operand is the index of `name`, which is added where it is new.
fn named_op(code: &mut CodeObject, scopes: &Vec<Scope>, opcode: u8, name: String)
    requires
        jumps_ok(state_of(*old(code), scopes@)),
    ensures
        state_of(*final(code), scopes@) == named(state_of(*old(code), scopes@), opcode, name@),
        jumps_ok(state_of(*final(code), scopes@)),
{
    let index = code.add_name(name);
    code.add_instruction(opcode);
    code.add_instruction(index);
}

/// Loads a new constant.
fn const_op(code: &mut CodeObject, scopes: &Vec<Scope>, c: Const)
    requires
        jumps_ok(state_of(*old(code), scopes@)),
    ensures
        state_of(*final(code), scopes@) == load_const(state_of(*old(code), scopes@), c@),
        jumps_ok(state_of(*final(code), scopes@)),
{
    let index = code.add_const(c);
    code.add_instruction(Opcode::LoadConst.to_u8());
    code.add_instruction(index);
}

/// Overwrites one instruction byte.
fn set_op(code: &mut CodeObject, scopes: &Vec<Scope>, offset: usize, v: u8)
    requires
        jumps_ok(state_of(*old(code), scopes@)),
        offset < old(code)@.code.len(),
    ensures
        state_of(*final(code), scopes@) == with_code(
            state_of(*old(code), scopes@),
            old(code)@.code.update(offset as int, v),
        ),
        jumps_ok(state_of(*final(code), scopes@)),
{
    code.set_instruction_at(offset, v);
}

/// Whether the innermost scope has the given type.
fn innermost_is(scopes: &Vec<Scope>, kind: ScopeType) -> (b: bool)
    ensures
        b == (scopes_view(scopes@).len() > 0 && scopes_view(scopes@).last().kind == kind),
{
    let n = scopes.len();
    n > 0 && scopes[n - 1].scope_type == kind
}

/// Compiles a node into the code, within the open scopes.
fn compile_node(code: &mut CodeObject, scopes: &mut Vec<Scope>, node: &ASTNode) -> (r: Step<()>)
    requires
        jumps_ok(state_of(*old(code), old(scopes)@)),
    ensures
        compiled_node(state_of(*old(code), old(scopes)@), node.node(), r, state_of(*final(code), final(scopes)@)),
    decreases node, 1int,
{
    match node {
        ASTNode::Module(m) => compile_node(code, scopes, &m.block),
        ASTNode::Identifier(id) => {
            named_op(code, scopes, 2, id.name.clone());
            Step::Done(())
        },
        ASTNode::StringLiteral(s) => {
            const_op(code, scopes, Const::Str(s.clone()));
            Step::Done(())
        },
        ASTNode::NumberLiteral(s) => {
            const_op(code, scopes, Const::Number(s.clone()));
            Step::Done(())
        },
        ASTNode::MethodCall(_) => compile_method_call(code, scopes, node),
        ASTNode::Assignment(_) => compile_assignment(code, scopes, node),
        ASTNode::MethodDef(_) => compile_method_def(code, scopes, node),
        ASTNode::ClassDef(_) => compile_class_def(code, scopes, node),
        ASTNode::Attribute(_) => compile_attribute(code, scopes, node),
        ASTNode::Compare(_) => compile_compare(code, scopes, node),
        ASTNode::BinOp(_) => compile_bin_op(code, scopes, node),
        ASTNode::If(_) => compile_if(code, scopes, node),
        ASTNode::While(_) => compile_while(code, scopes, node),
        ASTNode::Break() => compile_break(code, scopes),
        ASTNode::Block(_) => compile_block(code, scopes, node),
        ASTNode::Return(_) => compile_return(code, scopes, node),
        ASTNode::Raise(_) => compile_raise(code, scopes, node),
        ASTNode::Import(_) => Step::Done(()),
        ASTNode::UnaryOp(_) => Step::Done(()),
    }
}

fn compile_method_call(code: &mut CodeObject, scopes: &mut Vec<Scope>, node: &ASTNode) -> (r: Step<()>)
    requires
        node is MethodCall,
        jumps_ok(state_of(*old(code), old(scopes)@)),
    ensures
        compiled_node(state_of(*old(code), old(scopes)@), node.node(), r, state_of(*final(code), final(scopes)@)),
    decreases node, 0int,
{
    let mc = match node {
        ASTNode::MethodCall(mc) => mc,
        _ => {
            return Step::Aborted;
        },
    };
    assert(node.node() == Node::MethodCall(Box::new(mc.name.node()), nodes_view(mc.arguments@)));
    let ghost st0 = state_of(*code, scopes@);
    match compile_node(code, scopes, &mc.name) {
        Step::Done(_) => {},
        Step::Failed(e) => {
            return Step::Failed(e);
        },
        Step::Aborted => {
            return Step::Aborted;
        },
    }
    let ghost s1 = state_of(*code, scopes@);
    let ghost xs = nodes_view(mc.arguments@);
    proof {
        lemma_nodes_view_len(mc.arguments@);
        assert(xs.subrange(0, xs.len() as int) =~= xs);
    }
    let mut i: usize = 0;
    while i < mc.arguments.len()
        invariant
            0 <= i <= mc.arguments@.len(),
            xs == nodes_view(mc.arguments@),
            xs.len() == mc.arguments@.len(),
            forall|j: int| 0 <= j < xs.len() ==> #[trigger] xs[j] == mc.arguments@[j].node(),
            node.node() == Node::MethodCall(Box::new(mc.name.node()), xs),
            node is MethodCall && *mc == node->MethodCall_0,
            st0 == state_of(*old(code), old(scopes)@),
            compile_spec(mc.name.node(), st0).0 is Done,
            compile_spec(mc.name.node(), st0).1 == s1,
            compile_list_spec(xs, s1) == compile_list_spec(
                xs.subrange(i as int, xs.len() as int),
                state_of(*code, scopes@),
            ),
            jumps_ok(state_of(*code, scopes@)),
            state_of(*code, scopes@).code.code.len() >= st0.code.code.len(),
            state_of(*code, scopes@).scopes.len() == st0.scopes.len(),
        decreases mc.arguments@.len() - i,
    {
        let ghost rest = xs.subrange(i as int, xs.len() as int);
        proof {
            assert(rest[0] == xs[i as int]);
            assert(rest.subrange(1, rest.len() as int) =~= xs.subrange(i + 1, xs.len() as int));
        }
        proof {
            assert(*mc == node->MethodCall_0);
            assert(decreases_to!(*node => node->MethodCall_0));
            assert(decreases_to!(*mc => mc.arguments));
            assert(decreases_to!(mc.arguments => mc.arguments@));
            assert(decreases_to!(mc.arguments@ => mc.arguments@[i as int]));
        }
        match compile_node(code, scopes, &mc.arguments[i]) {
            Step::Done(_) => {},
            Step::Failed(e) => {
                return Step::Failed(e);
            },
            Step::Aborted => {
                return Step::Aborted;
            },
        }
        i = i + 1;
    }
    proof {
        assert(xs.subrange(i as int, xs.len() as int) =~= Seq::<Node>::empty());
    }
    let n = mc.arguments.len();
    proof {
        lemma_index_byte(n);
    }
    #[verifier::truncate]
    let count = n as u8;
    emit_op(code, scopes, Opcode::Call.to_u8());
    emit_op(code, scopes, count);
    Step::Done(())
}

fn compile_assignment(code: &mut CodeObject, scopes: &mut Vec<Scope>, node: &ASTNode) -> (r: Step<()>)
    requires
        node is Assignment,
        jumps_ok(state_of(*old(code), old(scopes)@)),
    ensures
        compiled_node(state_of(*old(code), old(scopes)@), node.node(), r, state_of(*final(code), final(scopes)@)),
    decreases node, 0int,
{
    let a = match node {
        ASTNode::Assignment(a) => a,
        _ => {
            return Step::Aborted;
        },
    };
    assert(node.node() == Node::Assignment(Box::new(a.name.node()), Box::new(a.value.node())));
    match compile_node(code, scopes, &a.value) {
        Step::Done(_) => {},
        Step::Failed(e) => {
            return Step::Failed(e);
        },
        Step::Aborted => {
            return Step::Aborted;
        },
    }
    match &*a.name {
        ASTNode::Identifier(id) => {
            named_op(code, scopes, 1, id.name.clone());
            named_op(code, scopes, 2, id.name.clone());
            Step::Done(())
        },
        ASTNode::Attribute(attribute) => {
            match compile_node(code, scopes, &attribute.name) {
                Step::Done(_) => {},
                Step::Failed(e) => {
                    return Step::Failed(e);
                },
                Step::Aborted => {
                    return Step::Aborted;
                },
            }
            named_op(code, scopes, 12, attribute.value.clone());
            Step::Done(())
        },
        _ => Step::Failed(
            Error::CompilationError("Assignment name must be an identifier".to_string()),
        ),
    }
}

fn compile_method_def(code: &mut CodeObject, scopes: &mut Vec<Scope>, node: &ASTNode) -> (r: Step<()>)
    requires
        node is MethodDef,
        jumps_ok(state_of(*old(code), old(scopes)@)),
    ensures
        compiled_node(state_of(*old(code), old(scopes)@), node.node(), r, state_of(*final(code), final(scopes)@)),
    decreases node, 0int,
{
    let d = match node {
        ASTNode::MethodDef(d) => d,
        _ => {
            return Step::Aborted;
        },
    };
    assert(node.node() == Node::MethodDef(d.name@, nodes_view(d.parameters@), Box::new(d.body.node())));
    let mut inner = CodeObject::new();
    let mut inner_scopes: Vec<Scope> = Vec::new();
    enter_scope(&mut inner_scopes, ScopeType::Function);
    assert(state_of(inner, inner_scopes@) =~= function_start());
    match compile_node(&mut inner, &mut inner_scopes, &d.body) {
        Step::Done(_) => {},
        Step::Failed(e) => {
            return Step::Failed(e);
        },
        Step::Aborted => {
            return Step::Aborted;
        },
    }
    exit_scope(&mut inner, &mut inner_scopes);
    let ghost exited = inner@;
    let ghost ps = nodes_view(d.parameters@);
    proof {
        lemma_nodes_view_len(d.parameters@);
        assert(exited.args + identifier_names(ps.subrange(0, 0)) =~= exited.args);
    }
    let mut i: usize = 0;
    while i < d.parameters.len()
        invariant
            0 <= i <= d.parameters@.len(),
            ps == nodes_view(d.parameters@),
            ps.len() == d.parameters@.len(),
            forall|j: int| 0 <= j < ps.len() ==> #[trigger] ps[j] == d.parameters@[j].node(),
            forall|j: int| 0 <= j < i ==> (#[trigger] ps[j]) is Identifier,
            inner@ == (CodeView { args: inner@.args, ..exited }),
            node.node() == Node::MethodDef(d.name@, ps, Box::new(d.body.node())),
            compile_spec(d.body.node(), function_start()).0 is Done,
            *code == *old(code),
            scopes@ == old(scopes)@,
            jumps_ok(state_of(*old(code), old(scopes)@)),
            inner@.args == exited.args + identifier_names(ps.subrange(0, i as int)),
        decreases d.parameters@.len() - i,
    {
        match &*d.parameters[i] {
            ASTNode::Identifier(id) => {
                let ghost before = inner.args@;
                inner.args.push(id.name.clone());
                proof {
                    assert(identifier_names(ps.subrange(0, i + 1)) =~= identifier_names(
                        ps.subrange(0, i as int),
                    ).push(id.name@));
                    assert(crate::bytecode::strings_view(inner.args@) =~= crate::bytecode::strings_view(before).push(id.name@));
                    assert(exited.args + identifier_names(ps.subrange(0, i + 1)) =~= (exited.args
                        + identifier_names(ps.subrange(0, i as int))).push(id.name@));
                }
            },
            _ => {
                assert(!(ps[i as int] is Identifier));
                assert(!all_identifiers(ps));

                return Step::Failed(
                    Error::CompilationError("Method parameters must be identifiers".to_string()),
                );
            },
        }
        i = i + 1;
    }
    proof {
        assert(ps.subrange(0, i as int) =~= ps);
    }
    inner.name = d.name.clone();
    const_op(code, scopes, Const::Code(Box::new(inner)));
    emit_op(code, scopes, Opcode::MakeFunction.to_u8());
    Step::Done(())
}

fn compile_class_def(code: &mut CodeObject, scopes: &mut Vec<Scope>, node: &ASTNode) -> (r: Step<()>)
    requires
        node is ClassDef,
        jumps_ok(state_of(*old(code), old(scopes)@)),
    ensures
        compiled_node(state_of(*old(code), old(scopes)@), node.node(), r, state_of(*final(code), final(scopes)@)),
    decreases node, 0int,
{
    let d = match node {
        ASTNode::ClassDef(d) => d,
        _ => {
            return Step::Aborted;
        },
    };
    assert(node.node() == Node::ClassDef(d.name@, Box::new(d.body.node())));
    let mut inner = CodeObject::new();
    let mut inner_scopes: Vec<Scope> = Vec::new();
    assert(state_of(inner, inner_scopes@) =~= class_start());
    match compile_node(&mut inner, &mut inner_scopes, &d.body) {
        Step::Done(_) => {},
        Step::Failed(e) => {
            return Step::Failed(e);
        },
        Step::Aborted => {
            return Step::Aborted;
        },
    }
    inner.name = d.name.clone();
    const_op(code, scopes, Const::Code(Box::new(inner)));
    emit_op(code, scopes, Opcode::MakeClass.to_u8());
    Step::Done(())
}

fn compile_attribute(code: &mut CodeObject, scopes: &mut Vec<Scope>, node: &ASTNode) -> (r: Step<()>)
    requires
        node is Attribute,
        jumps_ok(state_of(*old(code), old(scopes)@)),
    ensures
        compiled_node(state_of(*old(code), old(scopes)@), node.node(), r, state_of(*final(code), final(scopes)@)),
    decreases node, 0int,
{
    let a = match node {
        ASTNode::Attribute(a) => a,
        _ => {
            return Step::Aborted;
        },
    };
    assert(node.node() == Node::Attribute(Box::new(a.name.node()), a.value@));
    match compile_node(code, scopes, &a.name) {
        Step::Done(_) => {},
        Step::Failed(e) => {
            return Step::Failed(e);
        },
        Step::Aborted => {
            return Step::Aborted;
        },
    }
    named_op(code, scopes, 6, a.value.clone());
    Step::Done(())
}

fn compile_compare(code: &mut CodeObject, scopes: &mut Vec<Scope>, node: &ASTNode) -> (r: Step<()>)
    requires
        node is Compare,
        jumps_ok(state_of(*old(code), old(scopes)@)),
    ensures
        compiled_node(state_of(*old(code), old(scopes)@), node.node(), r, state_of(*final(code), final(scopes)@)),
    decreases node, 0int,
{
    let c = match node {
        ASTNode::Compare(c) => c,
        _ => {
            return Step::Aborted;
        },
    };
    assert(node.node() == Node::Compare(Box::new(c.left.node()), c.operator, Box::new(c.right.node())));
    match compile_node(code, scopes, &c.left) {
        Step::Done(_) => {},
        Step::Failed(e) => {
            return Step::Failed(e);
        },
        Step::Aborted => {
            return Step::Aborted;
        },
    }
    match compile_node(code, scopes, &c.right) {
        Step::Done(_) => {},
        Step::Failed(e) => {
            return Step::Failed(e);
        },
        Step::Aborted => {
            return Step::Aborted;
        },
    }
    match ComparisonOperator::from_ast_operator(c.operator) {
        Some(op) => {
            emit_op(code, scopes, Opcode::Compare.to_u8());
            emit_op(code, scopes, op.to_u8());
            Step::Done(())
        },
        None => Step::Failed(Error::CompilationError("Comparison operator is missing".to_string())),
    }
}

fn compile_bin_op(code: &mut CodeObject, scopes: &mut Vec<Scope>, node: &ASTNode) -> (r: Step<()>)
    requires
        node is BinOp,
        jumps_ok(state_of(*old(code), old(scopes)@)),
    ensures
        compiled_node(state_of(*old(code), old(scopes)@), node.node(), r, state_of(*final(code), final(scopes)@)),
    decreases node, 0int,
{
    let b = match node {
        ASTNode::BinOp(b) => b,
        _ => {
            return Step::Aborted;
        },
    };
    assert(node.node() == Node::BinOp(Box::new(b.left.node()), b.operator, Box::new(b.right.node())));
    match compile_node(code, scopes, &b.left) {
        Step::Done(_) => {},
        Step::Failed(e) => {
            return Step::Failed(e);
        },
        Step::Aborted => {
            return Step::Aborted;
        },
    }
    match compile_node(code, scopes, &b.right) {
        Step::Done(_) => {},
        Step::Failed(e) => {
            return Step::Failed(e);
        },
        Step::Aborted => {
            return Step::Aborted;
        },
    }
    match Operator::from_ast_operator(b.operator) {
        Some(op) => {
            emit_op(code, scopes, Opcode::BinaryOp.to_u8());
            emit_op(code, scopes, op.to_u8());
            Step::Done(())
        },
        None => Step::Failed(Error::CompilationError("Binary operator is missing".to_string())),
    }
}

fn compile_if(code: &mut CodeObject, scopes: &mut Vec<Scope>, node: &ASTNode) -> (r: Step<()>)
    requires
        node is If,
        jumps_ok(state_of(*old(code), old(scopes)@)),
    ensures
        compiled_node(state_of(*old(code), old(scopes)@), node.node(), r, state_of(*final(code), final(scopes)@)),
    decreases node, 0int,
{
    let n = match node {
        ASTNode::If(n) => n,
        _ => {
            return Step::Aborted;
        },
    };
    assert(node.node() == Node::If(Box::new(n.test.node()), Box::new(n.body.node())));
    match compile_node(code, scopes, &n.test) {
        Step::Done(_) => {},
        Step::Failed(e) => {
            return Step::Failed(e);
        },
        Step::Aborted => {
            return Step::Aborted;
        },
    }
    emit_op(code, scopes, Opcode::PopAndJumpIfFalse.to_u8());
    emit_op(code, scopes, 0);
    let count = code.instructions_count();
    proof {
        lemma_index_byte(count);
    }
    #[verifier::truncate]
    let count_byte = count as u8;
    if count_byte == 0 {
        return Step::Aborted;
    }
    let jump_index = count_byte - 1;
    match compile_node(code, scopes, &n.body) {
        Step::Done(_) => {},
        Step::Failed(e) => {
            return Step::Failed(e);
        },
        Step::Aborted => {
            return Step::Aborted;
        },
    }
    let end = code.instructions_count();
    proof {
        lemma_index_byte(end);
    }
    #[verifier::truncate]
    let end_byte = end as u8;
    set_op(code, scopes, jump_index as usize, end_byte);
    Step::Done(())
}

fn compile_while(code: &mut CodeObject, scopes: &mut Vec<Scope>, node: &ASTNode) -> (r: Step<()>)
    requires
        node is While,
        jumps_ok(state_of(*old(code), old(scopes)@)),
    ensures
        compiled_node(state_of(*old(code), old(scopes)@), node.node(), r, state_of(*final(code), final(scopes)@)),
    decreases node, 0int,
{
    let w = match node {
        ASTNode::While(w) => w,
        _ => {
            return Step::Aborted;
        },
    };
    assert(node.node() == Node::While(Box::new(w.condition.node()), Box::new(w.body.node())));
    let ghost st = state_of(*code, scopes@);
    assert(compile_spec(node.node(), st) == compile_while_spec(node.node(), st));
    enter_scope(scopes, ScopeType::While);
    let ghost s0 = state_of(*code, scopes@);
    assert(s0 =~= enter_scope_spec(st, ScopeType::While));
    assert(jumps_ok(s0)) by {
        assert forall|i: int, k: int|
            0 <= i < s0.scopes.len() && 0 <= k < s0.scopes[i].jumps.len() implies #[trigger] s0.scopes[i].jumps[k]
                < s0.code.code.len() by {
            assert(i < st.scopes.len());
            assert(s0.scopes[i] == st.scopes[i]);
        }
    }
    let start = code.instructions_count();
    proof {
        lemma_index_byte(start);
    }
    #[verifier::truncate]
    let condition_target = start as u8;
    match compile_node(code, scopes, &w.condition) {
        Step::Done(_) => {},
        Step::Failed(e) => {
            return Step::Failed(e);
        },
        Step::Aborted => {
            return Step::Aborted;
        },
    }
    let ghost s1 = state_of(*code, scopes@);
    emit_op(code, scopes, Opcode::PopAndJumpIfFalse.to_u8());
    let operand = code.instructions_count();
    proof {
        lemma_index_byte(operand);
    }
    #[verifier::truncate]
    let jump_target = operand as u8;
    emit_op(code, scopes, 0);
    let ghost s2 = state_of(*code, scopes@);
    assert(s2 == emit(emit(s1, 9), 0));
    push_jump(scopes, jump_target as usize);
    let ghost s3 = state_of(*code, scopes@);
    assert(s3 =~= push_jump_spec(s2, (operand as int % 256) as usize));
    assert(jumps_ok(s3)) by {
        assert forall|i: int, k: int|
            0 <= i < s3.scopes.len() && 0 <= k < s3.scopes[i].jumps.len() implies #[trigger] s3.scopes[i].jumps[k]
                < s3.code.code.len() by {
            if i < s3.scopes.len() - 1 {
                assert(s3.scopes[i] == s2.scopes[i]);
            } else if k < s2.scopes[i].jumps.len() {
                assert(s3.scopes[i].jumps[k] == s2.scopes[i].jumps[k]);
            }
        }
    }
    match compile_node(code, scopes, &w.body) {
        Step::Done(_) => {},
        Step::Failed(e) => {
            return Step::Failed(e);
        },
        Step::Aborted => {
            return Step::Aborted;
        },
    }
    let ghost s4 = state_of(*code, scopes@);
    let end = code.instructions_count();
    proof {
        lemma_index_byte(end);
    }
    #[verifier::truncate]
    let end_target = end as u8;
    if end_target < condition_target || end_target - condition_target > 253 {
        return Step::Aborted;
    }
    let jump_offset = end_target - condition_target + 2;
    assert(loop_offset(end as int % 256, start as int % 256) == Some(jump_offset));
    emit_op(code, scopes, Opcode::JumpBack.to_u8());
    emit_op(code, scopes, jump_offset);
    let ghost s5 = state_of(*code, scopes@);
    assert(s5 == emit2(s4, 8, jump_offset));
    let total = code.instructions_count();
    backpatch(code, scopes, total - 1);
    exit_scope(code, scopes);
    Step::Done(())
}

fn compile_break(code: &mut CodeObject, scopes: &mut Vec<Scope>) -> (r: Step<()>)
    requires
        jumps_ok(state_of(*old(code), old(scopes)@)),
    ensures
        compiled_node(state_of(*old(code), old(scopes)@), Node::Break, r, state_of(*final(code), final(scopes)@)),
{
    if !innermost_is(scopes, ScopeType::While) {
        return Step::Failed(Error::SyntaxError("Break statement outside of loop".to_string()));
    }
    emit_op(code, scopes, Opcode::Jump.to_u8());
    emit_op(code, scopes, 0);
    let count = code.instructions_count();
    push_jump(scopes, count - 1);
    Step::Done(())
}

fn compile_block(code: &mut CodeObject, scopes: &mut Vec<Scope>, node: &ASTNode) -> (r: Step<()>)
    requires
        node is Block,
        jumps_ok(state_of(*old(code), old(scopes)@)),
    ensures
        compiled_node(state_of(*old(code), old(scopes)@), node.node(), r, state_of(*final(code), final(scopes)@)),
    decreases node, 0int,
{
    let b = match node {
        ASTNode::Block(b) => b,
        _ => {
            return Step::Aborted;
        },
    };
    assert(node.node() == Node::Block(nodes_view(b.statements@)));
    let ghost st0 = state_of(*code, scopes@);
    let ghost xs = nodes_view(b.statements@);
    proof {
        lemma_nodes_view_len(b.statements@);
        assert(xs.subrange(0, xs.len() as int) =~= xs);
    }
    let mut i: usize = 0;
    while i < b.statements.len()
        invariant
            0 <= i <= b.statements@.len(),
            xs == nodes_view(b.statements@),
            xs.len() == b.statements@.len(),
            forall|j: int| 0 <= j < xs.len() ==> #[trigger] xs[j] == b.statements@[j].node(),
            node.node() == Node::Block(xs),
            node is Block && *b == node->Block_0,
            st0 == state_of(*old(code), old(scopes)@),
            compile_block_spec(xs, st0) == compile_block_spec(
                xs.subrange(i as int, xs.len() as int),
                state_of(*code, scopes@),
            ),
            jumps_ok(state_of(*code, scopes@)),
            state_of(*code, scopes@).code.code.len() >= st0.code.code.len(),
            state_of(*code, scopes@).scopes.len() == st0.scopes.len(),
        decreases b.statements@.len() - i,
    {
        let ghost rest = xs.subrange(i as int, xs.len() as int);
        proof {
            assert(rest[0] == xs[i as int]);
            assert(rest.subrange(1, rest.len() as int) =~= xs.subrange(i + 1, xs.len() as int));
        }
        let statement = &b.statements[i];
        let is_break = match &**statement {
            ASTNode::Break() => true,
            _ => false,
        };
        proof {
            assert(*b == node->Block_0);
            assert(decreases_to!(*node => node->Block_0));
            assert(decreases_to!(*b => b.statements));
            assert(decreases_to!(b.statements => b.statements@));
            assert(decreases_to!(b.statements@ => b.statements@[i as int]));
        }
        if is_break {
            return compile_node(code, scopes, statement);
        }
        match compile_node(code, scopes, statement) {
            Step::Done(_) => {},
            Step::Failed(e) => {
                return Step::Failed(e);
            },
            Step::Aborted => {
                return Step::Aborted;
            },
        }
        if statement.is_expression() {
            emit_op(code, scopes, Opcode::PopTop.to_u8());
        }
        i = i + 1;
    }
    proof {
        assert(xs.subrange(i as int, xs.len() as int) =~= Seq::<Node>::empty());
    }
    Step::Done(())
}

fn compile_return(code: &mut CodeObject, scopes: &mut Vec<Scope>, node: &ASTNode) -> (r: Step<()>)
    requires
        node is Return,
        jumps_ok(state_of(*old(code), old(scopes)@)),
    ensures
        compiled_node(state_of(*old(code), old(scopes)@), node.node(), r, state_of(*final(code), final(scopes)@)),
    decreases node, 0int,
{
    let n = match node {
        ASTNode::Return(n) => n,
        _ => {
            return Step::Aborted;
        },
    };
    assert(node.node() == Node::Return(crate::ast::option_view(n.value)));
    if !innermost_is(scopes, ScopeType::Function) {
        return Step::Failed(Error::SyntaxError("Return statement outside of function".to_string()));
    }
    match &n.value {
        Some(v) => {
            match compile_node(code, scopes, v) {
                Step::Done(_) => {},
                Step::Failed(e) => {
                    return Step::Failed(e);
                },
                Step::Aborted => {
                    return Step::Aborted;
                },
            }
        },
        None => {
            named_op(code, scopes, 2, "None".to_string());
        },
    }
    emit_op(code, scopes, Opcode::Return.to_u8());
    Step::Done(())
}

fn compile_raise(code: &mut CodeObject, scopes: &mut Vec<Scope>, node: &ASTNode) -> (r: Step<()>)
    requires
        node is Raise,
        jumps_ok(state_of(*old(code), old(scopes)@)),
    ensures
        compiled_node(state_of(*old(code), old(scopes)@), node.node(), r, state_of(*final(code), final(scopes)@)),
    decreases node, 0int,
{
    let n = match node {
        ASTNode::Raise(n) => n,
        _ => {
            return Step::Aborted;
        },
    };
    assert(node.node() == Node::Raise(crate::ast::option_view(n.message)));
    match &n.message {
        Some(v) => {
            match compile_node(code, scopes, v) {
                Step::Done(_) => {},
                Step::Failed(e) => {
                    return Step::Failed(e);
                },
                Step::Aborted => {
                    return Step::Aborted;
                },
            }
        },
        None => {
            named_op(code, scopes, 2, "None".to_string());
        },
    }
    emit_op(code, scopes, Opcode::Raise.to_u8());
    Step::Done(())
}


/// Compiles a syntax tree into a code object.
pub struct Compiler {
    ast: Arc<ASTNode>,
    code: CodeObject,
    scopes: Vec<Scope>,
}

impl Compiler {
    /// The tree that this compiler compiles.
    pub closed spec fn tree(&self) -> Node {
        (*self.ast).node()
    }

    /// The code written so far and the open scopes.
    pub closed spec fn state(&self) -> CompileState {
        state_of(self.code, self.scopes@)
    }

    /// The jumps that the open scopes record lie inside the code.
    pub open spec fn wf(&self) -> bool {
        jumps_ok(self.state())
    }

    /// A compiler for `ast`, with empty code and no open scope.
    pub fn new(ast: Arc<ASTNode>) -> (c: Self)
        ensures
            c.tree() == (*ast).node(),
            c.state() == class_start(),
            c.wf(),
    {
        let c = Compiler { ast, code: CodeObject::new(), scopes: Vec::new() };
        assert(c.state() =~= class_start());
        c
    }

    /// Compiles the tree into the code; `None` where the byte arithmetic of the compiler
    /// overflows (see [`compile_spec`]).
    pub fn try_compile(&mut self) -> (r: Option<Result<(), Error>>)
        requires
            old(self).wf(),
        ensures
            final(self).tree() == old(self).tree(),
            match compile_spec(old(self).tree(), old(self).state()).0 {
                Outcome::Done => r == Some(Ok::<(), Error>(())),
                Outcome::Failed(e) => r matches Some(Err(err)) && err@ == e,
                Outcome::Panic => r is None,
            },
            !(compile_spec(old(self).tree(), old(self).state()).0 is Panic) ==> final(self).state()
                == compile_spec(old(self).tree(), old(self).state()).1,
            final(self).wf(),
            compile_spec(old(self).tree(), old(self).state()).0 is Done ==> final(self).state().code.code.len()
                >= old(self).state().code.code.len(),
    {
        match compile_node(&mut self.code, &mut self.scopes, &*self.ast) {
            Step::Done(_) => Some(Ok(())),
            Step::Failed(e) => Some(Err(e)),
            Step::Aborted => None,
        }
    }

    /// Compiles the tree into the code.
    pub fn compile(&mut self) -> (r: Result<(), Error>)
        requires
            old(self).wf(),
            !(compile_spec(old(self).tree(), old(self).state()).0 is Panic),
        ensures
            final(self).tree() == old(self).tree(),
            final(self).state() == compile_spec(old(self).tree(), old(self).state()).1,
            final(self).wf(),
            compile_spec(old(self).tree(), old(self).state()).0 is Done ==> final(self).state().code.code.len()
                >= old(self).state().code.code.len(),
            match compile_spec(old(self).tree(), old(self).state()).0 {
                Outcome::Done => r is Ok,
                Outcome::Failed(e) => r matches Err(err) && err@ == e,
                Outcome::Panic => false,
            },
    {
        match self.try_compile() {
            Some(r) => r,
            None => Ok(()),
        }
    }

    /// A copy of the code written so far.
    pub fn get_output(&self) -> (c: CodeObject)
        ensures
            c@ == self.state().code,
    {
        self.code.copy()
    }
}

impl ASTNode {
    /// Compiles this node into the compiler's code, within its open scopes.
    pub fn compile(&self, compiler: &mut Compiler) -> (r: Result<(), Error>)
        requires
            old(compiler).wf(),
            !(compile_spec(self.node(), old(compiler).state()).0 is Panic),
        ensures
            final(compiler).tree() == old(compiler).tree(),
            final(compiler).state() == compile_spec(self.node(), old(compiler).state()).1,
            final(compiler).wf(),
            match compile_spec(self.node(), old(compiler).state()).0 {
                Outcome::Done => r is Ok,
                Outcome::Failed(e) => r matches Err(err) && err@ == e,
                Outcome::Panic => false,
            },
    {
        match compile_node(&mut compiler.code, &mut compiler.scopes, self) {
            Step::Done(_) => Ok(()),
            Step::Failed(e) => Err(e),
            Step::Aborted => Ok(()),
        }
    }
}

// ----------------------------------------------------------------------------------------
// Laws of the compilation
// ----------------------------------------------------------------------------------------

/// The scopes `after` continue the scopes `before`: as many, of the same types, and each
/// keeping its recorded jumps as the start of its list.
pub open spec fn scopes_extend(before: Seq<ScopeView>, after: Seq<ScopeView>) -> bool {
    &&& after.len() == before.len()
    &&& forall|i: int|
        0 <= i < before.len() ==> {
            &&& (#[trigger] after[i]).kind == before[i].kind
            &&& before[i].jumps.len() <= after[i].jumps.len()
            &&& after[i].jumps.subrange(0, before[i].jumps.len() as int) == before[i].jumps
        }
}

proof fn lemma_scopes_extend_refl(sc: Seq<ScopeView>)
    ensures
        scopes_extend(sc, sc),
{
    assert forall|i: int| 0 <= i < sc.len() implies sc[i].jumps.subrange(
        0,
        sc[i].jumps.len() as int,
    ) == sc[i].jumps by {
        assert(sc[i].jumps.subrange(0, sc[i].jumps.len() as int) =~= sc[i].jumps);
    }
}

proof fn lemma_scopes_extend_trans(a: Seq<ScopeView>, b: Seq<ScopeView>, c: Seq<ScopeView>)
    requires
        scopes_extend(a, b),
        scopes_extend(b, c),
    ensures
        scopes_extend(a, c),
{
    assert forall|i: int| 0 <= i < a.len() implies {
        &&& (#[trigger] c[i]).kind == a[i].kind
        &&& a[i].jumps.len() <= c[i].jumps.len()
        &&& c[i].jumps.subrange(0, a[i].jumps.len() as int) == a[i].jumps
    } by {
        assert(b[i].jumps.subrange(0, a[i].jumps.len() as int) == a[i].jumps);
        assert(c[i].jumps.subrange(0, b[i].jumps.len() as int) == b[i].jumps);
        assert(c[i].jumps.subrange(0, a[i].jumps.len() as int) =~= c[i].jumps.subrange(
            0,
            b[i].jumps.len() as int,
        ).subrange(0, a[i].jumps.len() as int));
    }
}

/// Recording a jump in the innermost scope continues the scopes.
pub(crate) proof fn lemma_push_jump_extends(st: CompileState, j: usize)
    requires
        st.scopes.len() > 0,
        jumps_ok(st),
        j < st.code.code.len(),
    ensures
        scopes_extend(st.scopes, push_jump_spec(st, j).scopes),
        jumps_ok(push_jump_spec(st, j)),
        push_jump_spec(st, j).scopes.last().jumps == st.scopes.last().jumps.push(j),
{
    let s = push_jump_spec(st, j);
    let n = st.scopes.len() - 1;
    assert forall|i: int| 0 <= i < st.scopes.len() implies {
        &&& (#[trigger] s.scopes[i]).kind == st.scopes[i].kind
        &&& st.scopes[i].jumps.len() <= s.scopes[i].jumps.len()
        &&& s.scopes[i].jumps.subrange(0, st.scopes[i].jumps.len() as int) == st.scopes[i].jumps
    } by {
        if i == n {
            assert(s.scopes[i].jumps.subrange(0, st.scopes[i].jumps.len() as int) =~= st.scopes[i].jumps);
        } else {
            assert(s.scopes[i].jumps.subrange(0, st.scopes[i].jumps.len() as int) =~= st.scopes[i].jumps);
        }
    }
    assert forall|i: int, k: int|
        0 <= i < s.scopes.len() && 0 <= k < s.scopes[i].jumps.len() implies #[trigger] s.scopes[i].jumps[k]
            < s.code.code.len() by {
        if i == n && k == st.scopes[i].jumps.len() {
        } else {
            assert(s.scopes[i].jumps[k] == st.scopes[i].jumps[k]);
        }
    }
}

/// Setting jump operands leaves the other bytes and the length as they are, and sets each
/// listed position to the value.
pub proof fn lemma_patch_at(code: Seq<u8>, jumps: Seq<usize>, v: u8, k: usize)
    requires
        forall|m: int| 0 <= m < jumps.len() ==> #[trigger] jumps[m] < code.len(),
        k < code.len(),
    ensures
        patch(code, jumps, v).len() == code.len(),
        jumps.contains(k) ==> patch(code, jumps, v)[k as int] == v,
        !jumps.contains(k) ==> patch(code, jumps, v)[k as int] == code[k as int],
    decreases jumps.len(),
{
    lemma_patch_len(code, jumps, v);
    if jumps.len() > 0 {
        let rest = jumps.subrange(1, jumps.len() as int);
        let c1 = code.update(jumps[0] as int, v);
        lemma_patch_at(c1, rest, v, k);
        if jumps[0] == k {
            assert(c1[k as int] == v);
        } else {
            assert(c1[k as int] == code[k as int]);
        }
        if jumps.contains(k) && !rest.contains(k) {
            let m = choose|m: int| 0 <= m < jumps.len() && jumps[m] == k;
            if m > 0 {
                assert(rest[m - 1] == k);
            }
        }
        if rest.contains(k) {
            let m = choose|m: int| 0 <= m < rest.len() && rest[m] == k;
            assert(jumps[m + 1] == k);
        }
    }
}

proof fn lemma_last_jumps_in_code(st: CompileState)
    requires
        jumps_ok(st),
        st.scopes.len() > 0,
    ensures
        forall|m: int|
            0 <= m < st.scopes.last().jumps.len() ==> #[trigger] st.scopes.last().jumps[m]
                < st.code.code.len(),
{
    assert forall|m: int| 0 <= m < st.scopes.last().jumps.len() implies #[trigger] st.scopes.last().jumps[m]
        < st.code.code.len() by {
        assert(st.scopes[st.scopes.len() - 1].jumps[m] < st.code.code.len());
    }
}

/// Pointing the innermost jumps at a target keeps the code's length, the scopes, and the jumps
/// inside the code.
pub(crate) proof fn lemma_backpatch_keeps(st: CompileState, target: int)
    requires
        jumps_ok(st),
    ensures
        jumps_ok(backpatch_spec(st, target)),
        backpatch_spec(st, target).code.code.len() == st.code.code.len(),
        backpatch_spec(st, target).scopes == st.scopes,
{
    if st.scopes.len() > 0 {
        lemma_last_jumps_in_code(st);
        lemma_patch_len(st.code.code, st.scopes.last().jumps, index_byte(target));
    }
}

/// Closing the innermost scope keeps the code's length and the jumps inside the code.
pub(crate) proof fn lemma_exit_keeps(st: CompileState)
    requires
        jumps_ok(st),
    ensures
        jumps_ok(exit_scope_spec(st)),
        exit_scope_spec(st).code.code.len() == st.code.code.len(),
        st.scopes.len() > 0 ==> exit_scope_spec(st).scopes == st.scopes.drop_last(),
{
    if st.scopes.len() > 0 {
        lemma_last_jumps_in_code(st);
        lemma_patch_len(st.code.code, st.scopes.last().jumps, index_byte(st.code.code.len() as int));
        let e = exit_scope_spec(st);
        assert forall|i: int, k: int|
            0 <= i < e.scopes.len() && 0 <= k < e.scopes[i].jumps.len() implies #[trigger] e.scopes[i].jumps[k]
                < e.code.code.len() by {
            assert(e.scopes[i] == st.scopes[i]);
        }
    }
}

/// What a compilation step keeps: the jumps inside the code; and, where it is done, a code
/// at least as long and scopes that continue the ones it found.
pub open spec fn keeps(st: CompileState, r: (Outcome, CompileState)) -> bool {
    &&& jumps_ok(r.1)
    &&& r.0 is Done ==> {
        &&& r.1.code.code.len() >= st.code.code.len()
        &&& scopes_extend(st.scopes, r.1.scopes)
    }
}

/// Compilation keeps the jumps that the open scopes record inside the code, never shortens
/// the code, and, where it is done, leaves the scopes it found open, each with its jumps
/// kept and new ones only appended.
pub proof fn law_compile_keeps_scopes_and_jumps(n: Node, st: CompileState)
    requires
        jumps_ok(st),
    ensures
        keeps(st, compile_spec(n, st)),
    decreases n, 1int,
{
    lemma_scopes_extend_refl(st.scopes);
    match n {
        Node::Module(b) => {
            law_compile_keeps_scopes_and_jumps(*b, st);
        },
        Node::MethodCall(..) => {
            lemma_methodcall_keeps(n, st);
        },
        Node::Assignment(..) => {
            lemma_assignment_keeps(n, st);
        },
        Node::Attribute(obj, _) => {
            law_compile_keeps_scopes_and_jumps(*obj, st);
        },
        Node::Compare(..) => {
            lemma_compare_keeps(n, st);
        },
        Node::BinOp(..) => {
            lemma_binop_keeps(n, st);
        },
        Node::If(..) => {
            lemma_if_keeps(n, st);
        },
        Node::While(..) => {
            lemma_while_keeps(n, st);
        },
        Node::Break => {
            if in_scope(st, ScopeType::While) {
                let s1 = emit2(st, 10, 0);
                lemma_push_jump_extends(s1, (s1.code.code.len() - 1) as usize);
            }
        },
        Node::Block(stmts) => {
            lemma_compile_block_keeps(stmts, st);
        },
        Node::Return(v) => {
            match v {
                Some(e) => {
                    law_compile_keeps_scopes_and_jumps(*e, st);
                },
                None => {},
            }
        },
        Node::Raise(v) => {
            match v {
                Some(e) => {
                    law_compile_keeps_scopes_and_jumps(*e, st);
                },
                None => {},
            }
        },
        _ => {},
    }
}

proof fn lemma_methodcall_keeps(n: Node, st: CompileState)
    requires
        n is MethodCall,
        jumps_ok(st),
    ensures
        keeps(st, compile_spec(n, st)),
    decreases n, 0int,
{
    lemma_scopes_extend_refl(st.scopes);
    match n {
        Node::MethodCall(f, args) => {
            law_compile_keeps_scopes_and_jumps(*f, st);
            let (o1, s1) = compile_spec(*f, st);
            if o1 is Done {
                lemma_compile_list_keeps(args, s1);
                let (o2, s2) = compile_list_spec(args, s1);
                if o2 is Done {
                    lemma_scopes_extend_trans(st.scopes, s1.scopes, s2.scopes);
                }
            }
        },
        _ => {},
    }
}

proof fn lemma_assignment_keeps(n: Node, st: CompileState)
    requires
        n is Assignment,
        jumps_ok(st),
    ensures
        keeps(st, compile_spec(n, st)),
    decreases n, 0int,
{
    lemma_scopes_extend_refl(st.scopes);
    match n {
        Node::Assignment(name, value) => {
            law_compile_keeps_scopes_and_jumps(*value, st);
            let (o1, s1) = compile_spec(*value, st);
            if o1 is Done {
                match *name {
                    Node::Attribute(obj, _) => {
                        law_compile_keeps_scopes_and_jumps(*obj, s1);
                        let (o2, s2) = compile_spec(*obj, s1);
                        if o2 is Done {
                            lemma_scopes_extend_trans(st.scopes, s1.scopes, s2.scopes);
                        }
                    },
                    _ => {},
                }
            }
        },
        _ => {},
    }
}

proof fn lemma_compare_keeps(n: Node, st: CompileState)
    requires
        n is Compare,
        jumps_ok(st),
    ensures
        keeps(st, compile_spec(n, st)),
    decreases n, 0int,
{
    lemma_scopes_extend_refl(st.scopes);
    match n {
        Node::Compare(l, _, r) => {
            law_compile_keeps_scopes_and_jumps(*l, st);
            let (o1, s1) = compile_spec(*l, st);
            if o1 is Done {
                law_compile_keeps_scopes_and_jumps(*r, s1);
                let (o2, s2) = compile_spec(*r, s1);
                if o2 is Done {
                    lemma_scopes_extend_trans(st.scopes, s1.scopes, s2.scopes);
                }
            }
        },
        _ => {},
    }
}

proof fn lemma_binop_keeps(n: Node, st: CompileState)
    requires
        n is BinOp,
        jumps_ok(st),
    ensures
        keeps(st, compile_spec(n, st)),
    decreases n, 0int,
{
    lemma_scopes_extend_refl(st.scopes);
    match n {
        Node::BinOp(l, _, r) => {
            law_compile_keeps_scopes_and_jumps(*l, st);
            let (o1, s1) = compile_spec(*l, st);
            if o1 is Done {
                law_compile_keeps_scopes_and_jumps(*r, s1);
                let (o2, s2) = compile_spec(*r, s1);
                if o2 is Done {
                    lemma_scopes_extend_trans(st.scopes, s1.scopes, s2.scopes);
                }
            }
        },
        _ => {},
    }
}

proof fn lemma_if_keeps(n: Node, st: CompileState)
    requires
        n is If,
        jumps_ok(st),
    ensures
        keeps(st, compile_spec(n, st)),
    decreases n, 0int,
{
    lemma_scopes_extend_refl(st.scopes);
    match n {
        Node::If(test, body) => {
            law_compile_keeps_scopes_and_jumps(*test, st);
            let (o1, s1) = compile_spec(*test, st);
            if o1 is Done {
                let s2 = emit2(s1, 9, 0);
                let count = s2.code.code.len() as int % 256;
                if count != 0 {
                    law_compile_keeps_scopes_and_jumps(*body, s2);
                    let (o3, s3) = compile_spec(*body, s2);
                    if o3 is Done {
                        lemma_scopes_extend_trans(st.scopes, s1.scopes, s3.scopes);
                    }
                }
            }
        },
        _ => {},
    }
}

proof fn lemma_while_keeps(n: Node, st: CompileState)
    requires
        n is While,
        jumps_ok(st),
    ensures
        keeps(st, compile_spec(n, st)),
    decreases n, 0int,
{
    lemma_scopes_extend_refl(st.scopes);
    assert(compile_spec(n, st) == compile_while_spec(n, st));
    match n {
        Node::While(cond, body) => {
            let s0 = enter_scope_spec(st, ScopeType::While);
            assert(jumps_ok(s0)) by {
                assert forall|i: int, k: int|
                    0 <= i < s0.scopes.len() && 0 <= k < s0.scopes[i].jumps.len() implies #[trigger] s0.scopes[i].jumps[k]
                        < s0.code.code.len() by {
                    assert(s0.scopes[i] == st.scopes[i]);
                }
            }
            law_compile_keeps_scopes_and_jumps(*cond, s0);
            let (o1, s1) = compile_spec(*cond, s0);
            if o1 is Done {
                let s2 = emit(s1, 9);
                let operand = s2.code.code.len() as int % 256;
                let s3 = push_jump_spec(emit(s2, 0), operand as usize);
                lemma_push_jump_extends(emit(s2, 0), operand as usize);
                law_compile_keeps_scopes_and_jumps(*body, s3);
                let (o2, s4) = compile_spec(*body, s3);
                if o2 is Done {
                    lemma_scopes_extend_trans(s0.scopes, s1.scopes, s3.scopes);
                    lemma_scopes_extend_trans(s0.scopes, s3.scopes, s4.scopes);
                    let end = s4.code.code.len() as int % 256;
                    let start = s0.code.code.len() as int % 256;
                    match loop_offset(end, start) {
                        Some(offset) => {
                            let s5 = emit2(s4, 8, offset);
                            lemma_backpatch_keeps(s5, s5.code.code.len() - 1);
                            let s6 = backpatch_spec(s5, s5.code.code.len() - 1);
                            lemma_exit_keeps(s6);
                            let s7 = exit_scope_spec(s6);
                            assert forall|i: int| 0 <= i < st.scopes.len() implies {
                                &&& (#[trigger] s7.scopes[i]).kind == st.scopes[i].kind
                                &&& st.scopes[i].jumps.len() <= s7.scopes[i].jumps.len()
                                &&& s7.scopes[i].jumps.subrange(0, st.scopes[i].jumps.len() as int)
                                    == st.scopes[i].jumps
                            } by {
                                assert(s7.scopes[i] == s4.scopes[i]);
                                assert(s0.scopes[i] == st.scopes[i]);
                            }
                        },
                        None => {},
                    }
                }
            }
        },
        _ => {},
    }
}

pub(crate) proof fn lemma_compile_list_keeps(xs: Seq<Node>, st: CompileState)
    requires
        jumps_ok(st),
    ensures
        keeps(st, compile_list_spec(xs, st)),
    decreases xs, 0int,
{
    lemma_scopes_extend_refl(st.scopes);
    if xs.len() > 0 {
        law_compile_keeps_scopes_and_jumps(xs[0], st);
        let (o, s1) = compile_spec(xs[0], st);
        if o is Done {
            let rest = xs.subrange(1, xs.len() as int);
            lemma_compile_list_keeps(rest, s1);
            let (o2, s2) = compile_list_spec(rest, s1);
            if o2 is Done {
                lemma_scopes_extend_trans(st.scopes, s1.scopes, s2.scopes);
            }
        }
    }
}

pub(crate) proof fn lemma_compile_block_keeps(xs: Seq<Node>, st: CompileState)
    requires
        jumps_ok(st),
    ensures
        keeps(st, compile_block_spec(xs, st)),
    decreases xs, 0int,
{
    lemma_scopes_extend_refl(st.scopes);
    if xs.len() > 0 {
        law_compile_keeps_scopes_and_jumps(xs[0], st);
        if !(xs[0] is Break) {
            let (o, s1) = compile_spec(xs[0], st);
            if o is Done {
                let s2 = if is_expression_node(xs[0]) {
                    emit(s1, 4)
                } else {
                    s1
                };
                lemma_scopes_extend_refl(s1.scopes);
                let rest = xs.subrange(1, xs.len() as int);
                lemma_compile_block_keeps(rest, s2);
                let (o2, s3) = compile_block_spec(rest, s2);
                if o2 is Done {
                    lemma_scopes_extend_trans(st.scopes, s2.scopes, s3.scopes);
                }
            }
        }
    }
}

/// A jump recorded in the innermost scope is still recorded there once the scopes continue.
proof fn lemma_jump_kept(s3: CompileState, s4: CompileState, j: usize)
    requires
        scopes_extend(s3.scopes, s4.scopes),
        s3.scopes.len() > 0,
        s3.scopes.last().jumps.contains(j),
    ensures
        s4.scopes.last().jumps.contains(j),
{
    let last = s3.scopes.len() - 1;
    let j3 = s3.scopes[last].jumps;
    let j4 = s4.scopes[last].jumps;
    let m = choose|m: int| 0 <= m < j3.len() && j3[m] == j;
    assert(j4.subrange(0, j3.len() as int) == j3);
    assert(j4.subrange(0, j3.len() as int)[m] == j4[m]);
}

/// The end of a loop: after the jump back is written and the loop's jumps are pointed past
/// it, the jump back and its operand are untouched, and each of the loop's jumps points at
/// the end of the code.
proof fn lemma_loop_end(s4: CompileState, offset: u8, c1: usize)
    requires
        jumps_ok(s4),
        s4.scopes.len() > 0,
        s4.scopes.last().jumps.contains(c1),
        s4.code.code.len() + 2 <= 255,
    ensures
        ({
            let s5 = emit2(s4, 8, offset);
            let s7 = exit_scope_spec(backpatch_spec(s5, s5.code.code.len() - 1));
            let l = s5.code.code.len();
            &&& s7.code.code.len() == l
            &&& s7.code.code[l - 2] == 8
            &&& s7.code.code[l - 1] == offset
            &&& s7.code.code[c1 as int] == l
        }),
{
    let s5 = emit2(s4, 8, offset);
    let l = s5.code.code.len();
    let jumps = s4.scopes.last().jumps;
    lemma_last_jumps_in_code(s4);
    assert(s5.scopes == s4.scopes);
    lemma_last_jumps_in_code(s5);
    assert(!jumps.contains((l - 2) as usize));
    assert(!jumps.contains((l - 1) as usize));
    let v6 = index_byte(l - 1);
    lemma_patch_at(s5.code.code, jumps, v6, (l - 2) as usize);
    lemma_patch_at(s5.code.code, jumps, v6, (l - 1) as usize);
    lemma_backpatch_keeps(s5, l - 1);
    let s6 = backpatch_spec(s5, l - 1);
    lemma_last_jumps_in_code(s6);
    let v7 = index_byte(l as int);
    lemma_patch_at(s6.code.code, jumps, v7, (l - 2) as usize);
    lemma_patch_at(s6.code.code, jumps, v7, (l - 1) as usize);
    lemma_patch_at(s6.code.code, jumps, v7, c1);
}

/// A compiled loop jumps as it should. Where the code of a `while` loop ends before byte 256,
/// its last instruction is `JumpBack` by exactly the distance from the end of the code back
/// to the first byte of the condition, and the operand of the conditional jump that follows
/// the condition points at the end of the loop.
pub proof fn law_while_jumps(n: Node, st: CompileState)
    requires
        n is While,
        jumps_ok(st),
        compile_spec(n, st).0 is Done,
        compile_spec(n, st).1.code.code.len() <= 255,
    ensures
        ({
            let s = compile_spec(n, st).1.code.code;
            let c = compile_spec(*n->While_0, enter_scope_spec(st, ScopeType::While)).1.code.code.len();
            &&& s.len() >= 2
            &&& s[s.len() - 2] == 8
            &&& s.len() - s[s.len() - 1] == st.code.code.len()
            &&& c + 1 < s.len()
            &&& s[c + 1int] == s.len()
        }),
{
    assert(compile_spec(n, st) == compile_while_spec(n, st));
    let cond = *n->While_0;
    let body = *n->While_1;
    let s0 = enter_scope_spec(st, ScopeType::While);
    assert(jumps_ok(s0)) by {
        assert forall|i: int, k: int|
            0 <= i < s0.scopes.len() && 0 <= k < s0.scopes[i].jumps.len() implies #[trigger] s0.scopes[i].jumps[k]
                < s0.code.code.len() by {
            assert(s0.scopes[i] == st.scopes[i]);
        }
    }
    law_compile_keeps_scopes_and_jumps(cond, s0);
    let s1 = compile_spec(cond, s0).1;
    let c = s1.code.code.len();
    let s2 = emit(s1, 9);
    let operand = s2.code.code.len() as int % 256;
    let s3 = push_jump_spec(emit(s2, 0), operand as usize);
    let s4 = compile_spec(body, s3).1;
    let end = s4.code.code.len() as int % 256;
    let start = s0.code.code.len() as int % 256;
    let offset = loop_offset(end, start)->0;
    let s5 = emit2(s4, 8, offset);
    assert(compile_while_spec(n, st).1 == exit_scope_spec(backpatch_spec(s5, s5.code.code.len() - 1)));
    lemma_push_jump_extends(emit(s2, 0), operand as usize);
    law_compile_keeps_scopes_and_jumps(body, s3);
    assert(s4.code.code.len() >= c + 2);
    lemma_backpatch_keeps(s5, s5.code.code.len() - 1);
    lemma_exit_keeps(backpatch_spec(s5, s5.code.code.len() - 1));
    assert(s4.code.code.len() + 2 <= 255);
    assert(operand == c + 1);
    assert(s3.scopes.last().jumps.contains((c + 1) as usize)) by {
        let j3 = s3.scopes.last().jumps;
        assert(j3[j3.len() - 1] == (c + 1) as usize);
    }
    lemma_jump_kept(s3, s4, (c + 1) as usize);
    lemma_loop_end(s4, offset, (c + 1) as usize);
}

/// `after` continues `before` without touching it: the code of `before` is kept byte for byte,
/// the scopes continue, and every jump recorded since lies past the code of `before`.
pub open spec fn untouched(before: CompileState, after: CompileState) -> bool {
    &&& before.code.code.len() <= after.code.code.len()
    &&& scopes_extend(before.scopes, after.scopes)
    &&& forall|i: int|
        0 <= i < before.code.code.len() ==> #[trigger] after.code.code[i] == before.code.code[i]
    &&& forall|s: int, k: int|
        0 <= s < before.scopes.len() && before.scopes[s].jumps.len() <= k < after.scopes[s].jumps.len()
            ==> #[trigger] after.scopes[s].jumps[k] >= before.code.code.len()
}

proof fn lemma_untouched_trans(a: CompileState, b: CompileState, c: CompileState)
    requires
        untouched(a, b),
        untouched(b, c),
    ensures
        untouched(a, c),
{
    lemma_scopes_extend_trans(a.scopes, b.scopes, c.scopes);
    assert forall|i: int| 0 <= i < a.code.code.len() implies #[trigger] c.code.code[i]
        == a.code.code[i] by {
        assert(c.code.code[i] == b.code.code[i]);
    }
    assert forall|s: int, k: int|
        0 <= s < a.scopes.len() && a.scopes[s].jumps.len() <= k < c.scopes[s].jumps.len()
            implies #[trigger] c.scopes[s].jumps[k] >= a.code.code.len() by {
        if k < b.scopes[s].jumps.len() {
            assert(c.scopes[s].jumps.subrange(0, b.scopes[s].jumps.len() as int) == b.scopes[s].jumps);
            assert(c.scopes[s].jumps.subrange(0, b.scopes[s].jumps.len() as int)[k]
                == c.scopes[s].jumps[k]);
            assert(b.scopes[s].jumps[k] >= a.code.code.len());
        }
    }
}

/// Code that only grows past the end, under the same scopes, leaves the old code untouched.
proof fn lemma_untouched_growth(a: CompileState, b: CompileState)
    requires
        b.scopes == a.scopes,
        a.code.code.len() <= b.code.code.len(),
        forall|i: int| 0 <= i < a.code.code.len() ==> #[trigger] b.code.code[i] == a.code.code[i],
    ensures
        untouched(a, b),
{
    lemma_scopes_extend_refl(a.scopes);
}

proof fn lemma_untouched_emit(st: CompileState, x: u8)
    ensures
        untouched(st, emit(st, x)),
{
    lemma_untouched_growth(st, emit(st, x));
}

proof fn lemma_untouched_emit2(st: CompileState, x: u8, y: u8)
    ensures
        untouched(st, emit2(st, x, y)),
{
    lemma_untouched_emit(st, x);
    lemma_untouched_emit(emit(st, x), y);
    lemma_untouched_trans(st, emit(st, x), emit2(st, x, y));
}

proof fn lemma_untouched_named(st: CompileState, op: u8, name: Seq<char>)
    ensures
        untouched(st, named(st, op, name)),
{
    let s1 = name_added(st, name);
    lemma_untouched_growth(st, s1);
    lemma_untouched_emit2(s1, op, name_byte(st, name));
    lemma_untouched_trans(st, s1, named(st, op, name));
}

proof fn lemma_untouched_load_const(st: CompileState, c: ConstView)
    ensures
        untouched(st, load_const(st, c)),
{
    let s1 = CompileState { code: CodeView { consts: st.code.consts.push(c), ..st.code }, ..st };
    lemma_untouched_growth(st, s1);
    lemma_untouched_emit2(s1, 0, index_byte(st.code.consts.len() as int));
    lemma_untouched_trans(st, s1, load_const(st, c));
}

/// What a compilation step leaves of the code it started from: where it is done and its code
/// stays below 256 bytes, the old code untouched.
pub open spec fn leaves_untouched(st: CompileState, r: (Outcome, CompileState)) -> bool {
    r.0 is Done && r.1.code.code.len() <= 255 ==> untouched(st, r.1)
}

/// Compiling a node writes only past the code it starts from: the bytes already there stay as
/// they are (so the jumps of enclosing `if`s and loops keep their targets), and the jumps it
/// records lie past them.
pub proof fn law_compile_leaves_code_untouched(n: Node, st: CompileState)
    requires
        jumps_ok(st),
    ensures
        leaves_untouched(st, compile_spec(n, st)),
    decreases n, 1int,
{
    law_compile_keeps_scopes_and_jumps(n, st);
    match n {
        Node::Module(b) => {
            law_compile_leaves_code_untouched(*b, st);
        },
        Node::Identifier(name) => {
            lemma_untouched_named(st, 2, name);
        },
        Node::StringLiteral(t) => {
            lemma_untouched_load_const(st, ConstView::Str(t));
        },
        Node::NumberLiteral(t) => {
            lemma_untouched_load_const(st, ConstView::Number(t));
        },
        Node::MethodCall(f, args) => {
            law_compile_keeps_scopes_and_jumps(*f, st);
            law_compile_leaves_code_untouched(*f, st);
            let (o1, s1) = compile_spec(*f, st);
            if o1 is Done {
                lemma_compile_list_keeps(args, s1);
                lemma_list_untouched(args, s1);
                let (o2, s2) = compile_list_spec(args, s1);
                if o2 is Done {
                    let s3 = emit2(s2, 3, index_byte(args.len() as int));
                    lemma_untouched_emit2(s2, 3, index_byte(args.len() as int));
                    if s3.code.code.len() <= 255 {
                        lemma_untouched_trans(s1, s2, s3);
                        lemma_untouched_trans(st, s1, s3);
                    }
                }
            }
        },
        Node::Assignment(..) => {
            lemma_assignment_untouched(n, st);
        },
        Node::MethodDef(..) => {
            let (o, inner) = compile_spec(n, st);
            if o is Done {
                lemma_definition_untouched(n, st);
            }
        },
        Node::ClassDef(..) => {
            lemma_definition_untouched(n, st);
        },
        Node::Attribute(obj, attr) => {
            law_compile_keeps_scopes_and_jumps(*obj, st);
            law_compile_leaves_code_untouched(*obj, st);
            let (o1, s1) = compile_spec(*obj, st);
            if o1 is Done {
                lemma_untouched_named(s1, 6, attr);
                if named(s1, 6, attr).code.code.len() <= 255 {
                    lemma_untouched_trans(st, s1, named(s1, 6, attr));
                }
            }
        },
        Node::Compare(..) => {
            lemma_two_operands_untouched(n, st);
        },
        Node::BinOp(..) => {
            lemma_two_operands_untouched(n, st);
        },
        Node::If(..) => {
            lemma_if_untouched(n, st);
        },
        Node::While(..) => {
            lemma_while_untouched(n, st);
        },
        Node::Break => {
            if in_scope(st, ScopeType::While) {
                lemma_break_untouched(st);
            }
        },
        Node::Block(stmts) => {
            lemma_block_untouched(stmts, st);
        },
        Node::Return(v) => {
            lemma_ending_untouched(n, st);
        },
        Node::Raise(v) => {
            lemma_ending_untouched(n, st);
        },
        Node::Import(_) => {
            lemma_untouched_growth(st, st);
        },
        Node::UnaryOp(_, _) => {
            lemma_untouched_growth(st, st);
        },
    }
}

proof fn lemma_list_untouched(xs: Seq<Node>, st: CompileState)
    requires
        jumps_ok(st),
    ensures
        leaves_untouched(st, compile_list_spec(xs, st)),
    decreases xs, 0int,
{
    lemma_compile_list_keeps(xs, st);
    if xs.len() == 0 {
        lemma_untouched_growth(st, st);
    } else {
        law_compile_keeps_scopes_and_jumps(xs[0], st);
        law_compile_leaves_code_untouched(xs[0], st);
        let (o, s1) = compile_spec(xs[0], st);
        if o is Done {
            let rest = xs.subrange(1, xs.len() as int);
            lemma_compile_list_keeps(rest, s1);
            lemma_list_untouched(rest, s1);
            let (o2, s2) = compile_list_spec(rest, s1);
            if o2 is Done && s2.code.code.len() <= 255 {
                lemma_untouched_trans(st, s1, s2);
            }
        }
    }
}

proof fn lemma_block_untouched(xs: Seq<Node>, st: CompileState)
    requires
        jumps_ok(st),
    ensures
        leaves_untouched(st, compile_block_spec(xs, st)),
    decreases xs, 0int,
{
    lemma_compile_block_keeps(xs, st);
    if xs.len() == 0 {
        lemma_untouched_growth(st, st);
    } else {
        law_compile_keeps_scopes_and_jumps(xs[0], st);
        law_compile_leaves_code_untouched(xs[0], st);
        if !(xs[0] is Break) {
            let (o, s1) = compile_spec(xs[0], st);
            if o is Done {
                let s2 = if is_expression_node(xs[0]) {
                    emit(s1, 4)
                } else {
                    s1
                };
                if is_expression_node(xs[0]) {
                    lemma_untouched_emit(s1, 4);
                } else {
                    lemma_untouched_growth(s1, s1);
                }
                let rest = xs.subrange(1, xs.len() as int);
                lemma_compile_block_keeps(rest, s2);
                lemma_block_untouched(rest, s2);
                let (o2, s3) = compile_block_spec(rest, s2);
                if o2 is Done && s3.code.code.len() <= 255 {
                    lemma_untouched_trans(s1, s2, s3);
                    lemma_untouched_trans(st, s1, s3);
                }
            }
        }
    }
}

proof fn lemma_untouched_update(a: CompileState, b: CompileState, pos: int, v: u8)
    requires
        untouched(a, b),
        a.code.code.len() <= pos < b.code.code.len(),
    ensures
        untouched(a, with_code(b, b.code.code.update(pos, v))),
{
    let c = with_code(b, b.code.code.update(pos, v));
    assert forall|i: int| 0 <= i < a.code.code.len() implies #[trigger] c.code.code[i]
        == a.code.code[i] by {
        assert(c.code.code[i] == b.code.code[i]);
    }
}

proof fn lemma_untouched_push(a: CompileState, b: CompileState, j: usize)
    requires
        untouched(a, b),
        jumps_ok(b),
        b.scopes.len() > 0,
        a.code.code.len() <= j < b.code.code.len(),
    ensures
        untouched(a, push_jump_spec(b, j)),
{
    let c = push_jump_spec(b, j);
    lemma_push_jump_extends(b, j);
    lemma_scopes_extend_trans(a.scopes, b.scopes, c.scopes);
    let last = b.scopes.len() - 1;
    assert forall|s: int, k: int|
        0 <= s < a.scopes.len() && a.scopes[s].jumps.len() <= k < c.scopes[s].jumps.len()
            implies #[trigger] c.scopes[s].jumps[k] >= a.code.code.len() by {
        if s == last && k == b.scopes[s].jumps.len() {
            assert(c.scopes[s].jumps[k] == j);
        } else if s == last {
            assert(c.scopes[s].jumps[k] == b.scopes[s].jumps[k]);
        } else {
            assert(c.scopes[s] == b.scopes[s]);
        }
    }
}

proof fn lemma_assignment_untouched(n: Node, st: CompileState)
    requires
        n is Assignment,
        jumps_ok(st),
    ensures
        leaves_untouched(st, compile_spec(n, st)),
    decreases n, 0int,
{
    match n {
        Node::Assignment(name, value) => {
            law_compile_keeps_scopes_and_jumps(*value, st);
            law_compile_leaves_code_untouched(*value, st);
            let (o1, s1) = compile_spec(*value, st);
            if o1 is Done {
                match *name {
                    Node::Identifier(id) => {
                        let s2 = named(s1, 1, id);
                        lemma_untouched_named(s1, 1, id);
                        lemma_untouched_named(s2, 2, id);
                        let s3 = named(s2, 2, id);
                        if s3.code.code.len() <= 255 {
                            lemma_untouched_trans(s1, s2, s3);
                            lemma_untouched_trans(st, s1, s3);
                        }
                    },
                    Node::Attribute(obj, attr) => {
                        law_compile_keeps_scopes_and_jumps(*obj, s1);
                        law_compile_leaves_code_untouched(*obj, s1);
                        let (o2, s2) = compile_spec(*obj, s1);
                        if o2 is Done {
                            let s3 = named(s2, 12, attr);
                            lemma_untouched_named(s2, 12, attr);
                            if s3.code.code.len() <= 255 {
                                lemma_untouched_trans(s1, s2, s3);
                                lemma_untouched_trans(st, s1, s3);
                            }
                        }
                    },
                    _ => {},
                }
            }
        },
        _ => {},
    }
}

proof fn lemma_definition_untouched(n: Node, st: CompileState)
    requires
        n is MethodDef || n is ClassDef,
    ensures
        leaves_untouched(st, compile_spec(n, st)),
    decreases n, 0int,
{
    match n {
        Node::MethodDef(name, params, body) => {
            let (o, inner) = compile_spec(*body, function_start());
            if o is Done && all_identifiers(params) {
                let exited = exit_scope_spec(inner).code;
                let code = CodeView { args: exited.args + identifier_names(params), name, ..exited };
                let c = ConstView::Code(Box::new(code));
                lemma_untouched_load_const(st, c);
                lemma_untouched_emit(load_const(st, c), 5);
                lemma_untouched_trans(st, load_const(st, c), emit(load_const(st, c), 5));
            }
        },
        Node::ClassDef(name, body) => {
            let (o, inner) = compile_spec(*body, class_start());
            if o is Done {
                let code = CodeView { name, ..inner.code };
                let c = ConstView::Code(Box::new(code));
                lemma_untouched_load_const(st, c);
                lemma_untouched_emit(load_const(st, c), 11);
                lemma_untouched_trans(st, load_const(st, c), emit(load_const(st, c), 11));
            }
        },
        _ => {},
    }
}

proof fn lemma_two_operands_untouched(n: Node, st: CompileState)
    requires
        n is Compare || n is BinOp,
        jumps_ok(st),
    ensures
        leaves_untouched(st, compile_spec(n, st)),
    decreases n, 0int,
{
    let (l, r) = match n {
        Node::Compare(l, _, r) => (*l, *r),
        Node::BinOp(l, _, r) => (*l, *r),
        _ => (n, n),
    };
    law_compile_keeps_scopes_and_jumps(l, st);
    law_compile_leaves_code_untouched(l, st);
    let (o1, s1) = compile_spec(l, st);
    if o1 is Done {
        law_compile_keeps_scopes_and_jumps(r, s1);
        law_compile_leaves_code_untouched(r, s1);
        let (o2, s2) = compile_spec(r, s1);
        if o2 is Done {
            let (o, f) = compile_spec(n, st);
            if o is Done && f.code.code.len() <= 255 {
                let (x, y) = (f.code.code[f.code.code.len() - 2], f.code.code[f.code.code.len() - 1]);
                assert(f == emit2(s2, x, y));
                lemma_untouched_emit2(s2, x, y);
                lemma_untouched_trans(s1, s2, f);
                lemma_untouched_trans(st, s1, f);
            }
        }
    }
}

proof fn lemma_break_untouched(st: CompileState)
    requires
        jumps_ok(st),
        in_scope(st, ScopeType::While),
    ensures
        leaves_untouched(st, compile_spec(Node::Break, st)),
{
    let s1 = emit2(st, 10, 0);
    lemma_untouched_emit2(st, 10, 0);
    assert(jumps_ok(s1)) by {
        assert forall|i: int, k: int|
            0 <= i < s1.scopes.len() && 0 <= k < s1.scopes[i].jumps.len() implies #[trigger] s1.scopes[i].jumps[k]
                < s1.code.code.len() by {
            assert(s1.scopes[i] == st.scopes[i]);
        }
    }
    if s1.code.code.len() <= 255 {
        lemma_untouched_push(st, s1, (s1.code.code.len() - 1) as usize);
    }
}

proof fn lemma_ending_untouched(n: Node, st: CompileState)
    requires
        n is Return || n is Raise,
        jumps_ok(st),
    ensures
        leaves_untouched(st, compile_spec(n, st)),
    decreases n, 0int,
{
    let (v, op) = match n {
        Node::Return(v) => (v, 13u8),
        Node::Raise(v) => (v, 14u8),
        _ => (None, 0u8),
    };
    match v {
        Some(e) => {
            law_compile_keeps_scopes_and_jumps(*e, st);
            law_compile_leaves_code_untouched(*e, st);
            let (o1, s1) = compile_spec(*e, st);
            if o1 is Done {
                lemma_untouched_emit(s1, op);
                if emit(s1, op).code.code.len() <= 255 {
                    lemma_untouched_trans(st, s1, emit(s1, op));
                }
            }
        },
        None => {
            let s1 = named(st, 2, "None"@);
            lemma_untouched_named(st, 2, "None"@);
            lemma_untouched_emit(s1, op);
            lemma_untouched_trans(st, s1, emit(s1, op));
        },
    }
}

proof fn lemma_if_untouched(n: Node, st: CompileState)
    requires
        n is If,
        jumps_ok(st),
    ensures
        leaves_untouched(st, compile_spec(n, st)),
    decreases n, 0int,
{
    match n {
        Node::If(test, body) => {
            law_compile_keeps_scopes_and_jumps(*test, st);
            law_compile_leaves_code_untouched(*test, st);
            let (o1, s1) = compile_spec(*test, st);
            if o1 is Done {
                let s2 = emit2(s1, 9, 0);
                lemma_untouched_emit2(s1, 9, 0);
                let count = s2.code.code.len() as int % 256;
                if count != 0 {
                    law_compile_keeps_scopes_and_jumps(*body, s2);
                    law_compile_leaves_code_untouched(*body, s2);
                    let (o3, s3) = compile_spec(*body, s2);
                    if o3 is Done && s3.code.code.len() <= 255 {
                        assert(count == s2.code.code.len());
                        lemma_untouched_trans(s1, s2, s3);
                        lemma_untouched_trans(st, s1, s3);
                        lemma_untouched_update(st, s3, count - 1, index_byte(s3.code.code.len() as int));
                    }
                }
            }
        },
        _ => {},
    }
}

proof fn lemma_while_untouched(n: Node, st: CompileState)
    requires
        n is While,
        jumps_ok(st),
    ensures
        leaves_untouched(st, compile_spec(n, st)),
    decreases n, 0int,
{
    assert(compile_spec(n, st) == compile_while_spec(n, st));
    law_compile_keeps_scopes_and_jumps(n, st);
    match n {
        Node::While(cond, body) => {
            let s0 = enter_scope_spec(st, ScopeType::While);
            assert(jumps_ok(s0)) by {
                assert forall|i: int, k: int|
                    0 <= i < s0.scopes.len() && 0 <= k < s0.scopes[i].jumps.len() implies #[trigger] s0.scopes[i].jumps[k]
                        < s0.code.code.len() by {
                    assert(s0.scopes[i] == st.scopes[i]);
                }
            }
            law_compile_keeps_scopes_and_jumps(*cond, s0);
            law_compile_leaves_code_untouched(*cond, s0);
            let (o1, s1) = compile_spec(*cond, s0);
            if o1 is Done {
                let s2 = emit(s1, 9);
                let operand = s2.code.code.len() as int % 256;
                let se = emit(s2, 0);
                let s3 = push_jump_spec(se, operand as usize);
                lemma_push_jump_extends(se, operand as usize);
                law_compile_keeps_scopes_and_jumps(*body, s3);
                law_compile_leaves_code_untouched(*body, s3);
                let (o2, s4) = compile_spec(*body, s3);
                if o2 is Done {
                    let end = s4.code.code.len() as int % 256;
                    let start = s0.code.code.len() as int % 256;
                    match loop_offset(end, start) {
                        Some(offset) => {
                            let s5 = emit2(s4, 8, offset);
                            lemma_backpatch_keeps(s5, s5.code.code.len() - 1);
                            let s6 = backpatch_spec(s5, s5.code.code.len() - 1);
                            lemma_exit_keeps(s6);
                            let s7 = exit_scope_spec(s6);
                            if s7.code.code.len() <= 255 {
                                assert(operand == s2.code.code.len());
                                lemma_untouched_emit(s1, 9);
                                lemma_untouched_emit(s2, 0);
                                lemma_untouched_trans(s0, s1, s2);
                                lemma_untouched_trans(s0, s2, se);
                                lemma_untouched_push(s0, se, operand as usize);
                                lemma_untouched_trans(s0, s3, s4);
                                lemma_untouched_emit2(s4, 8, offset);
                                lemma_untouched_trans(s0, s4, s5);
                                let last = st.scopes.len() as int;
                                let jumps = s5.scopes.last().jumps;
                                assert(s5.scopes[last] == s5.scopes.last());
                                assert(s0.scopes[last].jumps.len() == 0);
                                lemma_last_jumps_in_code(s5);
                                assert(s6.scopes == s5.scopes);
                                lemma_last_jumps_in_code(s6);
                                let v6 = index_byte(s5.code.code.len() - 1);
                                let v7 = index_byte(s6.code.code.len() as int);
                                assert forall|i: int| 0 <= i < st.code.code.len() implies #[trigger] s7.code.code[i]
                                    == st.code.code[i] by {
                                    if jumps.contains(i as usize) {
                                        let m = choose|m: int| 0 <= m < jumps.len() && jumps[m] == i as usize;
                                        assert(s5.scopes[last].jumps[m] >= s0.code.code.len());
                                    }
                                    lemma_patch_at(s5.code.code, jumps, v6, i as usize);
                                    lemma_patch_at(s6.code.code, jumps, v7, i as usize);
                                    assert(s5.code.code[i] == s0.code.code[i]);
                                }
                                assert forall|sc: int, k: int|
                                    0 <= sc < st.scopes.len() && st.scopes[sc].jumps.len() <= k
                                        < s7.scopes[sc].jumps.len() implies #[trigger] s7.scopes[sc].jumps[k]
                                        >= st.code.code.len() by {
                                    assert(s7.scopes[sc] == s5.scopes[sc]);
                                    assert(s0.scopes[sc] == st.scopes[sc]);
                                }
                            }
                        },
                        None => {},
                    }
                }
            }
        },
        _ => {},
    }
}

/// A compiled `if` jumps past its body when its condition fails. Where the code of an `if`
/// ends before byte 256, the code of its condition comes first, untouched, and is followed by
/// the conditional jump, whose operand points at the end of the code, just past the body.
pub proof fn law_if_jumps(n: Node, st: CompileState)
    requires
        n is If,
        jumps_ok(st),
        compile_spec(n, st).0 is Done,
        compile_spec(n, st).1.code.code.len() <= 255,
    ensures
        ({
            let s = compile_spec(n, st).1.code.code;
            let cond = compile_spec(*n->If_0, st).1.code.code;
            let c = cond.len() as int;
            &&& c + 1 < s.len()
            &&& forall|i: int| 0 <= i < c ==> #[trigger] s[i] == cond[i]
            &&& s[c] == 9
            &&& s[c + 1] == s.len()
        }),
{
    match n {
        Node::If(test, body) => {
            law_compile_keeps_scopes_and_jumps(*test, st);
            let (o1, s1) = compile_spec(*test, st);
            let s2 = emit2(s1, 9, 0);
            lemma_untouched_emit2(s1, 9, 0);
            law_compile_keeps_scopes_and_jumps(*body, s2);
            law_compile_leaves_code_untouched(*body, s2);
            let (o3, s3) = compile_spec(*body, s2);
            let c = s1.code.code.len() as int;
            assert(s2.code.code.len() % 256 == c + 2);
            lemma_untouched_trans(s1, s2, s3);
            assert(s3.code.code[c] == s2.code.code[c]);
        },
        _ => {},
    }
}

/// The result of running a second compilation step after a first one that is done.
pub open spec fn then_compile(
    r: (Outcome, CompileState),
    next: spec_fn(CompileState) -> (Outcome, CompileState),
) -> (Outcome, CompileState) {
    if r.0 is Done {
        next(r.1)
    } else {
        r
    }
}

/// The arguments of a call are compiled one after the other, each in full: compiling two
/// lists of arguments one after the other is compiling the first, then (where it is done) the
/// second from where the first left off.
pub proof fn law_compile_list_in_order(xs: Seq<Node>, ys: Seq<Node>, st: CompileState)
    ensures
        compile_list_spec(xs + ys, st) == then_compile(
            compile_list_spec(xs, st),
            |s: CompileState| compile_list_spec(ys, s),
        ),
    decreases xs.len(),
{
    if xs.len() == 0 {
        assert(xs + ys =~= ys);
    } else {
        let rest = xs.subrange(1, xs.len() as int);
        assert((xs + ys).subrange(1, (xs + ys).len() as int) =~= rest + ys);
        assert((xs + ys)[0] == xs[0]);
        let (o, s1) = compile_spec(xs[0], st);
        if o is Done {
            law_compile_list_in_order(rest, ys, s1);
        }
    }
}

/// The statements of a block are compiled one after the other, each in full, up to a
/// `break`: where the first statements hold no `break`, compiling them followed by more is
/// compiling them, then (where that is done) the others from where they left off.
pub proof fn law_compile_block_in_order(xs: Seq<Node>, ys: Seq<Node>, st: CompileState)
    requires
        forall|i: int| 0 <= i < xs.len() ==> !(#[trigger] xs[i] is Break),
    ensures
        compile_block_spec(xs + ys, st) == then_compile(
            compile_block_spec(xs, st),
            |s: CompileState| compile_block_spec(ys, s),
        ),
    decreases xs.len(),
{
    if xs.len() == 0 {
        assert(xs + ys =~= ys);
    } else {
        let rest = xs.subrange(1, xs.len() as int);
        assert((xs + ys).subrange(1, (xs + ys).len() as int) =~= rest + ys);
        assert((xs + ys)[0] == xs[0]);
        assert(!(xs[0] is Break));
        let (o, s1) = compile_spec(xs[0], st);
        if o is Done {
            let s2 = if is_expression_node(xs[0]) {
                emit(s1, 4)
            } else {
                s1
            };
            assert forall|i: int| 0 <= i < rest.len() implies !(#[trigger] rest[i] is Break) by {
                assert(rest[i] == xs[i + 1]);
            }
            law_compile_block_in_order(rest, ys, s2);
        }
    }
}

} // verus!
