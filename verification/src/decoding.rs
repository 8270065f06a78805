use vstd::prelude::*;

use crate::ast::{is_expression_node, Node};
use crate::compiler::{
    compile_block_spec, compile_list_spec, compile_spec, compile_while_spec, emit, emit2,
    enter_scope_spec, exit_scope_spec, jumps_ok, law_compile_keeps_scopes_and_jumps, load_const,
    named, patch, push_jump_spec, with_code, backpatch_spec, loop_offset, lemma_compile_list_keeps,
    lemma_compile_block_keeps, lemma_push_jump_extends, lemma_backpatch_keeps, lemma_exit_keeps,
    CompileState, ScopeType,
};
use crate::bytecode::ConstView;

verus! {

/// The number of bytes of the instruction with this opcode: the opcode, and an operand byte
/// for all but `PopTop`, `MakeFunction`, `MakeClass`, `Return` and `Raise`.
pub open spec fn instruction_len(op: u8) -> int {
    if op == 4 || op == 5 || op == 11 || op == 13 || op == 14 {
        1
    } else {
        2
    }
}

/// From `i` on, the code reads as whole instructions, each with one of the sixteen opcodes.
pub open spec fn decodes_from(code: Seq<u8>, i: int) -> bool
    decreases code.len() + 2 - i,
{
    if i < 0 || i > code.len() {
        false
    } else if i == code.len() {
        true
    } else {
        code[i] < 16 && decodes_from(code, i + instruction_len(code[i]))
    }
}

/// Reading instructions from `i` on, one starts at `j` (the end of the code counts as a start).
pub open spec fn starts_from(code: Seq<u8>, i: int, j: int) -> bool
    decreases code.len() + 2 - i,
{
    if i < 0 || i >= code.len() {
        i == j
    } else {
        i == j || starts_from(code, i + instruction_len(code[i]), j)
    }
}

/// An instruction that starts inside code that decodes has one of the sixteen opcodes, and all
/// its bytes lie inside the code.
pub proof fn lemma_start_is_instruction(c: Seq<u8>, i: int, p: int)
    requires
        0 <= i <= c.len(),
        decodes_from(c, i),
        starts_from(c, i, p),
        p < c.len(),
    ensures
        c[p] < 16,
        p + instruction_len(c[p]) <= c.len(),
    decreases c.len() - i,
{
    if i != p {
        let next = i + instruction_len(c[i]);
        assert(decodes_from(c, next));
        assert(next <= c.len());
        lemma_start_is_instruction(c, next, p);
    } else {
        assert(decodes_from(c, p + instruction_len(c[p])));
    }
}

/// Appending one whole instruction to code that decodes: the result decodes, the starts up to
/// the old end stay as they were, the new end is a start, and the operand byte is none.
pub proof fn lemma_append_instruction(c: Seq<u8>, w: Seq<u8>, i: int)
    requires
        0 <= i <= c.len(),
        decodes_from(c, i),
        w.len() > 0,
        w[0] < 16,
        w.len() == instruction_len(w[0]),
    ensures
        decodes_from(c + w, i),
        forall|j: int| j <= c.len() ==> (#[trigger] starts_from(c + w, i, j) <==> starts_from(c, i, j)),
        starts_from(c + w, i, c.len() + w.len() as int),
        w.len() == 2 ==> !starts_from(c + w, i, c.len() as int + 1),
    decreases c.len() - i,
{
    let cw = c + w;
    if i == c.len() {
        assert(cw[i] == w[0]);
        assert(decodes_from(cw, i + instruction_len(cw[i])));
        assert forall|j: int| j <= c.len() implies (#[trigger] starts_from(cw, i, j) <==> starts_from(c, i, j)) by {
            assert(starts_from(cw, i + instruction_len(cw[i]), j) <==> cw.len() == j);
        }
        assert(starts_from(cw, i + instruction_len(cw[i]), cw.len() as int));
        if w.len() == 2 {
            assert(!starts_from(cw, i + instruction_len(cw[i]), c.len() as int + 1));
        }
    } else {
        assert(cw[i] == c[i]);
        let next = i + instruction_len(c[i]);
        assert(decodes_from(c, next));
        assert(next <= c.len());
        lemma_append_instruction(c, w, next);
        assert forall|j: int| j <= c.len() implies (#[trigger] starts_from(cw, i, j) <==> starts_from(c, i, j)) by {
            assert(starts_from(cw, next, j) <==> starts_from(c, next, j));
        }
    }
}

/// Changing a byte where no instruction starts keeps the code decoding, with the same starts.
pub proof fn lemma_update_operand(c: Seq<u8>, i: int, j: int, v: u8)
    requires
        0 <= i <= c.len(),
        decodes_from(c, i),
        0 <= j < c.len(),
        !starts_from(c, i, j),
    ensures
        decodes_from(c.update(j, v), i),
        forall|q: int| #[trigger] starts_from(c.update(j, v), i, q) <==> starts_from(c, i, q),
    decreases c.len() - i,
{
    let d = c.update(j, v);
    if i < c.len() {
        assert(d[i] == c[i]);
        let next = i + instruction_len(c[i]);
        assert(decodes_from(c, next));
        assert(next <= c.len());
        lemma_update_operand(c, next, j, v);
        assert forall|q: int| #[trigger] starts_from(d, i, q) <==> starts_from(c, i, q) by {
            assert(starts_from(d, next, q) <==> starts_from(c, next, q));
        }
    }
}

/// Setting bytes where no instruction starts keeps the code decoding, with the same starts.
pub proof fn lemma_patch_operands(c: Seq<u8>, jumps: Seq<usize>, v: u8)
    requires
        decodes_from(c, 0),
        forall|k: int| 0 <= k < jumps.len() ==> #[trigger] jumps[k] < c.len() && !starts_from(c, 0, jumps[k] as int),
    ensures
        decodes_from(patch(c, jumps, v), 0),
        patch(c, jumps, v).len() == c.len(),
        forall|q: int| #[trigger] starts_from(patch(c, jumps, v), 0, q) <==> starts_from(c, 0, q),
    decreases jumps.len(),
{
    if jumps.len() > 0 {
        let j = jumps[0] as int;
        lemma_update_operand(c, 0, j, v);
        let d = c.update(j, v);
        let rest = jumps.subrange(1, jumps.len() as int);
        assert forall|k: int| 0 <= k < rest.len() implies #[trigger] rest[k] < d.len() && !starts_from(d, 0, rest[k] as int) by {
            assert(rest[k] == jumps[k + 1]);
        }
        lemma_patch_operands(d, rest, v);
    }
}

/// The jumps that the open scopes record are operand bytes: no instruction starts at one.
pub open spec fn jumps_are_operands(st: CompileState) -> bool {
    forall|i: int, k: int|
        0 <= i < st.scopes.len() && 0 <= k < st.scopes[i].jumps.len() ==> !starts_from(
            st.code.code,
            0,
            #[trigger] st.scopes[i].jumps[k] as int,
        )
}

/// A state of the compiler whose code reads as instructions, with its jumps on operands.
pub open spec fn code_ok(st: CompileState) -> bool {
    &&& decodes_from(st.code.code, 0)
    &&& jumps_ok(st)
    &&& jumps_are_operands(st)
}

/// `d` continues `c`: it is as long at least, and up to the end of `c` its instructions start
/// where those of `c` do.
pub open spec fn grows(c: Seq<u8>, d: Seq<u8>) -> bool {
    &&& c.len() <= d.len()
    &&& forall|j: int| #![trigger starts_from(d, 0, j)] #![trigger starts_from(c, 0, j)] j <= c.len() ==> (starts_from(d, 0, j) <==> starts_from(c, 0, j))
}

proof fn lemma_grows_refl(c: Seq<u8>)
    ensures
        grows(c, c),
{
}

proof fn lemma_grows_trans(a: Seq<u8>, b: Seq<u8>, c: Seq<u8>)
    requires
        grows(a, b),
        grows(b, c),
    ensures
        grows(a, c),
{
    assert forall|j: int| j <= a.len() implies (starts_from(c, 0, j) <==> starts_from(a, 0, j)) by {
        assert(starts_from(c, 0, j) <==> starts_from(b, 0, j));
        assert(starts_from(b, 0, j) <==> starts_from(a, 0, j));
    }
}

/// A state whose code continues the code of a state that was fine, with scopes that record
/// the same jumps, is fine.
proof fn lemma_same_scopes_grown(st: CompileState, s2: CompileState)
    requires
        code_ok(st),
        decodes_from(s2.code.code, 0),
        grows(st.code.code, s2.code.code),
        s2.scopes == st.scopes,
    ensures
        code_ok(s2),
{
    assert forall|i: int, k: int|
        0 <= i < s2.scopes.len() && 0 <= k < s2.scopes[i].jumps.len() implies #[trigger] s2.scopes[i].jumps[k]
            < s2.code.code.len() && !starts_from(s2.code.code, 0, s2.scopes[i].jumps[k] as int) by {
        let j = st.scopes[i].jumps[k];
        assert(j < st.code.code.len());
        assert(starts_from(s2.code.code, 0, j as int) <==> starts_from(st.code.code, 0, j as int));
    }
}

/// Appending one instruction keeps a state fine; the new end starts an instruction, and the
/// operand byte of a two-byte instruction does not.
proof fn lemma_emit_ok(st: CompileState, w: Seq<u8>)
    requires
        code_ok(st),
        w.len() > 0,
        w[0] < 16,
        w.len() == instruction_len(w[0]),
    ensures
        code_ok(with_code(st, st.code.code + w)),
        grows(st.code.code, st.code.code + w),
        w.len() == 2 ==> !starts_from(st.code.code + w, 0, st.code.code.len() as int + 1),
{
    let c = st.code.code;
    lemma_append_instruction(c, w, 0);
    lemma_same_scopes_grown(st, with_code(st, c + w));
}

proof fn lemma_emit1(st: CompileState, op: u8)
    requires
        code_ok(st),
        op < 16,
        instruction_len(op) == 1,
    ensures
        code_ok(emit(st, op)),
        grows(st.code.code, emit(st, op).code.code),
{
    assert(st.code.code.push(op) =~= st.code.code + seq![op]);
    lemma_emit_ok(st, seq![op]);
}

proof fn lemma_emit2(st: CompileState, op: u8, b: u8)
    requires
        code_ok(st),
        op < 16,
        instruction_len(op) == 2,
    ensures
        code_ok(emit2(st, op, b)),
        grows(st.code.code, emit2(st, op, b).code.code),
        !starts_from(emit2(st, op, b).code.code, 0, st.code.code.len() as int + 1),
{
    assert(st.code.code.push(op).push(b) =~= st.code.code + seq![op, b]);
    lemma_emit_ok(st, seq![op, b]);
}

proof fn lemma_named(st: CompileState, op: u8, name: Seq<char>)
    requires
        code_ok(st),
        op < 16,
        instruction_len(op) == 2,
    ensures
        code_ok(named(st, op, name)),
        grows(st.code.code, named(st, op, name).code.code),
{
    let s1 = crate::compiler::name_added(st, name);
    assert(code_ok(s1));
    lemma_emit2(s1, op, crate::compiler::name_byte(st, name));
}

proof fn lemma_load_const(st: CompileState, c: ConstView)
    requires
        code_ok(st),
    ensures
        code_ok(load_const(st, c)),
        grows(st.code.code, load_const(st, c).code.code),
{
    let s1 = CompileState { code: crate::bytecode::CodeView { consts: st.code.consts.push(c), ..st.code }, ..st };
    assert(code_ok(s1));
    lemma_emit2(s1, 0, crate::bytecode::index_byte(st.code.consts.len() as int));
}

/// Where a compilation is done and its code stays below 256 bytes, it keeps what [`code_ok`]
/// says: the code still reads as whole instructions with known opcodes, the old instructions
/// start where they did, and the jumps that the open scopes record lie on operand bytes.
pub open spec fn decodes_after(st: CompileState, r: (crate::compiler::Outcome, CompileState)) -> bool {
    r.0 is Done && r.1.code.code.len() < 256 ==> code_ok(r.1) && grows(st.code.code, r.1.code.code)
}

/// Compiled code reads as instructions. Compiling a node onto code that reads as whole
/// instructions, each with one of the sixteen opcodes, gives code that does too, where the
/// compilation is done and the code stays below 256 bytes; every instruction of the old code
/// starts where it did, and the jumps still waiting for their target lie on operand bytes.
pub proof fn law_compiled_code_decodes(n: Node, st: CompileState)
    requires
        code_ok(st),
    ensures
        decodes_after(st, compile_spec(n, st)),
    decreases n, 1int,
{
    lemma_grows_refl(st.code.code);
    match n {
        Node::Module(b) => {
            law_compiled_code_decodes(*b, st);
        },
        Node::Identifier(name) => {
            lemma_named(st, 2, name);
        },
        Node::StringLiteral(t) => {
            lemma_load_const(st, ConstView::Str(t));
        },
        Node::NumberLiteral(t) => {
            lemma_load_const(st, ConstView::Number(t));
        },
        Node::MethodCall(..) => {
            lemma_call_decodes(n, st);
        },
        Node::Assignment(..) => {
            lemma_assignment_decodes(n, st);
        },
        Node::MethodDef(..) => {
            let (o, inner) = compile_spec(n, st);
            if o is Done {
                lemma_method_def_decodes(n, st);
            }
        },
        Node::ClassDef(..) => {
            lemma_class_def_decodes(n, st);
        },
        Node::Attribute(obj, attr) => {
            law_compiled_code_decodes(*obj, st);
            law_compile_keeps_scopes_and_jumps(*obj, st);
            let (o1, s1) = compile_spec(*obj, st);
            if o1 is Done && named(s1, 6, attr).code.code.len() < 256 {
                lemma_named(s1, 6, attr);
                lemma_grows_trans(st.code.code, s1.code.code, named(s1, 6, attr).code.code);
            }
        },
        Node::Compare(..) => {
            lemma_two_operands_decodes(n, st);
        },
        Node::BinOp(..) => {
            lemma_two_operands_decodes(n, st);
        },
        Node::If(..) => {
            lemma_if_decodes(n, st);
        },
        Node::While(..) => {
            lemma_while_decodes(n, st);
        },
        Node::Break => {
            if crate::compiler::in_scope(st, ScopeType::While) {
                lemma_break_decodes(st);
            }
        },
        Node::Block(stmts) => {
            lemma_block_decodes(stmts, st);
        },
        Node::Return(v) => {
            lemma_ending_decodes(n, st);
        },
        Node::Raise(v) => {
            lemma_ending_decodes(n, st);
        },
        Node::Import(_) => {},
        Node::UnaryOp(_, _) => {},
    }
}

proof fn lemma_break_decodes(st: CompileState)
    requires
        code_ok(st),
        crate::compiler::in_scope(st, ScopeType::While),
    ensures
        decodes_after(st, compile_spec(Node::Break, st)),
{
    let s1 = emit2(st, 10, 0);
    lemma_emit2(st, 10, 0);
    let j = (s1.code.code.len() - 1) as usize;
    let s2 = push_jump_spec(s1, j);
    if s2.code.code.len() < 256 {
        assert(j == st.code.code.len() + 1);
        let last = s1.scopes.len() - 1;
        assert forall|i: int, k: int|
            0 <= i < s2.scopes.len() && 0 <= k < s2.scopes[i].jumps.len() implies #[trigger] s2.scopes[i].jumps[k]
                < s2.code.code.len() && !starts_from(s2.code.code, 0, s2.scopes[i].jumps[k] as int) by {
            if i == last && k == s1.scopes[i].jumps.len() {
                assert(s2.scopes[i].jumps[k] == j);
            } else {
                assert(s2.scopes[i].jumps[k] == s1.scopes[i].jumps[k]);
            }
        }
    }
}

proof fn lemma_list_decodes(xs: Seq<Node>, st: CompileState)
    requires
        code_ok(st),
    ensures
        decodes_after(st, compile_list_spec(xs, st)),
    decreases xs, 0int,
{
    lemma_grows_refl(st.code.code);
    if xs.len() > 0 {
        law_compiled_code_decodes(xs[0], st);
        law_compile_keeps_scopes_and_jumps(xs[0], st);
        let (o, s1) = compile_spec(xs[0], st);
        if o is Done {
            let rest = xs.subrange(1, xs.len() as int);
            lemma_compile_list_keeps(rest, s1);
            let (o2, s2) = compile_list_spec(rest, s1);
            if o2 is Done && s2.code.code.len() < 256 {
                lemma_list_decodes(rest, s1);
                lemma_grows_trans(st.code.code, s1.code.code, s2.code.code);
            }
        }
    }
}

proof fn lemma_block_decodes(xs: Seq<Node>, st: CompileState)
    requires
        code_ok(st),
    ensures
        decodes_after(st, compile_block_spec(xs, st)),
    decreases xs, 0int,
{
    lemma_grows_refl(st.code.code);
    if xs.len() > 0 {
        law_compiled_code_decodes(xs[0], st);
        if !(xs[0] is Break) {
            law_compile_keeps_scopes_and_jumps(xs[0], st);
            let (o, s1) = compile_spec(xs[0], st);
            if o is Done {
                let s2 = if is_expression_node(xs[0]) {
                    emit(s1, 4)
                } else {
                    s1
                };
                let rest = xs.subrange(1, xs.len() as int);
                lemma_compile_block_keeps(rest, s2);
                let (o3, s3) = compile_block_spec(rest, s2);
                if o3 is Done && s3.code.code.len() < 256 {
                    assert(s1.code.code.len() <= s2.code.code.len());
                    if is_expression_node(xs[0]) {
                        lemma_emit1(s1, 4);
                    } else {
                        lemma_grows_refl(s1.code.code);
                    }
                    lemma_block_decodes(rest, s2);
                    lemma_grows_trans(st.code.code, s1.code.code, s2.code.code);
                    lemma_grows_trans(st.code.code, s2.code.code, s3.code.code);
                }
            }
        }
    }
}

proof fn lemma_call_decodes(n: Node, st: CompileState)
    requires
        code_ok(st),
        n is MethodCall,
    ensures
        decodes_after(st, compile_spec(n, st)),
    decreases n, 0int,
{
    match n {
        Node::MethodCall(f, args) => {
            law_compiled_code_decodes(*f, st);
            law_compile_keeps_scopes_and_jumps(*f, st);
            let (o1, s1) = compile_spec(*f, st);
            if o1 is Done {
                lemma_compile_list_keeps(args, s1);
                let (o2, s2) = compile_list_spec(args, s1);
                let b = crate::bytecode::index_byte(args.len() as int);
                if o2 is Done && emit2(s2, 3, b).code.code.len() < 256 {
                    lemma_list_decodes(args, s1);
                    lemma_emit2(s2, 3, b);
                    lemma_grows_trans(st.code.code, s1.code.code, s2.code.code);
                    lemma_grows_trans(st.code.code, s2.code.code, emit2(s2, 3, b).code.code);
                }
            }
        },
        _ => {},
    }
}

proof fn lemma_assignment_decodes(n: Node, st: CompileState)
    requires
        code_ok(st),
        n is Assignment,
    ensures
        decodes_after(st, compile_spec(n, st)),
    decreases n, 0int,
{
    match n {
        Node::Assignment(name, value) => {
            law_compiled_code_decodes(*value, st);
            law_compile_keeps_scopes_and_jumps(*value, st);
            let (o1, s1) = compile_spec(*value, st);
            if o1 is Done {
                match *name {
                    Node::Identifier(id) => {
                        let s2 = named(s1, 1, id);
                        let s3 = named(s2, 2, id);
                        if s3.code.code.len() < 256 {
                            lemma_named(s1, 1, id);
                            lemma_named(s2, 2, id);
                            lemma_grows_trans(st.code.code, s1.code.code, s2.code.code);
                            lemma_grows_trans(st.code.code, s2.code.code, s3.code.code);
                        }
                    },
                    Node::Attribute(obj, attr) => {
                        law_compile_keeps_scopes_and_jumps(*obj, s1);
                        let (o2, s2) = compile_spec(*obj, s1);
                        if o2 is Done && named(s2, 12, attr).code.code.len() < 256 {
                            law_compiled_code_decodes(*obj, s1);
                            lemma_named(s2, 12, attr);
                            lemma_grows_trans(st.code.code, s1.code.code, s2.code.code);
                            lemma_grows_trans(st.code.code, s2.code.code, named(s2, 12, attr).code.code);
                        }
                    },
                    _ => {},
                }
            }
        },
        _ => {},
    }
}

proof fn lemma_method_def_decodes(n: Node, st: CompileState)
    requires
        code_ok(st),
        n is MethodDef,
    ensures
        decodes_after(st, compile_spec(n, st)),
{
    match n {
        Node::MethodDef(name, params, body) => {
            let (o, inner) = compile_spec(*body, crate::compiler::function_start());
            if o is Done && crate::compiler::all_identifiers(params) {
                let exited = exit_scope_spec(inner).code;
                let code = crate::bytecode::CodeView {
                    args: exited.args + crate::compiler::identifier_names(params),
                    name,
                    ..exited
                };
                let s1 = load_const(st, ConstView::Code(Box::new(code)));
                lemma_load_const(st, ConstView::Code(Box::new(code)));
                lemma_emit1(s1, 5);
                lemma_grows_trans(st.code.code, s1.code.code, emit(s1, 5).code.code);
            }
        },
        _ => {},
    }
}

proof fn lemma_class_def_decodes(n: Node, st: CompileState)
    requires
        code_ok(st),
        n is ClassDef,
    ensures
        decodes_after(st, compile_spec(n, st)),
{
    match n {
        Node::ClassDef(name, body) => {
            let (o, inner) = compile_spec(*body, crate::compiler::class_start());
            if o is Done {
                let code = crate::bytecode::CodeView { name, ..inner.code };
                let s1 = load_const(st, ConstView::Code(Box::new(code)));
                lemma_load_const(st, ConstView::Code(Box::new(code)));
                lemma_emit1(s1, 11);
                lemma_grows_trans(st.code.code, s1.code.code, emit(s1, 11).code.code);
            }
        },
        _ => {},
    }
}

proof fn lemma_two_operands_decodes(n: Node, st: CompileState)
    requires
        code_ok(st),
        n is Compare || n is BinOp,
    ensures
        decodes_after(st, compile_spec(n, st)),
    decreases n, 0int,
{
    let (l, r) = match n {
        Node::Compare(l, _, r) => (*l, *r),
        Node::BinOp(l, _, r) => (*l, *r),
        _ => (n, n),
    };
    law_compiled_code_decodes(l, st);
    law_compile_keeps_scopes_and_jumps(l, st);
    let (o1, s1) = compile_spec(l, st);
    if o1 is Done {
        law_compile_keeps_scopes_and_jumps(r, s1);
        let (o2, s2) = compile_spec(r, s1);
        if o2 is Done {
            match n {
                Node::Compare(_, op, _) => {
                    match crate::bytecode::comparison_of(op) {
                        Some(c) => {
                            let b = crate::bytecode::comparison_byte(c);
                            if emit2(s2, 7, b).code.code.len() < 256 {
                                law_compiled_code_decodes(r, s1);
                                lemma_emit2(s2, 7, b);
                                lemma_grows_trans(st.code.code, s1.code.code, s2.code.code);
                                lemma_grows_trans(st.code.code, s2.code.code, emit2(s2, 7, b).code.code);
                            }
                        },
                        None => {},
                    }
                },
                Node::BinOp(_, op, _) => {
                    match crate::bytecode::arithmetic_of(op) {
                        Some(a) => {
                            let b = crate::bytecode::operator_byte(a);
                            if emit2(s2, 15, b).code.code.len() < 256 {
                                law_compiled_code_decodes(r, s1);
                                lemma_emit2(s2, 15, b);
                                lemma_grows_trans(st.code.code, s1.code.code, s2.code.code);
                                lemma_grows_trans(st.code.code, s2.code.code, emit2(s2, 15, b).code.code);
                            }
                        },
                        None => {},
                    }
                },
                _ => {},
            }
        }
    }
}

proof fn lemma_ending_decodes(n: Node, st: CompileState)
    requires
        code_ok(st),
        n is Return || n is Raise,
    ensures
        decodes_after(st, compile_spec(n, st)),
    decreases n, 0int,
{
    let (v, op): (Option<Box<Node>>, u8) = match n {
        Node::Return(v) => (v, 13u8),
        Node::Raise(v) => (v, 14u8),
        _ => (None, 0u8),
    };
    match v {
        Some(e) => {
            law_compiled_code_decodes(*e, st);
            law_compile_keeps_scopes_and_jumps(*e, st);
            let (o1, s1) = compile_spec(*e, st);
            if o1 is Done && emit(s1, op).code.code.len() < 256 {
                lemma_emit1(s1, op);
                lemma_grows_trans(st.code.code, s1.code.code, emit(s1, op).code.code);
            }
        },
        None => {
            let s1 = named(st, 2, "None"@);
            lemma_named(st, 2, "None"@);
            lemma_emit1(s1, op);
            lemma_grows_trans(st.code.code, s1.code.code, emit(s1, op).code.code);
        },
    }
}

proof fn lemma_if_decodes(n: Node, st: CompileState)
    requires
        code_ok(st),
        n is If,
    ensures
        decodes_after(st, compile_spec(n, st)),
    decreases n, 0int,
{
    match n {
        Node::If(test, body) => {
            law_compile_keeps_scopes_and_jumps(*test, st);
            let (o1, s1) = compile_spec(*test, st);
            if o1 is Done {
                let s2 = emit2(s1, 9, 0);
                let count = s2.code.code.len() as int % 256;
                if count != 0 {
                    law_compile_keeps_scopes_and_jumps(*body, s2);
                    let (o3, s3) = compile_spec(*body, s2);
                    let v = crate::bytecode::index_byte(s3.code.code.len() as int);
                    let fin = with_code(s3, s3.code.code.update(count - 1, v));
                    if o3 is Done && fin.code.code.len() < 256 {
                        law_compiled_code_decodes(*test, st);
                        lemma_emit2(s1, 9, 0);
                        assert(count == s2.code.code.len());
                        law_compiled_code_decodes(*body, s2);
                        assert(!starts_from(s3.code.code, 0, count - 1));
                        lemma_update_operand(s3.code.code, 0, count - 1, v);
                        lemma_same_scopes_grown(s3, fin);
                        lemma_grows_trans(st.code.code, s1.code.code, s2.code.code);
                        lemma_grows_trans(st.code.code, s2.code.code, s3.code.code);
                        lemma_grows_trans(st.code.code, s3.code.code, fin.code.code);
                    }
                }
            }
        },
        _ => {},
    }
}

proof fn lemma_while_decodes(n: Node, st: CompileState)
    requires
        code_ok(st),
        n is While,
    ensures
        decodes_after(st, compile_spec(n, st)),
    decreases n, 0int,
{
    assert(compile_spec(n, st) == compile_while_spec(n, st));
    match n {
        Node::While(cond, body) => {
            let s0 = enter_scope_spec(st, ScopeType::While);
            assert(code_ok(s0)) by {
                assert forall|i: int, k: int|
                    0 <= i < s0.scopes.len() && 0 <= k < s0.scopes[i].jumps.len() implies #[trigger] s0.scopes[i].jumps[k]
                        < s0.code.code.len() && !starts_from(s0.code.code, 0, s0.scopes[i].jumps[k] as int) by {
                    assert(s0.scopes[i] == st.scopes[i]);
                }
            }
            law_compile_keeps_scopes_and_jumps(*cond, s0);
            let (o1, s1) = compile_spec(*cond, s0);
            if o1 is Done {
                let s2 = emit(s1, 9);
                let operand = s2.code.code.len() as int % 256;
                let e = emit(s2, 0);
                let s3 = push_jump_spec(e, operand as usize);
                lemma_push_jump_extends(e, operand as usize);
                law_compile_keeps_scopes_and_jumps(*body, s3);
                let (o2, s4) = compile_spec(*body, s3);
                if o2 is Done {
                    let end = s4.code.code.len() as int % 256;
                    let start = s0.code.code.len() as int % 256;
                    match loop_offset(end, start) {
                        Some(offset) => {
                            let s5 = emit2(s4, 8, offset);
                            let s6 = backpatch_spec(s5, s5.code.code.len() - 1);
                            let s7 = exit_scope_spec(s6);
                            lemma_backpatch_keeps(s5, s5.code.code.len() - 1);
                            lemma_exit_keeps(s6);
                            if s7.code.code.len() < 256 {
                                law_compiled_code_decodes(*cond, s0);
                                assert(e == emit2(s1, 9, 0));
                                lemma_emit2(s1, 9, 0);
                                assert(operand == s1.code.code.len() + 1);
                                let last = e.scopes.len() - 1;
                                assert(code_ok(s3)) by {
                                    assert forall|i: int, k: int|
                                        0 <= i < s3.scopes.len() && 0 <= k < s3.scopes[i].jumps.len() implies #[trigger] s3.scopes[i].jumps[k]
                                            < s3.code.code.len() && !starts_from(s3.code.code, 0, s3.scopes[i].jumps[k] as int) by {
                                        if i == last && k == e.scopes[i].jumps.len() {
                                            assert(s3.scopes[i].jumps[k] == operand as usize);
                                        } else {
                                            assert(s3.scopes[i].jumps[k] == e.scopes[i].jumps[k]);
                                        }
                                    }
                                }
                                law_compiled_code_decodes(*body, s3);
                                lemma_emit2(s4, 8, offset);
                                let jumps5 = s5.scopes.last().jumps;
                                assert forall|k: int| 0 <= k < jumps5.len() implies #[trigger] jumps5[k] < s5.code.code.len()
                                    && !starts_from(s5.code.code, 0, jumps5[k] as int) by {
                                    assert(jumps5[k] == s5.scopes[s5.scopes.len() - 1].jumps[k]);
                                }
                                let v6 = crate::bytecode::index_byte(s5.code.code.len() - 1);
                                lemma_patch_operands(s5.code.code, jumps5, v6);
                                lemma_same_scopes_grown(s5, s6);
                                let jumps6 = s6.scopes.last().jumps;
                                assert forall|k: int| 0 <= k < jumps6.len() implies #[trigger] jumps6[k] < s6.code.code.len()
                                    && !starts_from(s6.code.code, 0, jumps6[k] as int) by {
                                    assert(jumps6[k] == s6.scopes[s6.scopes.len() - 1].jumps[k]);
                                }
                                let v7 = crate::bytecode::index_byte(s6.code.code.len() as int);
                                lemma_patch_operands(s6.code.code, jumps6, v7);
                                assert(code_ok(s7)) by {
                                    assert forall|i: int, k: int|
                                        0 <= i < s7.scopes.len() && 0 <= k < s7.scopes[i].jumps.len() implies #[trigger] s7.scopes[i].jumps[k]
                                            < s7.code.code.len() && !starts_from(s7.code.code, 0, s7.scopes[i].jumps[k] as int) by {
                                        assert(s7.scopes[i] == s6.scopes[i]);
                                        assert(s6.scopes[i].jumps[k] < s6.code.code.len());
                                    }
                                }
                                assert(grows(s6.code.code, s7.code.code));
                                lemma_grows_trans(st.code.code, s1.code.code, e.code.code);
                                lemma_grows_trans(st.code.code, e.code.code, s4.code.code);
                                lemma_grows_trans(st.code.code, s4.code.code, s5.code.code);
                                lemma_grows_trans(st.code.code, s5.code.code, s6.code.code);
                                lemma_grows_trans(st.code.code, s6.code.code, s7.code.code);
                            }
                        },
                        None => {},
                    }
                }
            }
        },
        _ => {},
    }
}

/// The code of a program, a class body or a function body reads as instructions. Compiling a
/// node from a fresh compiler (empty code, no open scope, or the one scope of a function) gives
/// code that reads as whole instructions with known opcodes, where the compilation is done and
/// the code stays below 256 bytes.
pub proof fn law_fresh_compilation_decodes(n: Node)
    ensures
        ({
            let r = compile_spec(n, crate::compiler::class_start());
            r.0 is Done && r.1.code.code.len() < 256 ==> decodes_from(r.1.code.code, 0)
        }),
        ({
            let r = compile_spec(n, crate::compiler::function_start());
            r.0 is Done && r.1.code.code.len() < 256 ==> decodes_from(r.1.code.code, 0)
        }),
{
    let a = crate::compiler::class_start();
    let b = crate::compiler::function_start();
    assert(code_ok(a));
    assert(code_ok(b)) by {
        assert forall|i: int, k: int|
            0 <= i < b.scopes.len() && 0 <= k < b.scopes[i].jumps.len() implies #[trigger] b.scopes[i].jumps[k]
                < b.code.code.len() && !starts_from(b.code.code, 0, b.scopes[i].jumps[k] as int) by {
            assert(b.scopes[i].jumps.len() == 0);
        }
    }
    law_compiled_code_decodes(n, a);
    law_compiled_code_decodes(n, b);
}

} // verus!
