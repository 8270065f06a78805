use vstd::prelude::*;

use crate::ast;
use crate::text::{decimal, decimal_pad4, push_char, push_decimal, push_decimal_pad4, push_str};

verus! {

/// The instructions of the virtual machine; each is stored as the byte of its number.
#[derive(Debug, Clone, Copy, PartialEq, Eq, Structural)]
pub enum Opcode {
    LoadConst,
    StoreName,
    LoadName,
    Call,
    PopTop,
    MakeFunction,
    LoadAttr,
    Compare,
    JumpBack,
    PopAndJumpIfFalse,
    Jump,
    MakeClass,
    StoreAttr,
    Return,
    Raise,
    BinaryOp,
}

/// The operand of `Compare`.
#[derive(Debug, Clone, Copy, PartialEq, Eq, Structural)]
pub enum ComparisonOperator {
    Equal,
    Neq,
    Gt,
    Lt,
    Gte,
    Lte,
}

/// The operand of `BinaryOp`.
#[derive(Debug, Clone, Copy, PartialEq, Eq, Structural)]
pub enum Operator {
    Plus,
    Minus,
}

/// The byte of an opcode: its place in the list above.
pub open spec fn opcode_byte(op: Opcode) -> u8 {
    match op {
        Opcode::LoadConst => 0,
        Opcode::StoreName => 1,
        Opcode::LoadName => 2,
        Opcode::Call => 3,
        Opcode::PopTop => 4,
        Opcode::MakeFunction => 5,
        Opcode::LoadAttr => 6,
        Opcode::Compare => 7,
        Opcode::JumpBack => 8,
        Opcode::PopAndJumpIfFalse => 9,
        Opcode::Jump => 10,
        Opcode::MakeClass => 11,
        Opcode::StoreAttr => 12,
        Opcode::Return => 13,
        Opcode::Raise => 14,
        Opcode::BinaryOp => 15,
    }
}

pub open spec fn comparison_byte(op: ComparisonOperator) -> u8 {
    match op {
        ComparisonOperator::Equal => 0,
        ComparisonOperator::Neq => 1,
        ComparisonOperator::Gt => 2,
        ComparisonOperator::Lt => 3,
        ComparisonOperator::Gte => 4,
        ComparisonOperator::Lte => 5,
    }
}

pub open spec fn operator_byte(op: Operator) -> u8 {
    match op {
        Operator::Plus => 0,
        Operator::Minus => 1,
    }
}

/// The name under which the disassembler shows a comparison.
pub open spec fn comparison_name(op: ComparisonOperator) -> Seq<char> {
    match op {
        ComparisonOperator::Equal => "EQUAL"@,
        ComparisonOperator::Neq => "NOT_EQUAL"@,
        ComparisonOperator::Gt => "GREATER"@,
        ComparisonOperator::Lt => "LESS"@,
        ComparisonOperator::Gte => "GREATER_EQUAL"@,
        ComparisonOperator::Lte => "LESS_EQUAL"@,
    }
}

/// The comparison that an operator of the syntax tree stands for.
pub open spec fn comparison_of(op: ast::Operator) -> Option<ComparisonOperator> {
    match op {
        ast::Operator::Equal => Some(ComparisonOperator::Equal),
        ast::Operator::Neq => Some(ComparisonOperator::Neq),
        ast::Operator::Gt => Some(ComparisonOperator::Gt),
        ast::Operator::Lt => Some(ComparisonOperator::Lt),
        ast::Operator::Gte => Some(ComparisonOperator::Gte),
        ast::Operator::Lte => Some(ComparisonOperator::Lte),
        _ => None,
    }
}

/// The arithmetic that an operator of the syntax tree stands for.
pub open spec fn arithmetic_of(op: ast::Operator) -> Option<Operator> {
    match op {
        ast::Operator::Plus => Some(Operator::Plus),
        ast::Operator::Minus => Some(Operator::Minus),
        _ => None,
    }
}

impl Opcode {
    /// The opcode of a byte, if the byte is one.
    pub fn from_u8(value: u8) -> (r: Option<Self>)
        ensures
            value < 16 ==> (r matches Some(op) && opcode_byte(op) == value),
            value >= 16 ==> r is None,
    {
        match value {
            0 => Some(Opcode::LoadConst),
            1 => Some(Opcode::StoreName),
            2 => Some(Opcode::LoadName),
            3 => Some(Opcode::Call),
            4 => Some(Opcode::PopTop),
            5 => Some(Opcode::MakeFunction),
            6 => Some(Opcode::LoadAttr),
            7 => Some(Opcode::Compare),
            8 => Some(Opcode::JumpBack),
            9 => Some(Opcode::PopAndJumpIfFalse),
            10 => Some(Opcode::Jump),
            11 => Some(Opcode::MakeClass),
            12 => Some(Opcode::StoreAttr),
            13 => Some(Opcode::Return),
            14 => Some(Opcode::Raise),
            15 => Some(Opcode::BinaryOp),
            _ => None,
        }
    }

    /// The byte of this opcode.
    pub fn to_u8(self) -> (b: u8)
        ensures
            b == opcode_byte(self),
    {
        match self {
            Opcode::LoadConst => 0,
            Opcode::StoreName => 1,
            Opcode::LoadName => 2,
            Opcode::Call => 3,
            Opcode::PopTop => 4,
            Opcode::MakeFunction => 5,
            Opcode::LoadAttr => 6,
            Opcode::Compare => 7,
            Opcode::JumpBack => 8,
            Opcode::PopAndJumpIfFalse => 9,
            Opcode::Jump => 10,
            Opcode::MakeClass => 11,
            Opcode::StoreAttr => 12,
            Opcode::Return => 13,
            Opcode::Raise => 14,
            Opcode::BinaryOp => 15,
        }
    }
}

impl ComparisonOperator {
    /// The comparison of a byte, if the byte is one.
    pub fn from_u8(value: u8) -> (r: Option<Self>)
        ensures
            value < 6 ==> (r matches Some(op) && comparison_byte(op) == value),
            value >= 6 ==> r is None,
    {
        match value {
            0 => Some(ComparisonOperator::Equal),
            1 => Some(ComparisonOperator::Neq),
            2 => Some(ComparisonOperator::Gt),
            3 => Some(ComparisonOperator::Lt),
            4 => Some(ComparisonOperator::Gte),
            5 => Some(ComparisonOperator::Lte),
            _ => None,
        }
    }

    /// The byte of this comparison.
    pub fn to_u8(self) -> (b: u8)
        ensures
            b == comparison_byte(self),
    {
        match self {
            ComparisonOperator::Equal => 0,
            ComparisonOperator::Neq => 1,
            ComparisonOperator::Gt => 2,
            ComparisonOperator::Lt => 3,
            ComparisonOperator::Gte => 4,
            ComparisonOperator::Lte => 5,
        }
    }

    /// The comparison of an operator of the syntax tree; `None` for `+` and `-`.
    pub fn from_ast_operator(op: ast::Operator) -> (r: Option<Self>)
        ensures
            r == comparison_of(op),
    {
        match op {
            ast::Operator::Equal => Some(ComparisonOperator::Equal),
            ast::Operator::Neq => Some(ComparisonOperator::Neq),
            ast::Operator::Gt => Some(ComparisonOperator::Gt),
            ast::Operator::Lt => Some(ComparisonOperator::Lt),
            ast::Operator::Gte => Some(ComparisonOperator::Gte),
            ast::Operator::Lte => Some(ComparisonOperator::Lte),
            _ => None,
        }
    }

    /// The name under which the disassembler shows this comparison.
    pub fn name(self) -> (s: &'static str)
        ensures
            s@ == comparison_name(self),
    {
        match self {
            ComparisonOperator::Equal => "EQUAL",
            ComparisonOperator::Neq => "NOT_EQUAL",
            ComparisonOperator::Gt => "GREATER",
            ComparisonOperator::Lt => "LESS",
            ComparisonOperator::Gte => "GREATER_EQUAL",
            ComparisonOperator::Lte => "LESS_EQUAL",
        }
    }
}

impl Operator {
    /// The arithmetic of a byte, if the byte is one.
    pub fn from_u8(value: u8) -> (r: Option<Self>)
        ensures
            value < 2 ==> (r matches Some(op) && operator_byte(op) == value),
            value >= 2 ==> r is None,
    {
        match value {
            0 => Some(Operator::Plus),
            1 => Some(Operator::Minus),
            _ => None,
        }
    }

    /// The byte of this operator.
    pub fn to_u8(self) -> (b: u8)
        ensures
            b == operator_byte(self),
    {
        match self {
            Operator::Plus => 0,
            Operator::Minus => 1,
        }
    }

    /// The arithmetic of an operator of the syntax tree; `None` for comparisons.
    pub fn from_ast_operator(op: ast::Operator) -> (r: Option<Self>)
        ensures
            r == arithmetic_of(op),
    {
        match op {
            ast::Operator::Plus => Some(Operator::Plus),
            ast::Operator::Minus => Some(Operator::Minus),
            _ => None,
        }
    }
}

// ----------------------------------------------------------------------------------------
// Code objects
// ----------------------------------------------------------------------------------------

/// A constant of a code object: a string, a number (as written in the source), or the code
/// of a function or class.
#[derive(Debug, PartialEq)]
pub enum Const {
    Str(String),
    Number(String),
    Code(Box<CodeObject>),
}

/// Compiled code: instruction bytes, constants, names, parameters and a name.
#[derive(Debug, PartialEq)]
pub struct CodeObject {
    pub code: Vec<u8>,
    pub consts: Vec<Const>,
    pub names: Vec<String>,
    pub args: Vec<String>,
    pub name: String,
}

/// The mathematical value of a [`Const`].
pub enum ConstView {
    Str(Seq<char>),
    Number(Seq<char>),
    Code(Box<CodeView>),
}

/// The mathematical value of a [`CodeObject`].
pub struct CodeView {
    pub code: Seq<u8>,
    pub consts: Seq<ConstView>,
    pub names: Seq<Seq<char>>,
    pub args: Seq<Seq<char>>,
    pub name: Seq<char>,
}

pub open spec fn strings_view(xs: Seq<String>) -> Seq<Seq<char>> {
    xs.map_values(|s: String| s@)
}

pub open spec fn consts_view(xs: Seq<Const>) -> Seq<ConstView>
    decreases xs,
{
    if xs.len() == 0 {
        Seq::empty()
    } else {
        consts_view(xs.subrange(0, xs.len() - 1)).push(xs[xs.len() - 1].const_view())
    }
}

impl Const {
    pub open spec fn const_view(&self) -> ConstView
        decreases self,
    {
        match self {
            Const::Str(s) => ConstView::Str(s@),
            Const::Number(s) => ConstView::Number(s@),
            Const::Code(c) => ConstView::Code(Box::new(c.code_view())),
        }
    }
}

impl CodeObject {
    pub open spec fn code_view(&self) -> CodeView
        decreases self,
    {
        CodeView {
            code: self.code@,
            consts: consts_view(self.consts@),
            names: strings_view(self.names@),
            args: strings_view(self.args@),
            name: self.name@,
        }
    }
}

impl View for CodeObject {
    type V = CodeView;

    open spec fn view(&self) -> CodeView {
        self.code_view()
    }
}

impl View for Const {
    type V = ConstView;

    open spec fn view(&self) -> ConstView {
        self.const_view()
    }
}

pub proof fn lemma_consts_view_push(xs: Seq<Const>, x: Const)
    ensures
        consts_view(xs.push(x)) == consts_view(xs).push(x.const_view()),
{
    assert(xs.push(x).subrange(0, xs.len() as int) =~= xs);
}

pub proof fn lemma_consts_view_len(xs: Seq<Const>)
    ensures
        consts_view(xs).len() == xs.len(),
    decreases xs.len(),
{
    if xs.len() > 0 {
        lemma_consts_view_len(xs.subrange(0, xs.len() - 1));
    }
}

/// The view of the constant at `i` is that constant's view.
pub proof fn lemma_consts_view_index(xs: Seq<Const>, i: int)
    requires
        0 <= i < xs.len(),
    ensures
        consts_view(xs).len() == xs.len(),
        consts_view(xs)[i] == xs[i].const_view(),
    decreases xs.len(),
{
    lemma_consts_view_len(xs);
    if i < xs.len() - 1 {
        lemma_consts_view_index(xs.subrange(0, xs.len() - 1), i);
    }
}

/// The code object that has nothing in it.
pub open spec fn empty_code() -> CodeView {
    CodeView {
        code: Seq::empty(),
        consts: Seq::empty(),
        names: Seq::empty(),
        args: Seq::empty(),
        name: Seq::empty(),
    }
}

/// The first index of `name` in `names`, or their number where it is not there.
pub open spec fn name_index(names: Seq<Seq<char>>, name: Seq<char>, i: int) -> int
    decreases names.len() - i,
{
    if 0 <= i < names.len() {
        if names[i] == name {
            i
        } else {
            name_index(names, name, i + 1)
        }
    } else {
        names.len() as int
    }
}

/// The names after `name` is added: it is appended unless it is there already.
pub open spec fn names_with(names: Seq<Seq<char>>, name: Seq<char>) -> Seq<Seq<char>> {
    if name_index(names, name, 0) < names.len() {
        names
    } else {
        names.push(name)
    }
}

/// The byte of an index: the index modulo 256.
pub open spec fn index_byte(i: int) -> u8 {
    (i % 256) as u8
}

/// Casting an index to a byte keeps it modulo 256.
pub proof fn lemma_index_byte(x: usize)
    ensures
        #[verifier::truncate]
        (x as u8) == index_byte(x as int),
{
    assert(#[verifier::truncate] (x as u8) == ((x % 256) as u8)) by (bit_vector);
}

pub proof fn lemma_name_index_range(names: Seq<Seq<char>>, name: Seq<char>, i: int)
    requires
        0 <= i <= names.len(),
    ensures
        i <= name_index(names, name, i) <= names.len(),
        name_index(names, name, i) < names.len() ==> names[name_index(names, name, i)] == name,
        forall|k: int| i <= k < name_index(names, name, i) ==> names[k] != name,
    decreases names.len() - i,
{
    if i < names.len() && names[i] != name {
        lemma_name_index_range(names, name, i + 1);
    }
}

impl CodeObject {
    /// An empty code object.
    pub fn new() -> (c: Self)
        ensures
            c@ == empty_code(),
    {
        let c = CodeObject {
            code: Vec::new(),
            consts: Vec::new(),
            names: Vec::new(),
            args: Vec::new(),
            name: String::new(),
        };
        assert(strings_view(c.names@) =~= Seq::empty());
        assert(strings_view(c.args@) =~= Seq::empty());
        c
    }

    /// Appends one byte to the instructions.
    pub fn add_instruction(&mut self, opcode: u8)
        ensures
            final(self)@ == (CodeView { code: old(self)@.code.push(opcode), ..old(self)@ }),
    {
        self.code.push(opcode);
    }

    /// Appends a constant; returns the byte of its index.
    pub fn add_const(&mut self, const_value: Const) -> (index: u8)
        ensures
            final(self)@ == (CodeView {
                consts: old(self)@.consts.push(const_value@),
                ..old(self)@
            }),
            index == index_byte(old(self)@.consts.len() as int),
    {
        proof {
            lemma_consts_view_push(self.consts@, const_value);
            lemma_consts_view_len(self.consts@);
        }
        self.consts.push(const_value);
        let last = self.consts.len() - 1;
        proof {
            lemma_index_byte(last);
        }
        #[verifier::truncate]
        (last as u8)
    }

    /// Adds a name unless it is there already; returns the byte of its index.
    pub fn add_name(&mut self, name: String) -> (index: u8)
        ensures
            final(self)@ == (CodeView {
                names: names_with(old(self)@.names, name@),
                ..old(self)@
            }),
            index == index_byte(name_index(old(self)@.names, name@, 0)),
    {
        let ghost names = strings_view(self.names@);
        proof {
            lemma_name_index_range(names, name@, 0);
        }
        let mut i: usize = 0;
        while i < self.names.len()
            invariant
                0 <= i <= self.names@.len(),
                names == strings_view(self.names@),
                self@ == old(self)@,
                forall|k: int| 0 <= k < i ==> names[k] != name@,
            decreases self.names@.len() - i,
        {
            if self.names[i] == name {
                proof {
                    lemma_name_index_range(names, name@, i as int);
                    assert(name_index(names, name@, 0) == i) by {
                        lemma_name_index_range(names, name@, 0);
                    }
                }
                proof {
                    lemma_index_byte(i);
                }
                #[verifier::truncate]
                let index = i as u8;
                return index;
            }
            i = i + 1;
        }
        proof {
            lemma_name_index_range(names, name@, 0);
        }
        self.names.push(name);
        assert(strings_view(self.names@) =~= names.push(name@));
        let last = self.names.len() - 1;
        proof {
            lemma_index_byte(last);
        }
        #[verifier::truncate]
        let index = last as u8;
        index
    }

    /// The number of instruction bytes.
    pub fn instructions_count(&self) -> (n: usize)
        ensures
            n == self@.code.len(),
    {
        self.code.len()
    }

    /// The instruction byte at `offset`.
    pub fn instruction_at(&self, offset: usize) -> (b: u8)
        requires
            offset < self@.code.len(),
        ensures
            b == self@.code[offset as int],
    {
        self.code[offset]
    }

    /// Overwrites the instruction byte at `offset`.
    pub fn set_instruction_at(&mut self, offset: usize, value: u8)
        requires
            offset < old(self)@.code.len(),
        ensures
            final(self)@ == (CodeView {
                code: old(self)@.code.update(offset as int, value),
                ..old(self)@
            }),
    {
        self.code.set(offset, value);
    }
}


// ----------------------------------------------------------------------------------------
// Disassembly
// ----------------------------------------------------------------------------------------

/// The comparison of a byte below 6.
pub open spec fn comparison_of_byte(b: u8) -> ComparisonOperator {
    if b == 0 {
        ComparisonOperator::Equal
    } else if b == 1 {
        ComparisonOperator::Neq
    } else if b == 2 {
        ComparisonOperator::Gt
    } else if b == 3 {
        ComparisonOperator::Lt
    } else if b == 4 {
        ComparisonOperator::Gte
    } else {
        ComparisonOperator::Lte
    }
}

/// The text of an instruction of two bytes, `op` and its operand `a`; `None` where the
/// disassembler cannot show it (an unknown name or comparison).
pub open spec fn operand_text(cv: CodeView, op: u8, a: u8) -> Option<Seq<char>> {
    if op == 0 {
        Some("LOAD_CONST "@ + decimal(a as nat))
    } else if op == 1 {
        Some("STORE_NAME "@ + decimal(a as nat))
    } else if op == 2 {
        if (a as int) < cv.names.len() {
            Some("LOAD_NAME "@ + decimal(a as nat) + " ("@ + cv.names[a as int] + ")"@)
        } else {
            None
        }
    } else if op == 3 {
        Some("CALL_FUNCTION "@ + decimal(a as nat))
    } else if op == 6 {
        if (a as int) < cv.names.len() {
            Some("LOAD_ATTR "@ + decimal(a as nat) + " ("@ + cv.names[a as int] + ")"@)
        } else {
            None
        }
    } else if op == 7 {
        if a < 6 {
            Some("COMPARE "@ + comparison_name(comparison_of_byte(a)))
        } else {
            None
        }
    } else if op == 8 {
        Some("JUMP_BACK "@ + decimal(a as nat))
    } else if op == 9 {
        Some("JUMP_IF_FALSE "@ + decimal(a as nat))
    } else {
        Some("JUMP "@ + decimal(a as nat))
    }
}

/// The text of the instruction at `pc` and the position of the next one; `None` where the
/// disassembler gives up: an unknown opcode, a missing operand, a position past 255.
pub open spec fn instruction_text(cv: CodeView, pc: int) -> Option<(Seq<char>, int)> {
    let op = cv.code[pc];
    if op == 4 {
        Some(("POP_TOP"@, pc + 1))
    } else if op == 5 {
        Some(("MAKE_FUNCTION"@, pc + 1))
    } else if op == 11 {
        Some(("MAKE_CLASS"@, pc + 1))
    } else if op <= 10 {
        if pc + 1 < cv.code.len() && pc + 2 <= 255 {
            match operand_text(cv, op, cv.code[pc + 1]) {
                Some(t) => Some((t, pc + 2)),
                None => None,
            }
        } else {
            None
        }
    } else {
        None
    }
}

/// The number of instruction bytes that the disassembler reads: their count as a byte.
pub open spec fn shown_count(cv: CodeView) -> int {
    cv.code.len() as int % 256
}

/// The listing of the instructions from `pc` on: each as its position with four digits, a
/// colon, and its text, one per line.
pub open spec fn disassembly_from(cv: CodeView, pc: int) -> Option<Seq<char>>
    decreases 256 - pc,
{
    if !(0 <= pc < shown_count(cv)) {
        Some(Seq::empty())
    } else {
        match instruction_text(cv, pc) {
            None => None,
            Some((t, next)) => if pc < next <= 256 {
                match disassembly_from(cv, next) {
                    None => None,
                    Some(rest) => Some(
                        decimal_pad4(pc as nat) + ": "@ + t + (if next < shown_count(cv) {
                            "\n"@
                        } else {
                            Seq::empty()
                        }) + rest,
                    ),
                }
            } else {
                None
            },
        }
    }
}

/// The listing of a code object.
pub open spec fn disassembly(cv: CodeView) -> Option<Seq<char>> {
    disassembly_from(cv, 0)
}

pub open spec fn prepend(d: Seq<char>, o: Option<Seq<char>>) -> Option<Seq<char>> {
    match o {
        Some(r) => Some(d + r),
        None => None,
    }
}

/// `label` followed by the decimal notation of `a`.
fn labelled_number(label: &str, a: u8) -> (t: String)
    ensures
        t@ == label@ + decimal(a as nat),
{
    let mut t = String::new();
    push_str(&mut t, label);
    push_decimal(&mut t, a as usize);
    assert(t@ =~= label@ + decimal(a as nat));
    t
}

/// `label`, the decimal notation of `a`, and `name` in parentheses.
fn labelled_name(label: &str, a: u8, name: &str) -> (t: String)
    ensures
        t@ == label@ + decimal(a as nat) + " ("@ + name@ + ")"@,
{
    let mut t = labelled_number(label, a);
    push_str(&mut t, " (");
    push_str(&mut t, name);
    push_str(&mut t, ")");
    t
}

/// Writes the listing of a code object.
struct Disassembler<'a> {
    output: String,
    code_object: &'a CodeObject,
}

impl<'a> Disassembler<'a> {
    fn new(code_object: &'a CodeObject) -> (d: Self)
        ensures
            d.output@ == Seq::<char>::empty(),
            d.code_object == code_object,
    {
        Disassembler { output: String::new(), code_object }
    }

    fn instructions_count(&self) -> (n: usize)
        ensures
            n == self.code_object@.code.len(),
    {
        self.code_object.code.len()
    }

    fn instruction_at(&self, offset: usize) -> (b: u8)
        requires
            offset < self.code_object@.code.len(),
        ensures
            b == self.code_object@.code[offset as int],
    {
        self.code_object.code[offset]
    }

    /// The operand of the instruction at `pc`, where there is one and the next position fits
    /// in a byte.
    fn operand(&self, pc: u8) -> (a: Option<u8>)
        ensures
            (pc + 1 < self.code_object@.code.len() && pc + 2 <= 255) ==> a == Some(
                self.code_object@.code[pc + 1],
            ),
            !(pc + 1 < self.code_object@.code.len() && pc + 2 <= 255) ==> a is None,
    {
        if pc <= 253 && (pc as usize) + 1 < self.instructions_count() {
            Some(self.instruction_at((pc + 1) as usize))
        } else {
            None
        }
    }

    fn write_load_const(&mut self, pc: u8) -> (r: Option<u8>)
        requires
            pc < old(self).code_object@.code.len(),
            old(self).code_object@.code[pc as int] == 0,
        ensures
            final(self).code_object == old(self).code_object,
            written(old(self).code_object@, pc as int, old(self).output@, final(self).output@, r),
    {
        let a = match self.operand(pc) {
            Some(a) => a,
            None => {
                return None;
            },
        };
        let t = labelled_number("LOAD_CONST ", a);
        push_str(&mut self.output, t.as_str());
        Some(pc + 2)
    }

    fn write_store_name(&mut self, pc: u8) -> (r: Option<u8>)
        requires
            pc < old(self).code_object@.code.len(),
            old(self).code_object@.code[pc as int] == 1,
        ensures
            final(self).code_object == old(self).code_object,
            written(old(self).code_object@, pc as int, old(self).output@, final(self).output@, r),
    {
        let a = match self.operand(pc) {
            Some(a) => a,
            None => {
                return None;
            },
        };
        let t = labelled_number("STORE_NAME ", a);
        push_str(&mut self.output, t.as_str());
        Some(pc + 2)
    }

    fn write_named(&mut self, pc: u8, label: &str) -> (r: Option<u8>)
        requires
            pc < old(self).code_object@.code.len(),
            old(self).code_object@.code[pc as int] == 2 && label@ == "LOAD_NAME "@
                || old(self).code_object@.code[pc as int] == 6 && label@ == "LOAD_ATTR "@,
        ensures
            final(self).code_object == old(self).code_object,
            written(old(self).code_object@, pc as int, old(self).output@, final(self).output@, r),
    {
        let a = match self.operand(pc) {
            Some(a) => a,
            None => {
                return None;
            },
        };
        if (a as usize) >= self.code_object.names.len() {
            return None;
        }
        let t = labelled_name(label, a, self.code_object.names[a as usize].as_str());
        push_str(&mut self.output, t.as_str());
        Some(pc + 2)
    }

    fn write_load_name(&mut self, pc: u8) -> (r: Option<u8>)
        requires
            pc < old(self).code_object@.code.len(),
            old(self).code_object@.code[pc as int] == 2,
        ensures
            final(self).code_object == old(self).code_object,
            written(old(self).code_object@, pc as int, old(self).output@, final(self).output@, r),
    {
        self.write_named(pc, "LOAD_NAME ")
    }

    fn write_load_attr(&mut self, pc: u8) -> (r: Option<u8>)
        requires
            pc < old(self).code_object@.code.len(),
            old(self).code_object@.code[pc as int] == 6,
        ensures
            final(self).code_object == old(self).code_object,
            written(old(self).code_object@, pc as int, old(self).output@, final(self).output@, r),
    {
        self.write_named(pc, "LOAD_ATTR ")
    }

    fn write_call_function(&mut self, pc: u8) -> (r: Option<u8>)
        requires
            pc < old(self).code_object@.code.len(),
            old(self).code_object@.code[pc as int] == 3,
        ensures
            final(self).code_object == old(self).code_object,
            written(old(self).code_object@, pc as int, old(self).output@, final(self).output@, r),
    {
        let a = match self.operand(pc) {
            Some(a) => a,
            None => {
                return None;
            },
        };
        let t = labelled_number("CALL_FUNCTION ", a);
        push_str(&mut self.output, t.as_str());
        Some(pc + 2)
    }

    fn write_compare(&mut self, pc: u8) -> (r: Option<u8>)
        requires
            pc < old(self).code_object@.code.len(),
            old(self).code_object@.code[pc as int] == 7,
        ensures
            final(self).code_object == old(self).code_object,
            written(old(self).code_object@, pc as int, old(self).output@, final(self).output@, r),
    {
        let a = match self.operand(pc) {
            Some(a) => a,
            None => {
                return None;
            },
        };
        let op = match ComparisonOperator::from_u8(a) {
            Some(op) => op,
            None => {
                return None;
            },
        };
        let mut t = String::new();
        push_str(&mut t, "COMPARE ");
        push_str(&mut t, op.name());
        assert(t@ =~= "COMPARE "@ + comparison_name(op));
        push_str(&mut self.output, t.as_str());
        Some(pc + 2)
    }

    fn write_jump_like(&mut self, pc: u8, label: &str) -> (r: Option<u8>)
        requires
            pc < old(self).code_object@.code.len(),
            old(self).code_object@.code[pc as int] == 8 && label@ == "JUMP_BACK "@
                || old(self).code_object@.code[pc as int] == 9 && label@ == "JUMP_IF_FALSE "@
                || old(self).code_object@.code[pc as int] == 10 && label@ == "JUMP "@,
        ensures
            final(self).code_object == old(self).code_object,
            written(old(self).code_object@, pc as int, old(self).output@, final(self).output@, r),
    {
        let a = match self.operand(pc) {
            Some(a) => a,
            None => {
                return None;
            },
        };
        let t = labelled_number(label, a);
        push_str(&mut self.output, t.as_str());
        Some(pc + 2)
    }

    fn write_jump_back(&mut self, pc: u8) -> (r: Option<u8>)
        requires
            pc < old(self).code_object@.code.len(),
            old(self).code_object@.code[pc as int] == 8,
        ensures
            final(self).code_object == old(self).code_object,
            written(old(self).code_object@, pc as int, old(self).output@, final(self).output@, r),
    {
        self.write_jump_like(pc, "JUMP_BACK ")
    }

    fn write_jump_if_false(&mut self, pc: u8) -> (r: Option<u8>)
        requires
            pc < old(self).code_object@.code.len(),
            old(self).code_object@.code[pc as int] == 9,
        ensures
            final(self).code_object == old(self).code_object,
            written(old(self).code_object@, pc as int, old(self).output@, final(self).output@, r),
    {
        self.write_jump_like(pc, "JUMP_IF_FALSE ")
    }

    fn write_jump(&mut self, pc: u8) -> (r: Option<u8>)
        requires
            pc < old(self).code_object@.code.len(),
            old(self).code_object@.code[pc as int] == 10,
        ensures
            final(self).code_object == old(self).code_object,
            written(old(self).code_object@, pc as int, old(self).output@, final(self).output@, r),
    {
        self.write_jump_like(pc, "JUMP ")
    }

    /// Writes an instruction of one byte.
    fn write_single(&mut self, pc: u8, label: &str) -> (r: Option<u8>)
        requires
            pc < 255,
            pc < old(self).code_object@.code.len(),
            old(self).code_object@.code[pc as int] == 4 && label@ == "POP_TOP"@
                || old(self).code_object@.code[pc as int] == 5 && label@ == "MAKE_FUNCTION"@
                || old(self).code_object@.code[pc as int] == 11 && label@ == "MAKE_CLASS"@,
        ensures
            final(self).code_object == old(self).code_object,
            written(old(self).code_object@, pc as int, old(self).output@, final(self).output@, r),
    {
        push_str(&mut self.output, label);
        Some(pc + 1)
    }

    fn write_pop_top(&mut self, pc: u8) -> (r: Option<u8>)
        requires
            pc < 255,
            pc < old(self).code_object@.code.len(),
            old(self).code_object@.code[pc as int] == 4,
        ensures
            final(self).code_object == old(self).code_object,
            written(old(self).code_object@, pc as int, old(self).output@, final(self).output@, r),
    {
        self.write_single(pc, "POP_TOP")
    }

    fn write_make_function(&mut self, pc: u8) -> (r: Option<u8>)
        requires
            pc < 255,
            pc < old(self).code_object@.code.len(),
            old(self).code_object@.code[pc as int] == 5,
        ensures
            final(self).code_object == old(self).code_object,
            written(old(self).code_object@, pc as int, old(self).output@, final(self).output@, r),
    {
        self.write_single(pc, "MAKE_FUNCTION")
    }

    fn write_make_class(&mut self, pc: u8) -> (r: Option<u8>)
        requires
            pc < 255,
            pc < old(self).code_object@.code.len(),
            old(self).code_object@.code[pc as int] == 11,
        ensures
            final(self).code_object == old(self).code_object,
            written(old(self).code_object@, pc as int, old(self).output@, final(self).output@, r),
    {
        self.write_single(pc, "MAKE_CLASS")
    }

    /// Writes the instruction at `pc`.
    fn write_instruction(&mut self, pc: u8) -> (r: Option<u8>)
        requires
            pc < old(self).code_object@.code.len(),
            pc < 255,
        ensures
            final(self).code_object == old(self).code_object,
            written(old(self).code_object@, pc as int, old(self).output@, final(self).output@, r),
    {
        let opcode = self.instruction_at(pc as usize);
        match opcode {
            0 => self.write_load_const(pc),
            1 => self.write_store_name(pc),
            2 => self.write_load_name(pc),
            3 => self.write_call_function(pc),
            4 => self.write_pop_top(pc),
            5 => self.write_make_function(pc),
            6 => self.write_load_attr(pc),
            7 => self.write_compare(pc),
            8 => self.write_jump_back(pc),
            9 => self.write_jump_if_false(pc),
            10 => self.write_jump(pc),
            11 => self.write_make_class(pc),
            _ => None,
        }
    }

    /// Writes the listing; `false` where the code cannot be shown (see [`disassembly`]).
    fn disassemble(&mut self) -> (ok: bool)
        ensures
            final(self).code_object == old(self).code_object,
            ok == disassembly(old(self).code_object@) is Some,
            ok ==> final(self).output@ == old(self).output@ + disassembly(
                old(self).code_object@,
            )->0,
    {
        let ghost cv = self.code_object@;
        let ghost out0 = self.output@;
        let len = self.instructions_count();
        proof {
            lemma_index_byte(len);
        }
        #[verifier::truncate]
        let count = len as u8;
        let mut pc: u8 = 0;
        let ghost mut done: Seq<char> = Seq::empty();
        assert(out0 + done =~= out0);
        while pc < count
            invariant
                self.code_object == old(self).code_object,
                cv == self.code_object@,
                count as int == shown_count(cv),
                count as int <= cv.code.len(),
                0 <= pc,
                self.output@ == out0 + done,
                disassembly_from(cv, 0) == prepend(done, disassembly_from(cv, pc as int)),
            decreases 256 - pc,
        {
            let ghost before = self.output@;
            push_decimal_pad4(&mut self.output, pc as usize);
            push_str(&mut self.output, ": ");
            let ghost mid = self.output@;
            let next = self.write_instruction(pc);
            let n = match next {
                Some(n) => n,
                None => {
                    return false;
                },
            };
            if n < count {
                push_char(&mut self.output, '\n');
            }
            proof {
                let pair = instruction_text(cv, pc as int)->0;
                let t = pair.0;
                let piece = decimal_pad4(pc as nat) + ": "@ + t + (if n < count {
                    "\n"@
                } else {
                    Seq::<char>::empty()
                });
                reveal_strlit("\n");
                assert(mid =~= before + (decimal_pad4(pc as nat) + ": "@));
                assert(self.output@ =~= out0 + (done + piece));
                match disassembly_from(cv, n as int) {
                    Some(rest) => {
                        assert((done + piece) + rest =~= done + (piece + rest));
                    },
                    None => {},
                }
                done = done + piece;
            }
            pc = n;
        }
        true
    }
}

/// What a `write_*` step promises: it fails exactly where the instruction cannot be shown,
/// and otherwise appends the instruction's text and yields the next position.
pub open spec fn written(cv: CodeView, pc: int, before: Seq<char>, after: Seq<char>, r: Option<u8>) -> bool {
    match instruction_text(cv, pc) {
        Some((t, next)) => r == Some(next as u8) && next <= 255 && after == before + t,
        None => r is None,
    }
}

impl CodeObject {
    /// The listing of this code object; `None` where it cannot be shown.
    pub fn try_dis(&self) -> (s: Option<String>)
        ensures
            match disassembly(self@) {
                Some(text) => s matches Some(x) && x@ == text,
                None => s is None,
            },
    {
        let mut disassembler = Disassembler::new(self);
        if disassembler.disassemble() {
            Some(disassembler.output)
        } else {
            None
        }
    }

    /// The listing of this code object.
    pub fn dis(&self) -> (s: String)
        requires
            disassembly(self@) is Some,
        ensures
            s@ == disassembly(self@)->0,
    {
        match self.try_dis() {
            Some(s) => s,
            None => String::new(),
        }
    }
}


/// A copy of a list of strings.
fn copy_strings(v: &Vec<String>) -> (r: Vec<String>)
    ensures
        strings_view(r@) == strings_view(v@),
{
    let mut r: Vec<String> = Vec::new();
    let mut i: usize = 0;
    while i < v.len()
        invariant
            0 <= i <= v@.len(),
            r@.len() == i,
            forall|k: int| 0 <= k < i ==> #[trigger] r@[k]@ == v@[k]@,
        decreases v@.len() - i,
    {
        r.push(v[i].clone());
        i = i + 1;
    }
    assert(strings_view(r@) =~= strings_view(v@));
    r
}

impl Const {
    /// A copy of this constant.
    pub fn copy(&self) -> (c: Const)
        ensures
            c@ == self@,
        decreases self,
    {
        match self {
            Const::Str(s) => Const::Str(s.clone()),
            Const::Number(s) => Const::Number(s.clone()),
            Const::Code(c) => Const::Code(Box::new(c.copy())),
        }
    }
}

impl CodeObject {
    /// A copy of this code object, constants and all.
    pub fn copy(&self) -> (c: CodeObject)
        ensures
            c@ == self@,
        decreases self,
    {
        let mut consts: Vec<Const> = Vec::new();
        let mut i: usize = 0;
        proof {
            lemma_consts_view_len(self.consts@);
        }
        while i < self.consts.len()
            invariant
                0 <= i <= self.consts@.len(),
                consts_view(consts@) == consts_view(self.consts@.subrange(0, i as int)),
            decreases self.consts@.len() - i,
        {
            proof {
                assert(decreases_to!(*self => self.consts));
                assert(decreases_to!(self.consts => self.consts@));
                assert(decreases_to!(self.consts@ => self.consts@[i as int]));
            }
            let c = self.consts[i].copy();
            proof {
                lemma_consts_view_push(consts@, c);
                lemma_consts_view_push(self.consts@.subrange(0, i as int), self.consts@[i as int]);
                assert(self.consts@.subrange(0, i + 1) =~= self.consts@.subrange(0, i as int).push(
                    self.consts@[i as int],
                ));
            }
            consts.push(c);
            i = i + 1;
        }
        assert(self.consts@.subrange(0, i as int) =~= self.consts@);
        CodeObject {
            code: self.code.clone(),
            consts,
            names: copy_strings(&self.names),
            args: copy_strings(&self.args),
            name: self.name.clone(),
        }
    }
}

/// No two opcodes share a byte, so reading back the byte of an opcode gives that opcode.
pub proof fn law_opcode_bytes_distinct(a: Opcode, b: Opcode)
    ensures
        opcode_byte(a) == opcode_byte(b) ==> a == b,
        opcode_byte(a) < 16,
{
}

/// No two comparisons share a byte.
pub proof fn law_comparison_bytes_distinct(a: ComparisonOperator, b: ComparisonOperator)
    ensures
        comparison_byte(a) == comparison_byte(b) ==> a == b,
        comparison_byte(a) < 6,
        comparison_of_byte(comparison_byte(a)) == a,
{
}

/// What `Compare` with operand `c` decides of two numbers `x` and `y`.
pub open spec fn comparison_holds(c: ComparisonOperator, x: int, y: int) -> bool {
    match c {
        ComparisonOperator::Equal => x == y,
        ComparisonOperator::Neq => x != y,
        ComparisonOperator::Gt => x > y,
        ComparisonOperator::Lt => x < y,
        ComparisonOperator::Gte => x >= y,
        ComparisonOperator::Lte => x <= y,
    }
}

/// The operand that a comparison of the syntax tree compiles to decides what the source's
/// operator says, on every pair of numbers; exactly the comparisons have such an operand, and
/// no two of them share one.
pub proof fn law_comparison_of_keeps_meaning(op: ast::Operator, other: ast::Operator)
    ensures
        comparison_of(op) is Some <==> ast::is_comparison_operator(op),
        comparison_of(op) matches Some(c) ==> forall|x: int, y: int|
            #[trigger] comparison_holds(c, x, y) == ast::operator_compares(op, x, y),
        comparison_of(op) is Some && comparison_of(op) == comparison_of(other) ==> op == other,
{
}

/// What `BinaryOp` with operand `o` computes of two numbers `x` and `y`.
pub open spec fn operator_result(o: Operator, x: int, y: int) -> int {
    match o {
        Operator::Plus => x + y,
        Operator::Minus => x - y,
    }
}

/// The operand that an arithmetic operator of the syntax tree compiles to computes what the
/// source's operator says, on every pair of numbers; exactly `+` and `-` have such an operand.
pub proof fn law_arithmetic_of_keeps_meaning(op: ast::Operator)
    ensures
        arithmetic_of(op) is Some <==> !ast::is_comparison_operator(op),
        arithmetic_of(op) matches Some(o) ==> forall|x: int, y: int|
            #[trigger] operator_result(o, x, y) == ast::operator_computes(op, x, y),
{
}

/// No two comparisons share a name in the listing.
pub proof fn law_comparison_names_distinct(a: ComparisonOperator, b: ComparisonOperator)
    ensures
        comparison_name(a) == comparison_name(b) ==> a == b,
{
    reveal_strlit("EQUAL");
    reveal_strlit("NOT_EQUAL");
    reveal_strlit("GREATER");
    reveal_strlit("LESS");
    reveal_strlit("GREATER_EQUAL");
    reveal_strlit("LESS_EQUAL");
    if comparison_name(a) == comparison_name(b) {
        assert(comparison_name(a).len() == comparison_name(b).len());
    }
}

/// The word with which the listing starts the text of a two-byte instruction.
spec fn operand_word(op: u8) -> Seq<char> {
    if op == 0 {
        "LOAD_CONST "@
    } else if op == 1 {
        "STORE_NAME "@
    } else if op == 2 {
        "LOAD_NAME "@
    } else if op == 3 {
        "CALL_FUNCTION "@
    } else if op == 6 {
        "LOAD_ATTR "@
    } else if op == 7 {
        "COMPARE "@
    } else if op == 8 {
        "JUMP_BACK "@
    } else if op == 9 {
        "JUMP_IF_FALSE "@
    } else {
        "JUMP "@
    }
}

proof fn lemma_operand_text_word(cv: CodeView, op: u8, a: u8)
    requires
        op <= 10,
        op != 4,
        op != 5,
    ensures
        operand_text(cv, op, a) matches Some(t) ==> t.len() >= operand_word(op).len() && forall|j: int|
            0 <= j < operand_word(op).len() ==> #[trigger] t[j] == operand_word(op)[j],
{
    let w = operand_word(op);
    match operand_text(cv, op, a) {
        Some(t) => {
            if op == 2 || op == 6 {
                let name = cv.names[a as int];
                assert(t =~= w + (decimal(a as nat) + " ("@ + name + ")"@));
            } else if op == 7 {
                assert(t =~= w + comparison_name(comparison_of_byte(a)));
            } else {
                assert(t =~= w + decimal(a as nat));
            }
        },
        None => {},
    }
}

/// The listing names each instruction of two bytes by its own word: no two such
/// instructions with different opcodes read the same, whatever their operands.
pub proof fn law_operand_texts_distinct(cv: CodeView, op1: u8, a: u8, op2: u8, b: u8)
    requires
        op1 <= 10 && op1 != 4 && op1 != 5,
        op2 <= 10 && op2 != 4 && op2 != 5,
        op1 != op2,
    ensures
        operand_text(cv, op1, a) is Some && operand_text(cv, op2, b) is Some ==> operand_text(
            cv,
            op1,
            a,
        ) != operand_text(cv, op2, b),
{
    reveal_strlit("LOAD_CONST ");
    reveal_strlit("STORE_NAME ");
    reveal_strlit("LOAD_NAME ");
    reveal_strlit("CALL_FUNCTION ");
    reveal_strlit("LOAD_ATTR ");
    reveal_strlit("COMPARE ");
    reveal_strlit("JUMP_BACK ");
    reveal_strlit("JUMP_IF_FALSE ");
    reveal_strlit("JUMP ");
    lemma_operand_text_word(cv, op1, a);
    lemma_operand_text_word(cv, op2, b);
    if operand_text(cv, op1, a) is Some && operand_text(cv, op2, b) is Some && operand_text(cv, op1, a)
        == operand_text(cv, op2, b) {
        let t = operand_text(cv, op1, a).unwrap();
        let w1 = operand_word(op1);
        let w2 = operand_word(op2);
        assert(t[0] == w1[0] && t[0] == w2[0]);
        assert(t[1] == w1[1] && t[1] == w2[1]);
        assert(t[4] == w1[4] && t[4] == w2[4]);
        if w1.len() > 5 && w2.len() > 5 {
            assert(t[5] == w1[5] && t[5] == w2[5]);
        }
    }
}

/// No two arithmetic operators share a byte.
pub proof fn law_operator_bytes_distinct(a: Operator, b: Operator)
    ensures
        operator_byte(a) == operator_byte(b) ==> a == b,
        operator_byte(a) < 2,
{
}

proof fn lemma_name_index_push(names: Seq<Seq<char>>, name: Seq<char>, i: int)
    requires
        0 <= i <= names.len(),
        name_index(names, name, i) == names.len(),
    ensures
        name_index(names.push(name), name, i) == names.len(),
    decreases names.len() - i,
{
    if i < names.len() {
        lemma_name_index_push(names, name, i + 1);
    }
}

/// Adding a name that is there already changes nothing and yields the same index; so adding
/// a name twice is the same as adding it once.
pub proof fn law_add_name_idempotent(names: Seq<Seq<char>>, name: Seq<char>)
    ensures
        names_with(names_with(names, name), name) == names_with(names, name),
        name_index(names_with(names, name), name, 0) == name_index(names, name, 0),
        name_index(names, name, 0) < names_with(names, name).len(),
        names_with(names, name)[name_index(names, name, 0)] == name,
{
    lemma_name_index_range(names, name, 0);
    if name_index(names, name, 0) == names.len() {
        lemma_name_index_push(names, name, 0);
        lemma_name_index_range(names.push(name), name, 0);
    }
}

} // verus!
