use vstd::prelude::*;

use crate::bytecode::{lemma_consts_view_index, lemma_consts_view_len, CodeObject, CodeView, Const};
use crate::errors::{Error, ErrorView};
use crate::text::push_str;
use std::sync::Arc;

verus! {

/// The value `None` of the language.
#[derive(Debug, Clone, Copy, PartialEq, Eq, Structural)]
pub struct KyaNone;

/// The settings of a run of the virtual machine: the directory that imports are read from.
#[derive(Debug)]
pub struct Interpreter {
    root: String,
}

impl Interpreter {
    /// The directory that imports are read from.
    pub closed spec fn root(&self) -> Seq<char> {
        self.root@
    }

    /// An interpreter that reads imports from `root`.
    pub fn new(root: &str) -> (i: Self)
        ensures
            i.root() == root@,
    {
        Interpreter { root: root.to_string() }
    }

    /// The directory that imports are read from.
    pub fn root_path(&self) -> (s: &str)
        ensures
            s@ == self.root(),
    {
        self.root.as_str()
    }
}

/// The state of one running code object that the machine's decisions read: its code, where the
/// next byte is read, the stack of values, and what it returned or raised. The names it binds
/// live in dictionaries that the runtime keeps beside it.
pub struct Frame<T> {
    pub code: Arc<CodeObject>,
    pub pc: usize,
    pub stack: Vec<T>,
    pub return_value: Option<T>,
    pub error: Option<T>,
}

/// The mathematical value of a [`Frame`].
pub struct FrameView<T> {
    pub code: CodeView,
    pub pc: int,
    pub stack: Seq<T>,
    pub return_value: Option<T>,
    pub error: Option<T>,
}

impl<T> View for Frame<T> {
    type V = FrameView<T>;

    open spec fn view(&self) -> FrameView<T> {
        FrameView {
            code: self.code@,
            pc: self.pc as int,
            stack: self.stack@,
            return_value: self.return_value,
            error: self.error,
        }
    }
}

/// The error of a pop from an empty stack.
pub open spec fn empty_stack_error() -> ErrorView {
    ErrorView::RuntimeError("Attempted to pop from an empty stack"@)
}

impl<T> Frame<T> {
    /// A frame at the start of `code`, with an empty stack.
    pub fn new(code: Arc<CodeObject>) -> (f: Self)
        ensures
            f@ == (FrameView::<T> {
                code: code@,
                pc: 0,
                stack: Seq::empty(),
                return_value: None,
                error: None,
            }),
    {
        Frame { code, pc: 0, stack: Vec::new(), return_value: None, error: None }
    }

    /// The name at `index` of the code's names, if there is one.
    pub fn get_name(&self, index: usize) -> (r: Option<String>)
        ensures
            index < self@.code.names.len() ==> (r matches Some(s) && s@ == self@.code.names[index as int]),
            index >= self@.code.names.len() ==> r is None,
    {
        if index < self.code.names.len() {
            return Some(self.code.names[index].clone());
        }
        None
    }

    /// The constant at `index` of the code's constants, if there is one.
    pub fn get_const(&self, index: usize) -> (r: Option<&Const>)
        ensures
            index < self@.code.consts.len() ==> (r matches Some(c) && c@ == self@.code.consts[index as int]),
            index >= self@.code.consts.len() ==> r is None,
    {
        proof {
            lemma_consts_view_len(self.code.consts@);
        }
        if index < self.code.consts.len() {
            proof {
                lemma_consts_view_index(self.code.consts@, index as int);
            }
            return Some(&self.code.consts[index]);
        }
        None
    }

    /// Where the next byte is read.
    pub fn current_pc(&self) -> (pc: usize)
        ensures
            pc == self.pc,
    {
        self.pc
    }

    /// Moves to `pc`.
    pub fn set_pc(&mut self, pc: usize)
        ensures
            final(self)@ == (FrameView { pc: pc as int, ..old(self)@ }),
    {
        self.pc = pc;
    }

    /// Moves `offset` bytes forward.
    pub fn increment_pc(&mut self, offset: usize)
        requires
            old(self).pc + offset <= usize::MAX,
        ensures
            final(self)@ == (FrameView { pc: old(self).pc + offset, ..old(self)@ }),
    {
        self.pc = self.pc + offset;
    }

    /// Reads the next byte of the code. Reading past the end stops the machine, so that is
    /// left out.
    pub fn next_opcode(&mut self) -> (b: u8)
        requires
            old(self).pc < old(self)@.code.code.len(),
        ensures
            b == old(self)@.code.code[old(self).pc as int],
            final(self)@ == (FrameView { pc: old(self).pc + 1, ..old(self)@ }),
    {
        let _code_len = self.code.instructions_count();
        let value = self.code.instruction_at(self.pc);
        self.pc = self.pc + 1;
        value
    }

    /// The number of bytes of the code.
    pub fn current_code_length(&self) -> (n: usize)
        ensures
            n == self@.code.code.len(),
    {
        self.code.instructions_count()
    }

    /// Pushes a value.
    pub fn push_stack(&mut self, object: T)
        ensures
            final(self)@ == (FrameView { stack: old(self)@.stack.push(object), ..old(self)@ }),
    {
        self.stack.push(object);
    }

    /// Pops the top value, or fails on an empty stack.
    pub fn pop_stack(&mut self) -> (r: Result<T, Error>)
        ensures
            old(self)@.stack.len() > 0 ==> r == Ok::<T, Error>(old(self)@.stack.last()) && final(self)@
                == (FrameView { stack: old(self)@.stack.drop_last(), ..old(self)@ }),
            old(self)@.stack.len() == 0 ==> (r matches Err(e) && e@ == empty_stack_error())
                && final(self)@ == old(self)@,
    {
        match self.stack.pop() {
            Some(object) => Ok(object),
            None => {
                let mut message = String::new();
                push_str(&mut message, "Attempted to pop from an empty stack");
                Err(Error::RuntimeError(message))
            },
        }
    }

    /// Records what the frame returns.
    pub fn set_return_value(&mut self, value: Option<T>)
        ensures
            final(self)@ == (FrameView { return_value: value, ..old(self)@ }),
    {
        self.return_value = value;
    }

    /// Records what the frame raised.
    pub fn set_error(&mut self, error: Option<T>)
        ensures
            final(self)@ == (FrameView { error: error, ..old(self)@ }),
    {
        self.error = error;
    }
}

} // verus!
