//! Bytecode of the script virtual machine: instructions, constant pools and
//! compiled functions.

use crate::ast::{AssignOp, BinaryOp, UnaryOp};
use crate::span::Span;
use vstd::prelude::*;

verus! {

broadcast use vstd::string::group_string_axioms;

/// Constant pool entry.
#[derive(Debug, PartialEq)]
pub enum Constant {
    /// Number constant, as the literal's source text.
    Number(String),
    /// String constant.
    String(String),
    /// Boolean constant.
    Boolean(bool),
    /// Null constant.
    Null,
    /// Undefined constant.
    Undefined,
    /// Nested function constant.
    Function(BytecodeFunction),
}

/// Compiled bytecode function.
#[derive(Debug, PartialEq)]
pub struct BytecodeFunction {
    /// Function name, if available.
    pub name: Option<String>,
    /// Function parameters.
    pub params: Vec<String>,
    /// Constant pool.
    pub constants: Vec<Constant>,
    /// Instruction stream.
    pub instructions: Vec<Instruction>,
    /// Source span.
    pub span: Span,
}

/// Bytecode instruction.
#[derive(Debug, Clone, PartialEq, Eq)]
pub enum Instruction {
    /// Push a constant by index.
    LoadConst(u32),
    /// Push undefined.
    LoadUndefined,
    /// Load a global variable/property.
    LoadGlobal(String),
    /// Store a global variable/property.
    StoreGlobal(String),
    /// Load a local/scoped binding.
    LoadName(String),
    /// Store a local/scoped binding.
    StoreName(String),
    /// Declare a scoped binding.
    DeclareName(String),
    /// Pop stack top.
    Pop,
    /// Duplicate stack top.
    Dup,
    /// Create a new object.
    NewObject,
    /// Create a new array.
    NewArray(usize),
    /// Define object property. Stack: object, value -> object.
    DefineProperty(String),
    /// Get property. Stack: object, key -> value.
    GetProperty,
    /// Set property. Stack: object, key, value -> value.
    SetProperty,
    /// Get static property. Stack: object -> value.
    GetNamedProperty(String),
    /// Set static property. Stack: object, value -> value.
    SetNamedProperty(String),
    /// Unary operation.
    Unary(UnaryOp),
    /// Binary operation.
    Binary(BinaryOp),
    /// Assignment operation helper.
    Assignment(AssignOp),
    /// Function call with argument count.
    Call(usize),
    /// Construct with argument count.
    New(usize),
    /// Unconditional jump.
    Jump {
        /// Absolute instruction target.
        target: usize,
    },
    /// Jump if falsey. Consumes test.
    JumpIfFalse {
        /// Absolute instruction target.
        target: usize,
    },
    /// Jump if truthy. Consumes test.
    JumpIfTruthy {
        /// Absolute instruction target.
        target: usize,
    },
    /// Return from current function.
    Return,
    /// Enter lexical scope.
    EnterScope,
    /// Exit lexical scope.
    ExitScope,
    /// Runtime no-op.
    Nop,
}

/// Model of an instruction: names as character sequences.
pub enum Instr {
    LoadConst(u32),
    LoadUndefined,
    LoadGlobal(Seq<char>),
    StoreGlobal(Seq<char>),
    LoadName(Seq<char>),
    StoreName(Seq<char>),
    DeclareName(Seq<char>),
    Pop,
    Dup,
    NewObject,
    NewArray(usize),
    DefineProperty(Seq<char>),
    GetProperty,
    SetProperty,
    GetNamedProperty(Seq<char>),
    SetNamedProperty(Seq<char>),
    Unary(UnaryOp),
    Binary(BinaryOp),
    Assignment(AssignOp),
    Call(usize),
    New(usize),
    Jump(usize),
    JumpIfFalse(usize),
    JumpIfTruthy(usize),
    Return,
    EnterScope,
    ExitScope,
    Nop,
}

impl View for Instruction {
    type V = Instr;

    open spec fn view(&self) -> Instr {
        match self {
            Instruction::LoadConst(i) => Instr::LoadConst(*i),
            Instruction::LoadUndefined => Instr::LoadUndefined,
            Instruction::LoadGlobal(n) => Instr::LoadGlobal(n@),
            Instruction::StoreGlobal(n) => Instr::StoreGlobal(n@),
            Instruction::LoadName(n) => Instr::LoadName(n@),
            Instruction::StoreName(n) => Instr::StoreName(n@),
            Instruction::DeclareName(n) => Instr::DeclareName(n@),
            Instruction::Pop => Instr::Pop,
            Instruction::Dup => Instr::Dup,
            Instruction::NewObject => Instr::NewObject,
            Instruction::NewArray(n) => Instr::NewArray(*n),
            Instruction::DefineProperty(n) => Instr::DefineProperty(n@),
            Instruction::GetProperty => Instr::GetProperty,
            Instruction::SetProperty => Instr::SetProperty,
            Instruction::GetNamedProperty(n) => Instr::GetNamedProperty(n@),
            Instruction::SetNamedProperty(n) => Instr::SetNamedProperty(n@),
            Instruction::Unary(op) => Instr::Unary(*op),
            Instruction::Binary(op) => Instr::Binary(*op),
            Instruction::Assignment(op) => Instr::Assignment(*op),
            Instruction::Call(n) => Instr::Call(*n),
            Instruction::New(n) => Instr::New(*n),
            Instruction::Jump { target } => Instr::Jump(*target),
            Instruction::JumpIfFalse { target } => Instr::JumpIfFalse(*target),
            Instruction::JumpIfTruthy { target } => Instr::JumpIfTruthy(*target),
            Instruction::Return => Instr::Return,
            Instruction::EnterScope => Instr::EnterScope,
            Instruction::ExitScope => Instr::ExitScope,
            Instruction::Nop => Instr::Nop,
        }
    }
}

/// Model of a constant.
pub enum ConstView {
    Number(Seq<char>),
    String(Seq<char>),
    Boolean(bool),
    Null,
    Undefined,
    Function(FnView),
}

/// Model of a compiled function.
pub struct FnView {
    pub name: Option<Seq<char>>,
    pub params: Seq<Seq<char>>,
    pub constants: Seq<ConstView>,
    pub instructions: Seq<Instr>,
    pub span: Span,
}

/// Views of a list of instructions.
pub open spec fn instr_views(s: Seq<Instruction>) -> Seq<Instr> {
    s.map_values(|i: Instruction| i@)
}

/// Model of a constant.
pub open spec fn const_view(c: Constant) -> ConstView
    decreases c,
{
    match c {
        Constant::Number(n) => ConstView::Number(n@),
        Constant::String(s) => ConstView::String(s@),
        Constant::Boolean(b) => ConstView::Boolean(b),
        Constant::Null => ConstView::Null,
        Constant::Undefined => ConstView::Undefined,
        Constant::Function(f) => ConstView::Function(fn_view(f)),
    }
}

/// Model of a compiled function.
pub open spec fn fn_view(f: BytecodeFunction) -> FnView
    decreases f,
{
    FnView {
        name: match f.name {
            Some(n) => Some(n@),
            None => None,
        },
        params: f.params@.map_values(|p: String| p@),
        constants: Seq::new(
            f.constants@.len(),
            |i: int|
                if 0 <= i < f.constants@.len() {
                    const_view(f.constants@[i])
                } else {
                    ConstView::Null
                },
        ),
        instructions: instr_views(f.instructions@),
        span: f.span,
    }
}

/// Views of a constant pool.
pub open spec fn const_views(s: Seq<Constant>) -> Seq<ConstView> {
    Seq::new(s.len(), |i: int| const_view(s[i]))
}

/// The constant pool of a function is the views of its constants.
pub proof fn lemma_fn_view_constants(f: BytecodeFunction)
    ensures
        fn_view(f).constants == const_views(f.constants@),
{
    assert(fn_view(f).constants =~= const_views(f.constants@));
}

/// A jump at `i` pointed at `t`; anything else there is left alone.
pub open spec fn patched(code: Seq<Instr>, i: int, t: usize) -> Seq<Instr> {
    if 0 <= i < code.len() {
        match code[i] {
            Instr::Jump(_) => code.update(i, Instr::Jump(t)),
            Instr::JumpIfFalse(_) => code.update(i, Instr::JumpIfFalse(t)),
            Instr::JumpIfTruthy(_) => code.update(i, Instr::JumpIfTruthy(t)),
            _ => code,
        }
    } else {
        code
    }
}

/// The index of a constant added to a pool of `n` (saturating at `u32::MAX`).
pub open spec fn const_index(n: nat) -> u32 {
    if n <= u32::MAX {
        n as u32
    } else {
        u32::MAX
    }
}

impl BytecodeFunction {
    /// Creates an empty bytecode function.
    pub fn new(name: Option<String>, params: Vec<String>, span: Span) -> (f: Self)
        ensures
            f.name == name,
            f.params == params,
            f.constants@.len() == 0,
            f.instructions@.len() == 0,
            f.span == span,
    {
        Self { name, params, constants: Vec::new(), instructions: Vec::new(), span }
    }

    /// Adds a constant and returns its index (saturating at `u32::MAX`).
    pub fn push_constant(&mut self, constant: Constant) -> (i: u32)
        ensures
            final(self).constants@ == old(self).constants@.push(constant),
            final(self).instructions == old(self).instructions,
            final(self).name == old(self).name,
            final(self).params == old(self).params,
            final(self).span == old(self).span,
            i == const_index(old(self).constants@.len()),
    {
        let n = self.constants.len();
        self.constants.push(constant);
        if n <= 0xffff_ffffusize {
            n as u32
        } else {
            u32::MAX
        }
    }

    /// Adds an instruction and returns its index.
    pub fn push_instruction(&mut self, instruction: Instruction) -> (i: usize)
        ensures
            final(self).instructions@ == old(self).instructions@.push(instruction),
            final(self).constants == old(self).constants,
            final(self).name == old(self).name,
            final(self).params == old(self).params,
            final(self).span == old(self).span,
            i == old(self).instructions@.len(),
    {
        let n = self.instructions.len();
        self.instructions.push(instruction);
        n
    }

    /// Points the jump at `instruction_index` to `target`; any other
    /// instruction, or an index past the end, is left alone.
    pub fn patch_jump(&mut self, instruction_index: usize, target: usize)
        ensures
            instr_views(final(self).instructions@) == patched(
                instr_views(old(self).instructions@),
                instruction_index as int,
                target,
            ),
            final(self).constants == old(self).constants,
            final(self).name == old(self).name,
            final(self).params == old(self).params,
            final(self).span == old(self).span,
    {
        if instruction_index < self.instructions.len() {
            let replacement = match &self.instructions[instruction_index] {
                Instruction::Jump { .. } => Some(Instruction::Jump { target }),
                Instruction::JumpIfFalse { .. } => Some(Instruction::JumpIfFalse { target }),
                Instruction::JumpIfTruthy { .. } => Some(Instruction::JumpIfTruthy { target }),
                _ => None,
            };
            match replacement {
                Some(r) => {
                    self.instructions.set(instruction_index, r);
                    assert(instr_views(self.instructions@) =~= patched(
                        instr_views(old(self).instructions@),
                        instruction_index as int,
                        target,
                    ));
                },
                None => {},
            }
        }
    }
}

} // verus!
