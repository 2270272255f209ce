//! Machine instructions of the Ola target: their opcodes and operands.

use crate::register::{Reg, VReg};
use vstd::prelude::*;

verus! {

/// A basic block of the machine function, named by its number.
#[derive(Clone, Copy, Debug, PartialEq, Eq, Structural)]
pub struct MachBlockId(pub usize);

/// The opcodes that call, return and extract-value lowering select.
#[derive(Clone, Copy, Debug, PartialEq, Eq, Structural)]
pub enum Opcode {
    /// Copies an immediate into a register.
    MOVri,
    /// Copies a register into a register.
    MOVrr,
    /// Calls a function.
    CALL,
    /// Asks the prover for a value.
    PROPHET,
    /// Returns to the caller.
    RET,
    /// Fails unless its two inputs are equal.
    ASSERTri,
    /// Fails unless its input is in range.
    RANGECHECK,
    /// Writes the storage slot named by the storage argument registers.
    SSTORE,
    /// Reads the storage slot named by the storage argument registers.
    SLOAD,
    /// Hashes what the storage argument registers hold.
    POSEIDON,
}

/// What an operand holds.
#[derive(Debug, PartialEq, Eq)]
pub enum OperandData {
    /// An immediate integer.
    Int32(i32),
    /// A physical register.
    Reg(Reg),
    /// A virtual register.
    VReg(VReg),
    /// A label, by its name.
    Label(String),
}

/// The model of an [`OperandData`].
pub enum OperandDataView {
    Int32(i32),
    Reg(Reg),
    VReg(VReg),
    Label(Seq<char>),
}

impl View for OperandData {
    type V = OperandDataView;

    open spec fn view(&self) -> OperandDataView {
        match self {
            OperandData::Int32(i) => OperandDataView::Int32(*i),
            OperandData::Reg(r) => OperandDataView::Reg(*r),
            OperandData::VReg(v) => OperandDataView::VReg(*v),
            OperandData::Label(name) => OperandDataView::Label(name@),
        }
    }
}

impl DeepView for OperandData {
    type V = OperandDataView;

    open spec fn deep_view(&self) -> OperandDataView {
        self@
    }
}

impl Clone for OperandData {
    fn clone(&self) -> (copy: Self)
        ensures
            copy@ == self@,
    {
        match self {
            OperandData::Int32(i) => OperandData::Int32(*i),
            OperandData::Reg(r) => OperandData::Reg(*r),
            OperandData::VReg(v) => OperandData::VReg(*v),
            OperandData::Label(name) => OperandData::Label(name.clone()),
        }
    }
}

/// An operand of a machine instruction: what it holds, and whether the
/// instruction reads it, writes it, and names it in its text.
#[derive(Debug, PartialEq, Eq)]
pub struct Operand {
    pub data: OperandData,
    pub input: bool,
    pub output: bool,
    pub implicit: bool,
}

/// The model of an [`Operand`].
pub struct OperandView {
    pub data: OperandDataView,
    pub input: bool,
    pub output: bool,
    pub implicit: bool,
}

impl OperandView {
    /// An operand that the instruction reads.
    pub open spec fn input(data: OperandDataView) -> OperandView {
        OperandView { data, input: true, output: false, implicit: false }
    }

    /// An operand that the instruction writes.
    pub open spec fn output(data: OperandDataView) -> OperandView {
        OperandView { data, input: false, output: true, implicit: false }
    }

    /// An operand that the instruction writes without naming it in its text.
    pub open spec fn implicit_output(data: OperandDataView) -> OperandView {
        OperandView { data, input: false, output: true, implicit: true }
    }

    /// An operand that the instruction neither reads nor writes.
    pub open spec fn plain(data: OperandDataView) -> OperandView {
        OperandView { data, input: false, output: false, implicit: false }
    }
}

impl View for Operand {
    type V = OperandView;

    open spec fn view(&self) -> OperandView {
        OperandView {
            data: self.data@,
            input: self.input,
            output: self.output,
            implicit: self.implicit,
        }
    }
}

impl DeepView for Operand {
    type V = OperandView;

    open spec fn deep_view(&self) -> OperandView {
        self@
    }
}

impl Operand {
    /// An operand that the instruction neither reads nor writes.
    pub fn new(data: OperandData) -> (op: Self)
        ensures
            op@ == OperandView::plain(data@),
    {
        Operand { data, input: false, output: false, implicit: false }
    }

    /// An operand that the instruction reads.
    pub fn input(data: OperandData) -> (op: Self)
        ensures
            op@ == OperandView::input(data@),
    {
        Operand { data, input: true, output: false, implicit: false }
    }

    /// An operand that the instruction writes.
    pub fn output(data: OperandData) -> (op: Self)
        ensures
            op@ == OperandView::output(data@),
    {
        Operand { data, input: false, output: true, implicit: false }
    }

    /// An operand that the instruction writes without naming it in its text.
    pub fn implicit_output(data: OperandData) -> (op: Self)
        ensures
            op@ == OperandView::implicit_output(data@),
    {
        Operand { data, input: false, output: true, implicit: true }
    }
}

/// An opcode with its operands.
#[derive(Debug, PartialEq, Eq)]
pub struct InstructionData {
    pub opcode: Opcode,
    pub operands: Vec<Operand>,
}

/// A machine instruction in its block.
#[derive(Debug, PartialEq, Eq)]
pub struct Instruction {
    pub data: InstructionData,
    pub parent: MachBlockId,
}

/// The model of an [`Instruction`].
pub struct InstructionView {
    pub opcode: Opcode,
    pub operands: Seq<OperandView>,
    pub parent: MachBlockId,
}

impl View for Instruction {
    type V = InstructionView;

    open spec fn view(&self) -> InstructionView {
        InstructionView {
            opcode: self.data.opcode,
            operands: self.data.operands.deep_view(),
            parent: self.parent,
        }
    }
}

impl DeepView for Instruction {
    type V = InstructionView;

    open spec fn deep_view(&self) -> InstructionView {
        self@
    }
}

impl Instruction {
    /// The instruction `data` in block `parent`.
    pub fn new(data: InstructionData, parent: MachBlockId) -> (inst: Self)
        ensures
            inst@ == (InstructionView {
                opcode: data.opcode,
                operands: data.operands.deep_view(),
                parent,
            }),
    {
        Instruction { data, parent }
    }
}

/// A copy of `src` into `dst`, by `opcode`.
pub open spec fn spec_move(
    opcode: Opcode,
    dst: OperandDataView,
    src: OperandDataView,
    parent: MachBlockId,
) -> InstructionView {
    InstructionView {
        opcode,
        operands: seq![OperandView::output(dst), OperandView::input(src)],
        parent,
    }
}

} // verus!
