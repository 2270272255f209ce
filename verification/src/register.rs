//! Physical and virtual registers of the Ola target, and its calling convention.

use vstd::prelude::*;

verus! {

/// The general-purpose registers of the machine.
#[derive(Clone, Copy, Debug, PartialEq, Eq, Structural)]
pub enum GR {
    R0,
    R1,
    R2,
    R3,
    R4,
    R5,
    R6,
    R7,
    R8,
    R9,
}

/// A register class of the machine. The Ola target has a single class.
#[derive(Clone, Copy, Debug, PartialEq, Eq, Structural)]
pub enum RegClass {
    GR,
}

/// A physical register: a class and a position in that class.
#[derive(Clone, Copy, Debug, PartialEq, Eq, Structural)]
pub struct Reg {
    pub class: RegClass,
    pub index: u8,
}

/// A virtual register, named by its position in the table that typed it.
#[derive(Clone, Copy, Debug, PartialEq, Eq, Structural)]
pub struct VReg(pub usize);

impl GR {
    /// Position of the register in its class.
    pub open spec fn spec_index(self) -> u8 {
        match self {
            GR::R0 => 0,
            GR::R1 => 1,
            GR::R2 => 2,
            GR::R3 => 3,
            GR::R4 => 4,
            GR::R5 => 5,
            GR::R6 => 6,
            GR::R7 => 7,
            GR::R8 => 8,
            GR::R9 => 9,
        }
    }

    /// The physical register that this name stands for.
    pub open spec fn spec_reg(self) -> Reg {
        Reg { class: RegClass::GR, index: self.spec_index() }
    }

    /// Position of the register in its class.
    pub fn index(self) -> (i: u8)
        ensures
            i == self.spec_index(),
    {
        match self {
            GR::R0 => 0,
            GR::R1 => 1,
            GR::R2 => 2,
            GR::R3 => 3,
            GR::R4 => 4,
            GR::R5 => 5,
            GR::R6 => 6,
            GR::R7 => 7,
            GR::R8 => 8,
            GR::R9 => 9,
        }
    }

    /// The physical register that this name stands for.
    pub fn reg(self) -> (r: Reg)
        ensures
            r == self.spec_reg(),
    {
        Reg { class: RegClass::GR, index: self.index() }
    }
}

/// Number of limbs in the result of a storage read or a hash.
pub const WIDE_RESULT_LIMBS: usize = 4;

/// The register in which a call or a prophet hands back its result.
pub open spec fn spec_return_reg() -> Reg {
    GR::R0.spec_reg()
}

/// The registers in which a storage read or a hash hands back its result,
/// in limb order.
pub open spec fn spec_wide_result_regs() -> Seq<Reg> {
    seq![GR::R1.spec_reg(), GR::R2.spec_reg(), GR::R3.spec_reg(), GR::R4.spec_reg()]
}

/// The register in which a call or a prophet hands back its result.
pub fn return_reg() -> (r: Reg)
    ensures
        r == spec_return_reg(),
{
    GR::R0.reg()
}

/// The register that holds limb `limb` of the result of a storage read or a
/// hash.
pub fn wide_result_reg(limb: usize) -> (r: Reg)
    requires
        limb < WIDE_RESULT_LIMBS,
    ensures
        r == spec_wide_result_regs()[limb as int],
{
    if limb == 0 {
        GR::R1.reg()
    } else if limb == 1 {
        GR::R2.reg()
    } else if limb == 2 {
        GR::R3.reg()
    } else {
        GR::R4.reg()
    }
}

/// The model of a calling convention: the registers that take arguments, in
/// the order in which they are used.
pub struct CallConvView {
    /// Registers for the arguments of an ordinary call, one per argument.
    pub arg_regs: Seq<Reg>,
    /// Registers for the arguments of a storage or hash call, one per limb.
    pub str_arg_regs: Seq<Reg>,
}

/// A calling convention: which physical register takes which argument.
pub struct CallConv {
    arg_regs: Vec<Reg>,
    str_arg_regs: Vec<Reg>,
}

impl View for CallConv {
    type V = CallConvView;

    closed spec fn view(&self) -> CallConvView {
        CallConvView { arg_regs: self.arg_regs@, str_arg_regs: self.str_arg_regs@ }
    }
}

/// The argument registers of the Ola convention for ordinary calls.
pub open spec fn spec_ola_arg_regs() -> Seq<Reg> {
    seq![GR::R1.spec_reg(), GR::R2.spec_reg(), GR::R3.spec_reg()]
}

/// The argument registers of the Ola convention for storage and hash calls.
pub open spec fn spec_ola_str_arg_regs() -> Seq<Reg> {
    seq![
        GR::R1.spec_reg(),
        GR::R2.spec_reg(),
        GR::R3.spec_reg(),
        GR::R4.spec_reg(),
        GR::R5.spec_reg(),
        GR::R6.spec_reg(),
        GR::R7.spec_reg(),
        GR::R8.spec_reg(),
    ]
}

impl CallConv {
    /// A convention with the given register lists.
    pub fn new(arg_regs: Vec<Reg>, str_arg_regs: Vec<Reg>) -> (cc: Self)
        ensures
            cc@.arg_regs == arg_regs@,
            cc@.str_arg_regs == str_arg_regs@,
    {
        CallConv { arg_regs, str_arg_regs }
    }

    /// The convention of the Ola target: three registers for ordinary
    /// arguments, eight for the limbs of storage and hash arguments.
    pub fn ola() -> (cc: Self)
        ensures
            cc@.arg_regs == spec_ola_arg_regs(),
            cc@.str_arg_regs == spec_ola_str_arg_regs(),
    {
        let arg_regs = vec![GR::R1.reg(), GR::R2.reg(), GR::R3.reg()];
        let str_arg_regs = vec![
            GR::R1.reg(),
            GR::R2.reg(),
            GR::R3.reg(),
            GR::R4.reg(),
            GR::R5.reg(),
            GR::R6.reg(),
            GR::R7.reg(),
            GR::R8.reg(),
        ];
        CallConv { arg_regs, str_arg_regs }
    }

    /// The registers for the arguments of an ordinary call.
    pub fn arg_reg_list(&self) -> (regs: &Vec<Reg>)
        ensures
            regs@ == self@.arg_regs,
    {
        &self.arg_regs
    }

    /// The registers for the limbs of the arguments of a storage or hash call.
    pub fn str_arg_reg_list(&self) -> (regs: &Vec<Reg>)
        ensures
            regs@ == self@.str_arg_regs,
    {
        &self.str_arg_regs
    }
}

} // verus!
