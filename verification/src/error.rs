//! The ways in which lowering an instruction can fail.

use crate::ir::ValueId;
use crate::types::Type;
use vstd::prelude::*;

verus! {

/// Why an instruction could not be lowered. Each failure ends the lowering of
/// the function that holds the instruction.
#[derive(Debug, PartialEq, Eq)]
pub enum LoweringError {
    /// The callee is not a global that is known by its name.
    UnsupportedCallee(ValueId),
    /// The callee's name begins like a builtin's and is none that is known.
    UnrecognizedBuiltin(String),
    /// The value is of a kind that cannot be turned into operands.
    UnsupportedValue(ValueId),
    /// The argument became an operand that no move can copy into a register.
    UnsupportedArgument(ValueId),
    /// The argument lives in a virtual register of this size in bytes, which
    /// is not the size of a word.
    UnsupportedArgumentSize(u64),
    /// The limb at this position among the limbs of the storage arguments
    /// became an operand that no move can copy into a register.
    UnsupportedStorageArgument(usize),
    /// There are more arguments, or limbs of storage arguments, than the
    /// calling convention has registers for them.
    ArgumentSlotsExhausted { needed: usize, available: usize },
    /// The index of an extract-value is not a constant integer.
    UnsupportedExtractIndex(ValueId),
    /// The index of an extract-value names no limb of the value.
    ExtractIndexOutOfRange { index: i32, limbs: usize },
    /// The returned value is neither an integer nor a pointer.
    UnsupportedReturnType(Type),
    /// The returned value has this size in bytes, which is not the size of a
    /// word.
    UnsupportedReturnWidth(u64),
}

/// The model of a [`LoweringError`].
pub enum LoweringErrorView {
    UnsupportedCallee(ValueId),
    UnrecognizedBuiltin(Seq<char>),
    UnsupportedValue(ValueId),
    UnsupportedArgument(ValueId),
    UnsupportedArgumentSize(u64),
    UnsupportedStorageArgument(usize),
    ArgumentSlotsExhausted { needed: usize, available: usize },
    UnsupportedExtractIndex(ValueId),
    ExtractIndexOutOfRange { index: i32, limbs: usize },
    UnsupportedReturnType(Type),
    UnsupportedReturnWidth(u64),
}

impl View for LoweringError {
    type V = LoweringErrorView;

    open spec fn view(&self) -> LoweringErrorView {
        match self {
            LoweringError::UnsupportedCallee(v) => LoweringErrorView::UnsupportedCallee(*v),
            LoweringError::UnrecognizedBuiltin(name) => LoweringErrorView::UnrecognizedBuiltin(
                name@,
            ),
            LoweringError::UnsupportedValue(v) => LoweringErrorView::UnsupportedValue(*v),
            LoweringError::UnsupportedArgument(v) => LoweringErrorView::UnsupportedArgument(*v),
            LoweringError::UnsupportedArgumentSize(size) => {
                LoweringErrorView::UnsupportedArgumentSize(*size)
            },
            LoweringError::UnsupportedStorageArgument(limb) => {
                LoweringErrorView::UnsupportedStorageArgument(*limb)
            },
            LoweringError::ArgumentSlotsExhausted { needed, available } => {
                LoweringErrorView::ArgumentSlotsExhausted { needed: *needed, available: *available }
            },
            LoweringError::UnsupportedExtractIndex(v) => LoweringErrorView::UnsupportedExtractIndex(
                *v,
            ),
            LoweringError::ExtractIndexOutOfRange { index, limbs } => {
                LoweringErrorView::ExtractIndexOutOfRange { index: *index, limbs: *limbs }
            },
            LoweringError::UnsupportedReturnType(ty) => LoweringErrorView::UnsupportedReturnType(
                *ty,
            ),
            LoweringError::UnsupportedReturnWidth(size) => {
                LoweringErrorView::UnsupportedReturnWidth(*size)
            },
        }
    }
}

} // verus!
