//! Instruction selection for the Ola target: lowering of calls, returns and
//! extract-value instructions from SSA-form IR to machine instructions.
//!
//! A function is lowered in a [`context::LoweringContext`], which holds what
//! lowering reads (the IR, the type table, the calling convention), the
//! virtual registers handed out so far and the instructions emitted so far.
//! The routines in [`lower`] each translate one instruction of the IR; they
//! read their operands through [`materialize`] and append to the context.
//!
//! Every routine is specified by a function from what it reads to a
//! [`context::Step`]: the registers afterwards, the instructions emitted, and
//! the result. [`laws`] and [`ssa`] prove what follows from these
//! definitions for every lowering.

pub mod callee;
pub mod context;
pub mod error;
pub mod instruction;
pub mod ir;
pub mod laws;
pub mod lower;
pub mod materialize;
pub mod register;
pub mod ssa;
pub mod types;
