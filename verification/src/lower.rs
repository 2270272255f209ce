//! The lowering of single instructions of the IR.

pub mod call;
pub mod extractv;
