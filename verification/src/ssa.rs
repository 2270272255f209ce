//! Single definition: lowering writes each virtual register in at most one
//! instruction, as long as each instruction of the IR is lowered once.

use crate::callee::{spec_classify, CalleeKind};
use crate::context::{ContextView, Env, RegState};
use crate::instruction::{spec_move, InstructionView, MachBlockId, Opcode, OperandDataView};
use crate::ir::{ConstantView, InstructionId, ValueId, ValueView};
use crate::laws::{
    lemma_bind_args_extends, lemma_bind_limbs_keeps_registers, lemma_extends_twice,
    lemma_new_empty_inst_output_extends, lemma_operand_for_val_extends,
    lemma_operands_for_val_extends, lemma_pass_str_args_extends, spec_extends,
};
use crate::lower::call::{
    spec_arg_move_opcode, spec_bind_args_from, spec_call_well_formed, spec_bind_limbs_from, spec_callee_name, spec_lower_assert,
    spec_lower_call, spec_lower_plain_call, spec_lower_range_check, spec_lower_return,
    spec_lower_storage_read, spec_lower_storage_write, spec_pass_args_to_regs,
    spec_pass_str_args_to_regs, spec_storage_limbs, spec_wide_result_copies,
    spec_wide_result_operands,
};
use crate::lower::extractv::spec_lower_extractvalue;
use crate::materialize::{
    spec_fresh_vregs, spec_new_empty_inst_output, spec_operand_for_val, spec_operands_for_val,
    spec_vreg_for_val, spec_with_limbs, spec_with_vregs,
};
use crate::register::{spec_return_reg, spec_wide_result_regs, VReg, WIDE_RESULT_LIMBS};
use crate::types::{spec_limb_count, spec_limb_type, spec_return_type, Type};
use vstd::prelude::*;

verus! {

/// Whether `inst` writes the virtual register `v`: whether one of its output
/// operands is `v`.
pub open spec fn spec_writes(inst: InstructionView, v: VReg) -> bool {
    exists|k: int|
        0 <= k < inst.operands.len() && (#[trigger] inst.operands[k]).output
            && inst.operands[k].data == OperandDataView::VReg(v)
}

/// Whether none of `insts` writes a virtual register.
pub open spec fn spec_writes_nothing(insts: Seq<InstructionView>) -> bool {
    forall|i: int, v: VReg| 0 <= i < insts.len() ==> !#[trigger] spec_writes(insts[i], v)
}

/// Whether no virtual register is written by two of `insts`.
pub open spec fn spec_single_definition(insts: Seq<InstructionView>) -> bool {
    forall|i: int, j: int, v: VReg|
        0 <= i < insts.len() && 0 <= j < insts.len() && #[trigger] spec_writes(insts[i], v)
            && #[trigger] spec_writes(insts[j], v) ==> i == j
}

/// Whether every virtual register that one of `insts` writes has been handed
/// out.
pub open spec fn spec_defines_known(insts: Seq<InstructionView>, regs: RegState) -> bool {
    forall|i: int, v: VReg|
        0 <= i < insts.len() && #[trigger] spec_writes(insts[i], v) ==> regs.has_vreg(v)
}

/// Whether none of `insts` writes one of the registers `own`.
pub open spec fn spec_leaves_unwritten(insts: Seq<InstructionView>, own: Seq<VReg>) -> bool {
    forall|i: int, v: VReg|
        0 <= i < insts.len() && #[trigger] spec_writes(insts[i], v) ==> !own.contains(v)
}

/// Whether the register at position `k` of instruction `i` was given to it
/// between `before` and `after`.
pub open spec fn spec_is_new(before: RegState, after: RegState, i: int, k: int) -> bool {
    0 <= i < after.outputs.len() && before.outputs[i].len() <= k < after.outputs[i].len()
}

/// Whether `after` comes from `before` by handing out registers: what
/// `before` holds is kept, the registers can still be numbered, and each
/// register that an instruction was given since was handed out since, and
/// given once.
pub open spec fn spec_grows(before: RegState, after: RegState) -> bool {
    &&& spec_extends(before, after)
    &&& after.vregs.len() <= usize::MAX
    &&& forall|i: int, k: int| #[trigger]
        spec_is_new(before, after, i, k) ==> before.vregs.len() <= after.outputs[i][k].0
            < after.vregs.len()
    &&& forall|i: int, k: int, j: int, l: int| #[trigger]
        spec_is_new(before, after, i, k) && #[trigger] spec_is_new(before, after, j, l)
            && after.outputs[i][k] == after.outputs[j][l] ==> i == j && k == l
}

/// Whether `insts` write each virtual register at most once, and only
/// registers among `own` or registers that were handed out between `before`
/// and `after` and hold no result of an instruction.
pub open spec fn spec_step_writes(
    insts: Seq<InstructionView>,
    before: RegState,
    after: RegState,
    own: Seq<VReg>,
) -> bool {
    &&& spec_single_definition(insts)
    &&& forall|i: int, v: VReg|
        0 <= i < insts.len() && #[trigger] spec_writes(insts[i], v) ==> own.contains(v) || (
        before.vregs.len() <= v.0 < after.vregs.len() && !after.is_output(v))
}

/// A move writes the virtual register that is its destination, and no other.
proof fn lemma_move_writes(
    opcode: Opcode,
    dst: OperandDataView,
    src: OperandDataView,
    parent: MachBlockId,
    v: VReg,
)
    ensures
        spec_writes(spec_move(opcode, dst, src, parent), v) <==> dst == OperandDataView::VReg(v),
{
    let inst = spec_move(opcode, dst, src, parent);
    if dst == OperandDataView::VReg(v) {
        assert(inst.operands[0].output && inst.operands[0].data == OperandDataView::VReg(v));
    }
}

/// Growing is transitive.
proof fn lemma_grows_twice(a: RegState, b: RegState, c: RegState)
    requires
        spec_grows(a, b),
        spec_grows(b, c),
    ensures
        spec_grows(a, c),
{
    lemma_extends_twice(a, b, c);
    assert forall|i: int, k: int| #[trigger] spec_is_new(a, c, i, k) implies a.vregs.len()
        <= c.outputs[i][k].0 < c.vregs.len() by {
        if k < b.outputs[i].len() {
            assert(spec_is_new(a, b, i, k));
            assert(c.outputs[i][k] == b.outputs[i][k]);
        } else {
            assert(spec_is_new(b, c, i, k));
        }
    }
    assert forall|i: int, k: int, j: int, l: int| #[trigger]
        spec_is_new(a, c, i, k) && #[trigger] spec_is_new(a, c, j, l) && c.outputs[i][k]
            == c.outputs[j][l] implies i == j && k == l by {
        if k < b.outputs[i].len() {
            assert(spec_is_new(a, b, i, k));
            assert(c.outputs[i][k] == b.outputs[i][k]);
        } else {
            assert(spec_is_new(b, c, i, k));
        }
        if l < b.outputs[j].len() {
            assert(spec_is_new(a, b, j, l));
            assert(c.outputs[j][l] == b.outputs[j][l]);
        } else {
            assert(spec_is_new(b, c, j, l));
        }
    }
}

/// Growing keeps the registers well formed.
proof fn lemma_grows_keeps_wf(env: Env, before: RegState, after: RegState)
    requires
        before.wf(env),
        spec_grows(before, after),
    ensures
        after.wf(env),
{
    assert forall|i: int, k: int|
        0 <= i < after.outputs.len() && 0 <= k < after.outputs[i].len() implies after.has_vreg(
        #[trigger] after.outputs[i][k],
    ) by {
        if k < before.outputs[i].len() {
            assert(before.has_vreg(before.outputs[i][k]));
        } else {
            assert(spec_is_new(before, after, i, k));
        }
    }
    assert forall|i: int, k: int, j: int, l: int|
        0 <= i < after.outputs.len() && 0 <= k < after.outputs[i].len() && 0 <= j
            < after.outputs.len() && 0 <= l < after.outputs[j].len()
            && #[trigger] after.outputs[i][k] == #[trigger] after.outputs[j][l] implies i == j
        && k == l by {
        if k < before.outputs[i].len() {
            assert(before.has_vreg(before.outputs[i][k]));
        } else {
            assert(spec_is_new(before, after, i, k));
        }
        if l < before.outputs[j].len() {
            assert(before.has_vreg(before.outputs[j][l]));
        } else {
            assert(spec_is_new(before, after, j, l));
        }
    }
}

/// Handing out registers for an instruction grows the registers.
proof fn lemma_with_limbs_grows(regs: RegState, ty: Type, id: InstructionId, n: nat)
    requires
        regs.has_instruction(id),
        regs.vregs.len() + n <= usize::MAX,
    ensures
        spec_grows(regs, spec_with_limbs(regs, ty, id, n)),
{
    let after = spec_with_limbs(regs, ty, id, n);
    let old_len = regs.outputs[id.0 as int].len();
    assert forall|i: int, k: int| #[trigger] spec_is_new(regs, after, i, k) implies i == id.0
        && after.outputs[i][k] == spec_fresh_vregs(regs, n)[k - old_len] by {}
}

/// Handing out registers for no instruction grows the registers.
proof fn lemma_with_vregs_grows(regs: RegState, ty: Type, n: nat)
    requires
        regs.vregs.len() + n <= usize::MAX,
    ensures
        spec_grows(regs, spec_with_vregs(regs, ty, n)),
{
}

/// Reading a value as a scalar grows the registers.
proof fn lemma_operand_for_val_grows(env: Env, regs: RegState, ty: Type, val: ValueId)
    requires
        spec_operand_for_val(env, regs, ty, val).regs.vregs.len() <= usize::MAX,
    ensures
        spec_grows(regs, spec_operand_for_val(env, regs, ty, val).regs),
        spec_operand_for_val(env, regs, ty, val).emitted.len() == 0,
{
    match env.ir.value(val) {
        Some(ValueView::Instruction(id)) => {
            if regs.has_instruction(id) && regs.outputs_of(id).len() == 0 {
                lemma_with_limbs_grows(regs, ty, id, 1);
            }
        },
        _ => {},
    }
    lemma_operand_for_val_extends(env, regs, ty, val);
}

/// Reading a value as a compound grows the registers, and writes only
/// registers that it hands out for the elements of a constant array.
proof fn lemma_operands_for_val_step(env: Env, regs: RegState, ty: Type, val: ValueId)
    requires
        regs.wf(env),
        spec_operands_for_val(env, regs, ty, val).regs.vregs.len() <= usize::MAX,
    ensures
        spec_grows(regs, spec_operands_for_val(env, regs, ty, val).regs),
        spec_step_writes(
            spec_operands_for_val(env, regs, ty, val).emitted,
            regs,
            spec_operands_for_val(env, regs, ty, val).regs,
            Seq::empty(),
        ),
{
    let step = spec_operands_for_val(env, regs, ty, val);
    lemma_operands_for_val_extends(env, regs, ty, val);
    match env.ir.value(val) {
        Some(ValueView::Instruction(id)) => {
            if regs.has_instruction(id) && regs.outputs_of(id).len() == 0 {
                lemma_with_limbs_grows(
                    regs,
                    spec_limb_type(env.types, ty),
                    id,
                    spec_limb_count(env.types, ty),
                );
            }
        },
        Some(ValueView::Constant(ConstantView::Array(elems))) => {
            let limb_ty = spec_limb_type(env.types, ty);
            lemma_with_vregs_grows(regs, limb_ty, elems.len());
            let fresh = spec_fresh_vregs(regs, elems.len());
            assert forall|i: int, v: VReg|
                0 <= i < step.emitted.len() && #[trigger] spec_writes(
                    step.emitted[i],
                    v,
                ) implies v == fresh[i] && !step.regs.is_output(v) by {
                lemma_move_writes(
                    Opcode::MOVri,
                    OperandDataView::VReg(fresh[i]),
                    OperandDataView::Int32(elems[i]),
                    env.block(),
                    v,
                );
                if step.regs.is_output(v) {
                    let (a, b) = choose|a: int, b: int|
                        0 <= a < step.regs.outputs.len() && 0 <= b < step.regs.outputs[a].len()
                            && #[trigger] step.regs.outputs[a][b] == v;
                    assert(regs.has_vreg(regs.outputs[a][b]));
                }
            }
        },
        _ => {
            lemma_operand_for_val_grows(env, regs, ty, val);
        },
    }
}

/// Bringing a value into a register grows the registers, and writes at most
/// one register, which it hands out.
proof fn lemma_vreg_for_val_step(env: Env, regs: RegState, ty: Type, val: ValueId)
    requires
        regs.wf(env),
        spec_vreg_for_val(env, regs, ty, val).regs.vregs.len() <= usize::MAX,
    ensures
        spec_grows(regs, spec_vreg_for_val(env, regs, ty, val).regs),
        spec_step_writes(
            spec_vreg_for_val(env, regs, ty, val).emitted,
            regs,
            spec_vreg_for_val(env, regs, ty, val).regs,
            Seq::empty(),
        ),
{
    let step = spec_vreg_for_val(env, regs, ty, val);
    let scalar = spec_operand_for_val(env, regs, ty, val);
    lemma_operand_for_val_extends(env, regs, ty, val);
    lemma_operand_for_val_grows(env, regs, ty, val);
    lemma_grows_keeps_wf(env, regs, scalar.regs);
    match scalar.res {
        Ok(OperandDataView::Int32(i)) => {
            assert(step.regs == spec_with_vregs(scalar.regs, ty, 1)) by {
                assert(step.regs =~= spec_with_vregs(scalar.regs, ty, 1));
            }
            lemma_with_vregs_grows(scalar.regs, ty, 1);
            lemma_grows_twice(regs, scalar.regs, step.regs);
            assert forall|k: int, v: VReg|
                0 <= k < step.emitted.len() && #[trigger] spec_writes(
                    step.emitted[k],
                    v,
                ) implies v == scalar.regs.fresh() && !step.regs.is_output(v) by {
                lemma_move_writes(
                    Opcode::MOVri,
                    OperandDataView::VReg(scalar.regs.fresh()),
                    OperandDataView::Int32(i),
                    env.block(),
                    v,
                );
                if step.regs.is_output(v) {
                    let (a, b) = choose|a: int, b: int|
                        0 <= a < step.regs.outputs.len() && 0 <= b < step.regs.outputs[a].len()
                            && #[trigger] step.regs.outputs[a][b] == v;
                    assert(scalar.regs.has_vreg(scalar.regs.outputs[a][b]));
                }
            }
        },
        _ => {},
    }
}

/// The moves that bind arguments write no virtual register, and binding
/// arguments grows the registers.
proof fn lemma_bind_args_step(env: Env, regs: RegState, tys: Seq<Type>, args: Seq<ValueId>, i: int)
    requires
        regs.vregs.len() <= usize::MAX,
        spec_bind_args_from(env, regs, tys, args, i).regs.vregs.len() <= usize::MAX,
    ensures
        spec_writes_nothing(spec_bind_args_from(env, regs, tys, args, i).emitted),
        spec_grows(regs, spec_bind_args_from(env, regs, tys, args, i).regs),
    decreases args.len() - i,
{
    let step = spec_bind_args_from(env, regs, tys, args, i);
    if 0 <= i < args.len() {
        let read = spec_operand_for_val(env, regs, tys[i], args[i]);
        lemma_bind_args_extends(env, read.regs, tys, args, i + 1);
        lemma_operand_for_val_extends(env, regs, tys[i], args[i]);
        let rest = spec_bind_args_from(env, read.regs, tys, args, i + 1);
        if read.res.is_ok() && i < env.call_conv.arg_regs.len() && spec_arg_move_opcode(
            env,
            read.regs,
            read.res->Ok_0,
            args[i],
        ).is_ok() {
            lemma_operand_for_val_grows(env, regs, tys[i], args[i]);
            lemma_bind_args_step(env, read.regs, tys, args, i + 1);
            lemma_grows_twice(regs, read.regs, rest.regs);
            assert forall|j: int, v: VReg|
                0 <= j < step.emitted.len() implies !#[trigger] spec_writes(step.emitted[j], v) by {
                if j > 0 {
                    assert(step.emitted[j] == rest.emitted[j - 1]);
                } else {
                    lemma_move_writes(
                        step.emitted[0].opcode,
                        OperandDataView::Reg(env.call_conv.arg_regs[i]),
                        read.res->Ok_0,
                        env.block(),
                        v,
                    );
                }
            }
        } else {
            lemma_operand_for_val_grows(env, regs, tys[i], args[i]);
        }
    }
}

/// The moves that bind limbs write no virtual register.
proof fn lemma_bind_limbs_writes_nothing(
    env: Env,
    regs: RegState,
    limbs: Seq<OperandDataView>,
    i: int,
)
    ensures
        spec_writes_nothing(spec_bind_limbs_from(env, regs, limbs, i).emitted),
    decreases limbs.len() - i,
{
    let step = spec_bind_limbs_from(env, regs, limbs, i);
    if 0 <= i < limbs.len() {
        lemma_bind_limbs_writes_nothing(env, regs, limbs, i + 1);
        let rest = spec_bind_limbs_from(env, regs, limbs, i + 1);
        assert forall|j: int, v: VReg| 0 <= j < step.emitted.len() implies !#[trigger] spec_writes(
            step.emitted[j],
            v,
        ) by {
            if j > 0 {
                assert(step.emitted[j] == rest.emitted[j - 1]);
            } else {
                lemma_move_writes(
                    step.emitted[0].opcode,
                    OperandDataView::Reg(env.call_conv.str_arg_regs[i]),
                    limbs[i],
                    env.block(),
                    v,
                );
            }
        }
    }
}

/// One step behind another: where the first writes only registers that it
/// hands out for no instruction, and the second only such registers or
/// registers among `own`, which hold results, both together write each
/// register at most once.
proof fn lemma_steps_join(
    a: Seq<InstructionView>,
    b: Seq<InstructionView>,
    r0: RegState,
    r1: RegState,
    r2: RegState,
    own: Seq<VReg>,
)
    requires
        spec_grows(r0, r1),
        spec_grows(r1, r2),
        spec_step_writes(a, r0, r1, Seq::empty()),
        spec_step_writes(b, r1, r2, own),
        forall|k: int| 0 <= k < own.len() ==> r2.is_output(#[trigger] own[k]),
    ensures
        spec_step_writes(a + b, r0, r2, own),
{
    let ab = a + b;
    assert forall|i: int, v: VReg| 0 <= i < a.len() && #[trigger] spec_writes(a[i], v) implies r0.vregs.len()
        <= v.0 < r1.vregs.len() && !r2.is_output(v) by {
        assert(!Seq::<VReg>::empty().contains(v));
        if r2.is_output(v) {
            let (x, y) = choose|x: int, y: int|
                0 <= x < r2.outputs.len() && 0 <= y < r2.outputs[x].len()
                    && #[trigger] r2.outputs[x][y] == v;
            if y < r1.outputs[x].len() {
                assert(r1.outputs[x][y] == v);
                assert(r1.is_output(v));
            } else {
                assert(spec_is_new(r1, r2, x, y));
            }
        }
    }
    assert forall|i: int, v: VReg| 0 <= i < ab.len() && #[trigger] spec_writes(
        ab[i],
        v,
    ) implies own.contains(v) || (r0.vregs.len() <= v.0 < r2.vregs.len() && !r2.is_output(v)) by {
        if i < a.len() {
            assert(ab[i] == a[i]);
        } else {
            assert(ab[i] == b[i - a.len()]);
        }
    }
    assert forall|i: int, j: int, v: VReg|
        0 <= i < ab.len() && 0 <= j < ab.len() && #[trigger] spec_writes(ab[i], v)
            && #[trigger] spec_writes(ab[j], v) implies i == j by {
        if i < a.len() {
            assert(ab[i] == a[i]);
        } else {
            assert(ab[i] == b[i - a.len()]);
        }
        if j < a.len() {
            assert(ab[j] == a[j]);
        } else {
            assert(ab[j] == b[j - a.len()]);
        }
        if own.contains(v) {
            let k = choose|k: int| 0 <= k < own.len() && own[k] == v;
            assert(r2.is_output(own[k]));
        }
    }
}

/// Instructions that write nothing are a step of any kind.
proof fn lemma_nothing_written(
    insts: Seq<InstructionView>,
    before: RegState,
    after: RegState,
    own: Seq<VReg>,
)
    requires
        spec_writes_nothing(insts),
    ensures
        spec_step_writes(insts, before, after, own),
{
}

/// Gathering the limbs of storage arguments grows the registers, and writes
/// only registers that it hands out for the elements of constant arrays.
proof fn lemma_storage_limbs_step(env: Env, regs: RegState, tys: Seq<Type>, args: Seq<ValueId>)
    requires
        regs.wf(env),
        spec_storage_limbs(env, regs, tys, args).regs.vregs.len() <= usize::MAX,
    ensures
        spec_grows(regs, spec_storage_limbs(env, regs, tys, args).regs),
        spec_step_writes(
            spec_storage_limbs(env, regs, tys, args).emitted,
            regs,
            spec_storage_limbs(env, regs, tys, args).regs,
            Seq::empty(),
        ),
{
    let first = spec_operands_for_val(env, regs, tys[0], args[0]);
    let step = spec_storage_limbs(env, regs, tys, args);
    lemma_operands_for_val_extends(env, regs, tys[0], args[0]);
    if first.res.is_ok() && args.len() > 1 {
        let second = spec_operands_for_val(env, first.regs, tys[1], args[1]);
        lemma_operands_for_val_extends(env, first.regs, tys[1], args[1]);
        lemma_operands_for_val_step(env, regs, tys[0], args[0]);
        lemma_grows_keeps_wf(env, regs, first.regs);
        lemma_operands_for_val_step(env, first.regs, tys[1], args[1]);
        lemma_grows_twice(regs, first.regs, second.regs);
        lemma_steps_join(
            first.emitted,
            second.emitted,
            regs,
            first.regs,
            second.regs,
            Seq::empty(),
        );
    } else {
        lemma_operands_for_val_step(env, regs, tys[0], args[0]);
    }
}

/// Binding storage arguments grows the registers, and writes only registers
/// that it hands out for the elements of constant arrays.
proof fn lemma_pass_str_args_step(env: Env, regs: RegState, tys: Seq<Type>, args: Seq<ValueId>)
    requires
        regs.wf(env),
        spec_pass_str_args_to_regs(env, regs, tys, args).regs.vregs.len() <= usize::MAX,
    ensures
        spec_grows(regs, spec_pass_str_args_to_regs(env, regs, tys, args).regs),
        spec_step_writes(
            spec_pass_str_args_to_regs(env, regs, tys, args).emitted,
            regs,
            spec_pass_str_args_to_regs(env, regs, tys, args).regs,
            Seq::empty(),
        ),
{
    let gathered = spec_storage_limbs(env, regs, tys, args);
    let step = spec_pass_str_args_to_regs(env, regs, tys, args);
    match gathered.res {
        Ok(limbs) => {
            lemma_bind_limbs_keeps_registers(env, gathered.regs, limbs, 0);
            lemma_storage_limbs_step(env, regs, tys, args);
            let bound = spec_bind_limbs_from(env, gathered.regs, limbs, 0);
            lemma_bind_limbs_writes_nothing(env, gathered.regs, limbs, 0);
            lemma_grows_refl(gathered.regs);
            lemma_nothing_written(bound.emitted, gathered.regs, gathered.regs, Seq::empty());
            lemma_steps_join(
                gathered.emitted,
                bound.emitted,
                regs,
                gathered.regs,
                gathered.regs,
                Seq::empty(),
            );
        },
        Err(_) => {
            lemma_storage_limbs_step(env, regs, tys, args);
        },
    }
}

/// Registers that were not grown are as they were.
proof fn lemma_grows_refl(regs: RegState)
    requires
        regs.vregs.len() <= usize::MAX,
    ensures
        spec_grows(regs, regs),
{
}

/// The registers of an instruction after growing are those it had, or were
/// handed out since.
proof fn lemma_own_after_growing(before: RegState, after: RegState, id: InstructionId)
    requires
        spec_grows(before, after),
        before.has_instruction(id),
    ensures
        forall|k: int|
            0 <= k < after.outputs_of(id).len() ==> after.is_output(
                #[trigger] after.outputs_of(id)[k],
            ) && (before.outputs_of(id).contains(after.outputs_of(id)[k]) || before.vregs.len()
                <= after.outputs_of(id)[k].0),
{
    assert forall|k: int| 0 <= k < after.outputs_of(id).len() implies after.is_output(
        #[trigger] after.outputs_of(id)[k],
    ) && (before.outputs_of(id).contains(after.outputs_of(id)[k]) || before.vregs.len()
        <= after.outputs_of(id)[k].0) by {
        assert(after.outputs[id.0 as int][k] == after.outputs_of(id)[k]);
        if k < before.outputs_of(id).len() {
            assert(before.outputs_of(id)[k] == after.outputs_of(id)[k]);
        } else {
            assert(spec_is_new(before, after, id.0 as int, k));
        }
    }
}

/// Lowering a call grows the registers, and writes each register at most
/// once: registers of the call, or registers that it hands out for the
/// elements of constant arrays.
proof fn lemma_lower_call_step(
    env: Env,
    regs: RegState,
    id: InstructionId,
    tys: Seq<Type>,
    args: Seq<ValueId>,
)
    requires
        regs.wf(env),
        regs.has_instruction(id),
        spec_lower_call(env, regs, id, tys, args).regs.vregs.len() <= usize::MAX,
    ensures
        spec_grows(regs, spec_lower_call(env, regs, id, tys, args).regs),
        spec_step_writes(
            spec_lower_call(env, regs, id, tys, args).emitted,
            regs,
            spec_lower_call(env, regs, id, tys, args).regs,
            spec_lower_call(env, regs, id, tys, args).regs.outputs_of(id),
        ),
{
    let step = spec_lower_call(env, regs, id, tys, args);
    lemma_grows_refl(regs);
    match spec_callee_name(env, args[0]) {
        None => {},
        Some(name) => match spec_classify(name) {
            CalleeKind::BuiltinAssert => {
                lemma_builtins_step(env, regs, tys, args);
                lemma_nothing_written(step.emitted, regs, step.regs, step.regs.outputs_of(id));
            },
            CalleeKind::BuiltinRangeCheck => {
                lemma_builtins_step(env, regs, tys, args);
                lemma_nothing_written(step.emitted, regs, step.regs, step.regs.outputs_of(id));
            },
            CalleeKind::UnknownBuiltin => {},
            CalleeKind::StorageWrite => {
                lemma_storage_write_step(env, regs, id, tys, args);
            },
            CalleeKind::StorageRead => {
                lemma_storage_read_step(env, regs, id, tys, args, Opcode::SLOAD);
            },
            CalleeKind::Hash => {
                lemma_storage_read_step(env, regs, id, tys, args, Opcode::POSEIDON);
            },
            CalleeKind::Prophet => {
                lemma_plain_call_step(env, regs, id, tys, args, name, Opcode::PROPHET);
            },
            CalleeKind::Plain => {
                lemma_plain_call_step(env, regs, id, tys, args, name, Opcode::CALL);
            },
        },
    }
}

/// Lowering a builtin grows the registers and writes no virtual register.
proof fn lemma_builtins_step(env: Env, regs: RegState, tys: Seq<Type>, args: Seq<ValueId>)
    requires
        regs.vregs.len() <= usize::MAX,
    ensures
        spec_lower_assert(env, regs, tys, args).regs.vregs.len() <= usize::MAX ==> spec_grows(
            regs,
            spec_lower_assert(env, regs, tys, args).regs,
        ),
        spec_writes_nothing(spec_lower_assert(env, regs, tys, args).emitted),
        spec_lower_range_check(env, regs, tys, args).regs.vregs.len() <= usize::MAX ==> spec_grows(
            regs,
            spec_lower_range_check(env, regs, tys, args).regs,
        ),
        spec_writes_nothing(spec_lower_range_check(env, regs, tys, args).emitted),
{
    let lhs = spec_operand_for_val(env, regs, tys[1], args[1]);
    let rhs = spec_operand_for_val(env, lhs.regs, tys[2], args[2]);
    lemma_operand_for_val_extends(env, regs, tys[1], args[1]);
    lemma_operand_for_val_extends(env, lhs.regs, tys[2], args[2]);
    if spec_lower_assert(env, regs, tys, args).regs.vregs.len() <= usize::MAX {
        lemma_operand_for_val_grows(env, regs, tys[1], args[1]);
        if lhs.res.is_ok() {
            lemma_operand_for_val_grows(env, lhs.regs, tys[2], args[2]);
            lemma_grows_twice(regs, lhs.regs, rhs.regs);
        }
    }
    if spec_lower_range_check(env, regs, tys, args).regs.vregs.len() <= usize::MAX {
        lemma_operand_for_val_grows(env, regs, tys[1], args[1]);
    }
}

/// Lowering a storage write grows the registers, and writes only registers
/// that it hands out for the elements of constant arrays.
proof fn lemma_storage_write_step(
    env: Env,
    regs: RegState,
    id: InstructionId,
    tys: Seq<Type>,
    args: Seq<ValueId>,
)
    requires
        regs.wf(env),
        regs.has_instruction(id),
        spec_lower_storage_write(env, regs, tys, args).regs.vregs.len() <= usize::MAX,
    ensures
        spec_grows(regs, spec_lower_storage_write(env, regs, tys, args).regs),
        spec_step_writes(
            spec_lower_storage_write(env, regs, tys, args).emitted,
            regs,
            spec_lower_storage_write(env, regs, tys, args).regs,
            spec_lower_storage_write(env, regs, tys, args).regs.outputs_of(id),
        ),
{
    let bound = spec_pass_str_args_to_regs(env, regs, tys.skip(1), args.skip(1));
    let step = spec_lower_storage_write(env, regs, tys, args);
    let store = seq![env.inst(Opcode::SSTORE, Seq::empty())];
    lemma_pass_str_args_step(env, regs, tys.skip(1), args.skip(1));
    lemma_grows_refl(bound.regs);
    lemma_own_after_growing(regs, bound.regs, id);
    let own = bound.regs.outputs_of(id);
    if bound.res.is_ok() {
        lemma_nothing_written(store, bound.regs, bound.regs, own);
        lemma_steps_join(bound.emitted, store, regs, bound.regs, bound.regs, own);
    } else {
        let none = Seq::<InstructionView>::empty();
        lemma_nothing_written(none, bound.regs, bound.regs, own);
        lemma_steps_join(bound.emitted, none, regs, bound.regs, bound.regs, own);
        assert(bound.emitted + none =~= bound.emitted);
    }
}

/// Lowering a storage read or a hash grows the registers, and writes each
/// register at most once: registers of the call, or registers that it hands
/// out for the elements of constant arrays.
proof fn lemma_storage_read_step(
    env: Env,
    regs: RegState,
    id: InstructionId,
    tys: Seq<Type>,
    args: Seq<ValueId>,
    opcode: Opcode,
)
    requires
        regs.wf(env),
        regs.has_instruction(id),
        spec_lower_storage_read(env, regs, id, tys, args, opcode).regs.vregs.len() <= usize::MAX,
    ensures
        spec_grows(regs, spec_lower_storage_read(env, regs, id, tys, args, opcode).regs),
        spec_step_writes(
            spec_lower_storage_read(env, regs, id, tys, args, opcode).emitted,
            regs,
            spec_lower_storage_read(env, regs, id, tys, args, opcode).regs,
            spec_lower_storage_read(env, regs, id, tys, args, opcode).regs.outputs_of(id),
        ),
{
    let bound = spec_pass_str_args_to_regs(env, regs, tys.skip(1), args.skip(1));
    let step = spec_lower_storage_read(env, regs, id, tys, args, opcode);
    let read = seq![env.inst(opcode, spec_wide_result_operands())];
    lemma_pass_str_args_extends(env, regs, tys.skip(1), args.skip(1));
    assert(bound.regs.vregs.len() <= step.regs.vregs.len());
    lemma_pass_str_args_step(env, regs, tys.skip(1), args.skip(1));
    lemma_grows_keeps_wf(env, regs, bound.regs);
    lemma_grows_refl(bound.regs);
    if bound.res.is_err() {
        let none = Seq::<InstructionView>::empty();
        let own = bound.regs.outputs_of(id);
        lemma_own_after_growing(regs, bound.regs, id);
        lemma_nothing_written(none, bound.regs, bound.regs, own);
        lemma_steps_join(bound.emitted, none, regs, bound.regs, bound.regs, own);
        assert(bound.emitted + none =~= bound.emitted);
    } else if env.ir.has_users(id) {
        let after = step.regs;
        let own = after.outputs_of(id);
        let copies = spec_wide_result_copies(env, own);
        lemma_with_limbs_grows(
            bound.regs,
            spec_limb_type(env.types, tys[0]),
            id,
            WIDE_RESULT_LIMBS as nat,
        );
        lemma_grows_twice(regs, bound.regs, after);
        lemma_grows_keeps_wf(env, bound.regs, after);
        lemma_own_after_growing(regs, after, id);
        let tail = read + copies;
        assert forall|i: int, v: VReg| 0 <= i < tail.len() && #[trigger] spec_writes(
            tail[i],
            v,
        ) implies i >= 1 && v == own[i - 1] by {
            if i >= 1 {
                assert(tail[i] == copies[i - 1]);
                lemma_move_writes(
                    Opcode::MOVrr,
                    OperandDataView::VReg(own[i - 1]),
                    OperandDataView::Reg(spec_wide_result_regs()[i - 1]),
                    env.block(),
                    v,
                );
            }
        }
        assert forall|i: int, j: int, v: VReg|
            0 <= i < tail.len() && 0 <= j < tail.len() && #[trigger] spec_writes(tail[i], v)
                && #[trigger] spec_writes(tail[j], v) implies i == j by {
            assert(after.outputs[id.0 as int][i - 1] == after.outputs[id.0 as int][j - 1]);
        }
        assert(spec_step_writes(tail, bound.regs, after, own));
        lemma_steps_join(bound.emitted, tail, regs, bound.regs, after, own);
        assert(step.emitted =~= bound.emitted + tail);
    } else {
        let own = bound.regs.outputs_of(id);
        lemma_own_after_growing(regs, bound.regs, id);
        lemma_nothing_written(read, bound.regs, bound.regs, own);
        lemma_steps_join(bound.emitted, read, regs, bound.regs, bound.regs, own);
    }
}

/// Lowering a call of an ordinary function or a request to the prover grows
/// the registers, and writes at most one register, the register of the call.
proof fn lemma_plain_call_step(
    env: Env,
    regs: RegState,
    id: InstructionId,
    tys: Seq<Type>,
    args: Seq<ValueId>,
    name: Seq<char>,
    opcode: Opcode,
)
    requires
        regs.wf(env),
        regs.has_instruction(id),
        spec_lower_plain_call(env, regs, id, tys, args, name, opcode).regs.vregs.len()
            <= usize::MAX,
    ensures
        spec_grows(regs, spec_lower_plain_call(env, regs, id, tys, args, name, opcode).regs),
        spec_step_writes(
            spec_lower_plain_call(env, regs, id, tys, args, name, opcode).emitted,
            regs,
            spec_lower_plain_call(env, regs, id, tys, args, name, opcode).regs,
            spec_lower_plain_call(env, regs, id, tys, args, name, opcode).regs.outputs_of(id),
        ),
{
    let step = spec_lower_plain_call(env, regs, id, tys, args, name, opcode);
    let ty = spec_return_type(env.types, tys[0]);
    let (named, outputs) = spec_new_empty_inst_output(regs, ty, id);
    let bound = spec_pass_args_to_regs(env, named, tys.skip(1), args.skip(1));
    lemma_new_empty_inst_output_extends(regs, ty, id);
    lemma_bind_args_extends(env, named, tys.skip(1), args.skip(1), 0);
    assert(named.vregs.len() <= bound.regs.vregs.len());
    if regs.outputs_of(id).len() == 0 {
        lemma_with_limbs_grows(regs, ty, id, 1);
    } else {
        lemma_grows_refl(regs);
    }
    lemma_grows_refl(named);
    lemma_bind_args_step(env, named, tys.skip(1), args.skip(1), 0);
    lemma_grows_twice(regs, named, bound.regs);
    lemma_grows_refl(bound.regs);
    lemma_own_after_growing(regs, bound.regs, id);
    let own = bound.regs.outputs_of(id);
    assert(own[0] == outputs[0]) by {
        assert(named.outputs_of(id)[0] == outputs[0]);
        assert(bound.regs.outputs[id.0 as int][0] == named.outputs[id.0 as int][0]);
    }
    let tail = step.emitted.skip(bound.emitted.len() as int);
    assert(step.emitted =~= bound.emitted + tail);
    assert forall|i: int, v: VReg| 0 <= i < tail.len() && #[trigger] spec_writes(
        tail[i],
        v,
    ) implies i == 1 && v == own[0] by {
        if i == 1 {
            lemma_move_writes(
                Opcode::MOVrr,
                OperandDataView::VReg(outputs[0]),
                OperandDataView::Reg(spec_return_reg()),
                env.block(),
                v,
            );
        }
    }
    assert(spec_step_writes(tail, bound.regs, bound.regs, own));
    lemma_nothing_written(bound.emitted, regs, bound.regs, Seq::empty());
    lemma_steps_join(bound.emitted, tail, regs, bound.regs, bound.regs, own);
}

/// Lowering a return grows the registers, and writes at most one register,
/// which it hands out.
proof fn lemma_lower_return_step(env: Env, regs: RegState, ret: Option<(Type, ValueId)>)
    requires
        regs.wf(env),
        spec_lower_return(env, regs, ret).regs.vregs.len() <= usize::MAX,
    ensures
        spec_grows(regs, spec_lower_return(env, regs, ret).regs),
        spec_step_writes(
            spec_lower_return(env, regs, ret).emitted,
            regs,
            spec_lower_return(env, regs, ret).regs,
            Seq::empty(),
        ),
{
    let step = spec_lower_return(env, regs, ret);
    match ret {
        None => {
            lemma_grows_refl(regs);
            assert(spec_writes_nothing(step.emitted));
        },
        Some((ty, value)) => {
            let held = spec_vreg_for_val(env, regs, ty, value);
            lemma_vreg_for_val_step(env, regs, ty, value);
            lemma_grows_refl(held.regs);
            let tail = step.emitted.skip(held.emitted.len() as int);
            assert(step.emitted =~= held.emitted + tail);
            assert forall|i: int, v: VReg| 0 <= i < tail.len() implies !#[trigger] spec_writes(
                tail[i],
                v,
            ) by {
                if i == 0 && tail.len() == 2 {
                    lemma_move_writes(
                        Opcode::MOVrr,
                        OperandDataView::Reg(spec_return_reg()),
                        OperandDataView::VReg(held.res->Ok_0),
                        env.block(),
                        v,
                    );
                }
            }
            lemma_nothing_written(tail, held.regs, held.regs, Seq::empty());
            lemma_steps_join(held.emitted, tail, regs, held.regs, held.regs, Seq::empty());
        },
    }
}

/// Lowering an extract-value grows the registers, and writes each register
/// at most once: the register of the extract-value, or registers that it
/// hands out for the elements of a constant array.
proof fn lemma_lower_extractvalue_step(
    env: Env,
    regs: RegState,
    id: InstructionId,
    ty: Type,
    args: Seq<ValueId>,
)
    requires
        regs.wf(env),
        regs.has_instruction(id),
        spec_lower_extractvalue(env, regs, id, ty, args).regs.vregs.len() <= usize::MAX,
    ensures
        spec_grows(regs, spec_lower_extractvalue(env, regs, id, ty, args).regs),
        spec_step_writes(
            spec_lower_extractvalue(env, regs, id, ty, args).emitted,
            regs,
            spec_lower_extractvalue(env, regs, id, ty, args).regs,
            spec_lower_extractvalue(env, regs, id, ty, args).regs.outputs_of(id),
        ),
{
    let step = spec_lower_extractvalue(env, regs, id, ty, args);
    let limb_ty = spec_limb_type(env.types, ty);
    let compound = spec_operands_for_val(env, regs, ty, args[0]);
    let index = spec_operand_for_val(env, compound.regs, limb_ty, args[1]);
    let (named, outputs) = spec_new_empty_inst_output(index.regs, limb_ty, id);
    lemma_operands_for_val_extends(env, regs, ty, args[0]);
    lemma_operand_for_val_extends(env, compound.regs, limb_ty, args[1]);
    assert(index.regs.has_instruction(id));
    lemma_new_empty_inst_output_extends(index.regs, limb_ty, id);
    let own = step.regs.outputs_of(id);
    let tail = step.emitted.skip(compound.emitted.len() as int);
    assert(step.emitted =~= compound.emitted + tail);
    lemma_operands_for_val_step(env, regs, ty, args[0]);
    if compound.res.is_ok() {
        lemma_operand_for_val_grows(env, compound.regs, limb_ty, args[1]);
        if step.res.is_ok() {
            if index.regs.outputs_of(id).len() == 0 {
                lemma_with_limbs_grows(index.regs, limb_ty, id, 1);
            } else {
                lemma_grows_refl(index.regs);
            }
            lemma_grows_twice(compound.regs, index.regs, named);
            assert(own[0] == outputs[0]);
            assert forall|i: int, v: VReg| 0 <= i < tail.len() && #[trigger] spec_writes(
                tail[i],
                v,
            ) implies v == own[0] by {
                lemma_move_writes(
                    Opcode::MOVrr,
                    OperandDataView::VReg(outputs[0]),
                    compound.res->Ok_0[index.res->Ok_0->Int32_0 as int],
                    env.block(),
                    v,
                );
            }
        }
    } else {
        lemma_grows_refl(compound.regs);
    }
    lemma_grows_twice(regs, compound.regs, step.regs);
    lemma_own_after_growing(regs, step.regs, id);
    assert(spec_step_writes(tail, compound.regs, step.regs, own));
    lemma_steps_join(compound.emitted, tail, regs, compound.regs, step.regs, own);
}

/// A step keeps single definition: where the instructions emitted so far
/// write each register at most once, and none of the registers `own_before`,
/// and the step writes only registers that it hands out or registers among
/// `own_after`, each of which is among `own_before` or was handed out by the
/// step, then the instructions emitted so far together with those of the
/// step write each register at most once.
proof fn lemma_step_keeps_single_definition(
    insts: Seq<InstructionView>,
    emitted: Seq<InstructionView>,
    before: RegState,
    after: RegState,
    own_before: Seq<VReg>,
    own_after: Seq<VReg>,
)
    requires
        spec_grows(before, after),
        spec_step_writes(emitted, before, after, own_after),
        spec_single_definition(insts),
        spec_defines_known(insts, before),
        spec_leaves_unwritten(insts, own_before),
        forall|k: int|
            0 <= k < own_after.len() ==> after.is_output(#[trigger] own_after[k]) && (
            own_before.contains(own_after[k]) || before.vregs.len() <= own_after[k].0),
        forall|i: int, k: int|
            0 <= i < after.outputs.len() && 0 <= k < after.outputs[i].len() ==> after.has_vreg(
                #[trigger] after.outputs[i][k],
            ),
    ensures
        spec_single_definition(insts + emitted),
        spec_defines_known(insts + emitted, after),
{
    let all = insts + emitted;
    assert forall|i: int, v: VReg| 0 <= i < emitted.len() && #[trigger] spec_writes(
        emitted[i],
        v,
    ) implies after.has_vreg(v) && (own_before.contains(v) || before.vregs.len() <= v.0) by {
        if own_after.contains(v) {
            let k = choose|k: int| 0 <= k < own_after.len() && own_after[k] == v;
            assert(after.is_output(own_after[k]));
            let (x, y) = choose|x: int, y: int|
                0 <= x < after.outputs.len() && 0 <= y < after.outputs[x].len()
                    && #[trigger] after.outputs[x][y] == v;
            assert(after.has_vreg(after.outputs[x][y]));
        }
    }
    assert forall|i: int, v: VReg| 0 <= i < all.len() && #[trigger] spec_writes(
        all[i],
        v,
    ) implies after.has_vreg(v) by {
        if i < insts.len() {
            assert(all[i] == insts[i]);
            assert(before.has_vreg(v));
        } else {
            assert(all[i] == emitted[i - insts.len()]);
        }
    }
    assert forall|i: int, j: int, v: VReg|
        0 <= i < all.len() && 0 <= j < all.len() && #[trigger] spec_writes(all[i], v)
            && #[trigger] spec_writes(all[j], v) implies i == j by {
        if i < insts.len() {
            assert(all[i] == insts[i]);
            assert(before.has_vreg(v));
        } else {
            assert(all[i] == emitted[i - insts.len()]);
        }
        if j < insts.len() {
            assert(all[j] == insts[j]);
            assert(before.has_vreg(v));
        } else {
            assert(all[j] == emitted[j - insts.len()]);
        }
    }
}

/// Single definition is kept by the lowering of a call. Where the context is
/// well formed, the instructions emitted so far write each virtual register
/// at most once, and only registers that have been handed out, and none of
/// them writes a register of the call `id`, which has not been lowered yet,
/// then after the lowering of `id` the context is well formed again, and the
/// instructions emitted so far still write each virtual register at most
/// once, and only registers that have been handed out. This holds whether
/// the lowering succeeds or fails, as long as the registers can be numbered.
pub proof fn lemma_call_keeps_single_definition(
    before: ContextView,
    id: InstructionId,
    tys: Seq<Type>,
    args: Seq<ValueId>,
)
    requires
        before.wf(),
        before.regs.has_instruction(id),
        spec_single_definition(before.insts),
        spec_defines_known(before.insts, before.regs),
        spec_leaves_unwritten(before.insts, before.regs.outputs_of(id)),
        spec_lower_call(before.env, before.regs, id, tys, args).regs.vregs.len() <= usize::MAX,
    ensures
        ({
            let after = before.advance(spec_lower_call(before.env, before.regs, id, tys, args));
            &&& after.wf()
            &&& spec_single_definition(after.insts)
            &&& spec_defines_known(after.insts, after.regs)
        }),
{
    let step = spec_lower_call(before.env, before.regs, id, tys, args);
    lemma_lower_call_step(before.env, before.regs, id, tys, args);
    lemma_grows_keeps_wf(before.env, before.regs, step.regs);
    lemma_own_after_growing(before.regs, step.regs, id);
    lemma_step_keeps_single_definition(
        before.insts,
        step.emitted,
        before.regs,
        step.regs,
        before.regs.outputs_of(id),
        step.regs.outputs_of(id),
    );
}

/// Single definition is kept by the lowering of a return, in the same way
/// as by the lowering of a call; a return has no registers of its own.
pub proof fn lemma_return_keeps_single_definition(
    before: ContextView,
    ret: Option<(Type, ValueId)>,
)
    requires
        before.wf(),
        spec_single_definition(before.insts),
        spec_defines_known(before.insts, before.regs),
        spec_lower_return(before.env, before.regs, ret).regs.vregs.len() <= usize::MAX,
    ensures
        ({
            let after = before.advance(spec_lower_return(before.env, before.regs, ret));
            &&& after.wf()
            &&& spec_single_definition(after.insts)
            &&& spec_defines_known(after.insts, after.regs)
        }),
{
    let step = spec_lower_return(before.env, before.regs, ret);
    lemma_lower_return_step(before.env, before.regs, ret);
    lemma_grows_keeps_wf(before.env, before.regs, step.regs);
    lemma_step_keeps_single_definition(
        before.insts,
        step.emitted,
        before.regs,
        step.regs,
        Seq::empty(),
        Seq::empty(),
    );
}

/// Single definition is kept by the lowering of an extract-value, in the
/// same way as by the lowering of a call.
pub proof fn lemma_extractvalue_keeps_single_definition(
    before: ContextView,
    id: InstructionId,
    ty: Type,
    args: Seq<ValueId>,
)
    requires
        before.wf(),
        before.regs.has_instruction(id),
        spec_single_definition(before.insts),
        spec_defines_known(before.insts, before.regs),
        spec_leaves_unwritten(before.insts, before.regs.outputs_of(id)),
        spec_lower_extractvalue(before.env, before.regs, id, ty, args).regs.vregs.len()
            <= usize::MAX,
    ensures
        ({
            let after = before.advance(
                spec_lower_extractvalue(before.env, before.regs, id, ty, args),
            );
            &&& after.wf()
            &&& spec_single_definition(after.insts)
            &&& spec_defines_known(after.insts, after.regs)
        }),
{
    let step = spec_lower_extractvalue(before.env, before.regs, id, ty, args);
    lemma_lower_extractvalue_step(before.env, before.regs, id, ty, args);
    lemma_grows_keeps_wf(before.env, before.regs, step.regs);
    lemma_own_after_growing(before.regs, step.regs, id);
    lemma_step_keeps_single_definition(
        before.insts,
        step.emitted,
        before.regs,
        step.regs,
        before.regs.outputs_of(id),
        step.regs.outputs_of(id),
    );
}

/// Whether `val` is the result of the instruction `id`.
pub open spec fn spec_is_result_of(env: Env, val: ValueId, id: InstructionId) -> bool {
    env.ir.value(val) == Some(ValueView::Instruction(id))
}

/// Reading a value that is not the result of `id` leaves the registers of
/// `id` as they are.
proof fn lemma_reading_keeps_other_results(
    env: Env,
    regs: RegState,
    ty: Type,
    val: ValueId,
    id: InstructionId,
)
    requires
        regs.has_instruction(id),
        !spec_is_result_of(env, val, id),
    ensures
        spec_operand_for_val(env, regs, ty, val).regs.outputs_of(id) == regs.outputs_of(id),
        spec_operands_for_val(env, regs, ty, val).regs.outputs_of(id) == regs.outputs_of(id),
{
}

/// The registers that an instruction without registers is given by the
/// lowering of a call are new. Where the call `id` has no register before it
/// is lowered, each register that it has afterwards was handed out by the
/// lowering, and no two of them are the same.
///
/// After a storage read or a hash that succeeds and whose result is used,
/// these are four registers of the limb type of the result, as long as no
/// argument is the result of the call itself. After a call of any other
/// function that succeeds, it is one register of the type that the call
/// returns.
pub proof fn lemma_call_gets_new_registers(
    env: Env,
    regs: RegState,
    id: InstructionId,
    tys: Seq<Type>,
    args: Seq<ValueId>,
)
    requires
        regs.wf(env),
        regs.has_instruction(id),
        regs.outputs_of(id).len() == 0,
        spec_call_well_formed(env, tys, args),
        spec_lower_call(env, regs, id, tys, args).regs.vregs.len() <= usize::MAX,
    ensures
        ({
            let step = spec_lower_call(env, regs, id, tys, args);
            let own = step.regs.outputs_of(id);
            &&& forall|k: int|
                0 <= k < own.len() ==> regs.vregs.len() <= (#[trigger] own[k]).0
                    < step.regs.vregs.len()
            &&& forall|k: int, l: int|
                0 <= k < own.len() && 0 <= l < own.len() && k != l ==> #[trigger] own[k]
                    != #[trigger] own[l]
            &&& step.res.is_ok() ==> (spec_callee_name(env, args[0]) matches Some(name)
                && match spec_classify(name) {
                CalleeKind::StorageRead | CalleeKind::Hash => env.ir.has_users(id)
                    && !spec_is_result_of(env, args[1], id) && (args.len() > 2
                    ==> !spec_is_result_of(env, args[2], id)) ==> {
                    &&& own.len() == WIDE_RESULT_LIMBS
                    &&& forall|k: int|
                        0 <= k < WIDE_RESULT_LIMBS ==> step.regs.vregs[(#[trigger] own[k]).0 as int]
                            == spec_limb_type(env.types, tys[0])
                },
                CalleeKind::Prophet | CalleeKind::Plain => {
                    &&& own.len() == 1
                    &&& step.regs.vregs[own[0].0 as int] == spec_return_type(env.types, tys[0])
                },
                _ => true,
            })
        }),
{
    let step = spec_lower_call(env, regs, id, tys, args);
    let own = step.regs.outputs_of(id);
    lemma_lower_call_step(env, regs, id, tys, args);
    assert forall|k: int| 0 <= k < own.len() implies regs.vregs.len() <= (#[trigger] own[k]).0
        < step.regs.vregs.len() by {
        assert(spec_is_new(regs, step.regs, id.0 as int, k));
    }
    assert forall|k: int, l: int|
        0 <= k < own.len() && 0 <= l < own.len() && k != l implies #[trigger] own[k]
        != #[trigger] own[l] by {
        assert(spec_is_new(regs, step.regs, id.0 as int, k));
        assert(spec_is_new(regs, step.regs, id.0 as int, l));
    }
    if step.res.is_ok() {
        let name = spec_callee_name(env, args[0])->Some_0;
        let kind = spec_classify(name);
        if kind == CalleeKind::StorageRead || kind == CalleeKind::Hash {
            if env.ir.has_users(id) && !spec_is_result_of(env, args[1], id) && (args.len() > 2
                ==> !spec_is_result_of(env, args[2], id)) {
                let arg_tys = tys.skip(1);
                let arg_vals = args.skip(1);
                let first = spec_operands_for_val(env, regs, arg_tys[0], arg_vals[0]);
                lemma_reading_keeps_other_results(env, regs, arg_tys[0], arg_vals[0], id);
                lemma_operands_for_val_extends(env, regs, arg_tys[0], arg_vals[0]);
                if arg_vals.len() > 1 {
                    lemma_reading_keeps_other_results(
                        env,
                        first.regs,
                        arg_tys[1],
                        arg_vals[1],
                        id,
                    );
                }
                let gathered = spec_storage_limbs(env, regs, arg_tys, arg_vals);
                lemma_bind_limbs_keeps_registers(env, gathered.regs, gathered.res->Ok_0, 0);
                let bound = spec_pass_str_args_to_regs(env, regs, arg_tys, arg_vals);
                assert(bound.regs.outputs_of(id).len() == 0);
                assert(own =~= spec_fresh_vregs(bound.regs, WIDE_RESULT_LIMBS as nat));
            }
        } else if kind == CalleeKind::Prophet || kind == CalleeKind::Plain {
            let ty = spec_return_type(env.types, tys[0]);
            let named = spec_new_empty_inst_output(regs, ty, id).0;
            let bound = spec_pass_args_to_regs(env, named, tys.skip(1), args.skip(1));
            lemma_bind_args_extends(env, named, tys.skip(1), args.skip(1), 0);
            lemma_bind_args_keeps_registered(env, named, tys.skip(1), args.skip(1), 0, id);
            assert(named.outputs_of(id) =~= seq![regs.fresh()]);
            assert(bound.regs.outputs[id.0 as int][0] == named.outputs[id.0 as int][0]);
        }
    }
}

/// Binding arguments gives no register to an instruction that has one.
proof fn lemma_bind_args_keeps_registered(
    env: Env,
    regs: RegState,
    tys: Seq<Type>,
    args: Seq<ValueId>,
    i: int,
    id: InstructionId,
)
    requires
        regs.has_instruction(id),
        regs.outputs_of(id).len() > 0,
    ensures
        spec_bind_args_from(env, regs, tys, args, i).regs.outputs_of(id) == regs.outputs_of(id),
    decreases args.len() - i,
{
    if 0 <= i < args.len() {
        let read = spec_operand_for_val(env, regs, tys[i], args[i]);
        lemma_bind_args_keeps_registered(env, read.regs, tys, args, i + 1, id);
    }
}

/// The register that an extract-value without registers is given is new.
/// Where the extract-value `id` has no register before it is lowered and
/// neither the compound nor the index is its own result, and the lowering
/// succeeds, `id` has one register afterwards, which was handed out by the
/// lowering and has the limb type of the compound.
pub proof fn lemma_extractvalue_gets_a_new_register(
    env: Env,
    regs: RegState,
    id: InstructionId,
    ty: Type,
    args: Seq<ValueId>,
)
    requires
        regs.wf(env),
        regs.has_instruction(id),
        regs.outputs_of(id).len() == 0,
        args.len() >= 2,
        !spec_is_result_of(env, args[0], id),
        !spec_is_result_of(env, args[1], id),
        spec_lower_extractvalue(env, regs, id, ty, args).res.is_ok(),
        spec_lower_extractvalue(env, regs, id, ty, args).regs.vregs.len() <= usize::MAX,
    ensures
        ({
            let step = spec_lower_extractvalue(env, regs, id, ty, args);
            let own = step.regs.outputs_of(id);
            &&& own.len() == 1
            &&& regs.vregs.len() <= own[0].0 < step.regs.vregs.len()
            &&& step.regs.vregs[own[0].0 as int] == spec_limb_type(env.types, ty)
        }),
{
    let step = spec_lower_extractvalue(env, regs, id, ty, args);
    let limb_ty = spec_limb_type(env.types, ty);
    let compound = spec_operands_for_val(env, regs, ty, args[0]);
    let index = spec_operand_for_val(env, compound.regs, limb_ty, args[1]);
    lemma_reading_keeps_other_results(env, regs, ty, args[0], id);
    lemma_operands_for_val_extends(env, regs, ty, args[0]);
    lemma_reading_keeps_other_results(env, compound.regs, limb_ty, args[1], id);
    lemma_operand_for_val_extends(env, compound.regs, limb_ty, args[1]);
    assert(index.regs.outputs_of(id).len() == 0);
    assert(step.regs.outputs_of(id) =~= seq![index.regs.fresh()]);
    lemma_extends_twice(regs, compound.regs, index.regs);
}

} // verus!
