//! What holds of every lowering, proved from the definitions that the
//! contracts of the lowering functions are stated in.

use crate::callee::{spec_classify, CalleeKind};
use crate::context::{ContextView, Env, RegState, Step};
use crate::error::LoweringErrorView;
use crate::instruction::{spec_move, InstructionView, Opcode, OperandDataView, OperandView};
use crate::ir::{ConstantView, InstructionId, ValueId, ValueView};
use crate::lower::call::{
    spec_arg_move_opcode, spec_bind_args_from, spec_bind_limbs_from, spec_callee_name,
    spec_ends_with_result, spec_slots_exhausted,
    spec_limb_move_opcode, spec_lower_assert, spec_lower_call, spec_lower_plain_call,
    spec_lower_range_check, spec_lower_return, spec_lower_storage_read,
    spec_lower_storage_write, spec_pass_args_to_regs, spec_pass_str_args_to_regs,
    spec_storage_limbs,
};
use crate::lower::extractv::spec_lower_extractvalue;
use crate::materialize::{
    spec_new_empty_inst_output, spec_operand_for_val, spec_operands_for_val, spec_with_limbs,
};
use crate::register::{spec_wide_result_regs, WIDE_RESULT_LIMBS};
use crate::types::{spec_limb_type, spec_return_type, Type};
use vstd::prelude::*;

verus! {

/// The instructions that a context has emitted since it was `before`.
pub open spec fn spec_emitted_since(before: ContextView, after: ContextView) -> Seq<
    InstructionView,
> {
    after.insts.skip(before.insts.len() as int)
}

/// A step only appends: what was emitted before stays as it was, in front,
/// and the instructions of the step follow it.
pub proof fn lemma_steps_only_append<T>(before: ContextView, step: Step<T>)
    ensures
        before.insts.is_prefix_of(before.advance(step).insts),
        spec_emitted_since(before, before.advance(step)) == step.emitted,
{
    let after = before.advance(step);
    assert(after.insts.subrange(0, before.insts.len() as int) =~= before.insts);
    assert(after.insts.skip(before.insts.len() as int) =~= step.emitted);
}

/// Lowering is determined by what it reads. Two contexts that hold the same
/// IR, types, calling convention and current block, and have handed out the
/// same registers, lower the same call, the same return and the same
/// extract-value in the same way: same result, same registers afterwards,
/// same instructions in the same order. What they emitted before does not
/// matter.
pub proof fn lemma_lowering_is_deterministic(
    a: ContextView,
    b: ContextView,
    id: InstructionId,
    tys: Seq<Type>,
    args: Seq<ValueId>,
    ret: Option<(Type, ValueId)>,
)
    requires
        a.env == b.env,
        a.regs == b.regs,
    ensures
        ({
            let step_a = spec_lower_call(a.env, a.regs, id, tys, args);
            let step_b = spec_lower_call(b.env, b.regs, id, tys, args);
            &&& step_a.res == step_b.res
            &&& a.advance(step_a).regs == b.advance(step_b).regs
            &&& spec_emitted_since(a, a.advance(step_a)) == spec_emitted_since(
                b,
                b.advance(step_b),
            )
        }),
        ({
            let step_a = spec_lower_return(a.env, a.regs, ret);
            let step_b = spec_lower_return(b.env, b.regs, ret);
            &&& step_a.res == step_b.res
            &&& a.advance(step_a).regs == b.advance(step_b).regs
            &&& spec_emitted_since(a, a.advance(step_a)) == spec_emitted_since(
                b,
                b.advance(step_b),
            )
        }),
        ({
            let step_a = spec_lower_extractvalue(a.env, a.regs, id, tys[0], args);
            let step_b = spec_lower_extractvalue(b.env, b.regs, id, tys[0], args);
            &&& step_a.res == step_b.res
            &&& a.advance(step_a).regs == b.advance(step_b).regs
            &&& spec_emitted_since(a, a.advance(step_a)) == spec_emitted_since(
                b,
                b.advance(step_b),
            )
        }),
{
    lemma_steps_only_append(a, spec_lower_call(a.env, a.regs, id, tys, args));
    lemma_steps_only_append(b, spec_lower_call(b.env, b.regs, id, tys, args));
    lemma_steps_only_append(a, spec_lower_return(a.env, a.regs, ret));
    lemma_steps_only_append(b, spec_lower_return(b.env, b.regs, ret));
    lemma_steps_only_append(a, spec_lower_extractvalue(a.env, a.regs, id, tys[0], args));
    lemma_steps_only_append(b, spec_lower_extractvalue(b.env, b.regs, id, tys[0], args));
}

/// A value that was read as a scalar reads the same the next time, and the
/// second reading hands out no register: the result of an instruction keeps
/// the register it was given.
pub proof fn lemma_scalar_reading_is_stable(env: Env, regs: RegState, ty: Type, val: ValueId)
    requires
        spec_operand_for_val(env, regs, ty, val).res.is_ok(),
    ensures
        ({
            let first = spec_operand_for_val(env, regs, ty, val);
            let second = spec_operand_for_val(env, first.regs, ty, val);
            &&& second.res == first.res
            &&& second.regs == first.regs
            &&& second.emitted == Seq::<InstructionView>::empty()
        }),
{
    let first = spec_operand_for_val(env, regs, ty, val);
    match env.ir.value(val) {
        Some(ValueView::Instruction(id)) => {
            assert(first.regs.outputs_of(id).len() > 0);
            if regs.outputs_of(id).len() == 0 {
                assert(first.regs.outputs_of(id) =~= seq![regs.fresh()]);
            }
        },
        _ => {},
    }
}

/// The moves that bind the arguments from position `i` on: there is one for
/// each argument up to the first that fails, and the move for an argument
/// writes the argument register at the position of the argument.
proof fn lemma_bind_args_from(env: Env, regs: RegState, tys: Seq<Type>, args: Seq<ValueId>, i: int)
    requires
        0 <= i <= args.len(),
    ensures
        ({
            let step = spec_bind_args_from(env, regs, tys, args, i);
            &&& step.emitted.len() <= args.len() - i
            &&& step.res.is_ok() <==> step.emitted.len() == args.len() - i
            &&& forall|j: int|
                0 <= j < step.emitted.len() ==> {
                    &&& i + j < env.call_conv.arg_regs.len()
                    &&& (#[trigger] step.emitted[j]).operands.len() == 2
                    &&& step.emitted[j].operands[0] == OperandView::output(
                        OperandDataView::Reg(env.call_conv.arg_regs[i + j]),
                    )
                    &&& step.emitted[j].operands[1].input
                    &&& !step.emitted[j].operands[1].output
                    &&& step.emitted[j].opcode == Opcode::MOVri || step.emitted[j].opcode
                        == Opcode::MOVrr
                    &&& step.emitted[j].parent == env.block()
                }
        }),
    decreases args.len() - i,
{
    if i < args.len() {
        let read = spec_operand_for_val(env, regs, tys[i], args[i]);
        lemma_bind_args_from(env, read.regs, tys, args, i + 1);
        let rest = spec_bind_args_from(env, read.regs, tys, args, i + 1);
        let step = spec_bind_args_from(env, regs, tys, args, i);
        assert forall|j: int| 0 <= j < step.emitted.len() implies {
            &&& i + j < env.call_conv.arg_regs.len()
            &&& (#[trigger] step.emitted[j]).operands.len() == 2
            &&& step.emitted[j].operands[0] == OperandView::output(
                OperandDataView::Reg(env.call_conv.arg_regs[i + j]),
            )
            &&& step.emitted[j].operands[1].input
            &&& !step.emitted[j].operands[1].output
            &&& step.emitted[j].opcode == Opcode::MOVri || step.emitted[j].opcode == Opcode::MOVrr
            &&& step.emitted[j].parent == env.block()
        } by {
            if j > 0 {
                assert(step.emitted[j] == rest.emitted[j - 1]);
            }
        }
    }
}

/// Arguments are bound from left to right, and never share or wrap around
/// registers. The binding emits one move for each argument up to the first
/// that fails and none from there on, and it succeeds exactly where there is
/// a move for every argument. The move for the argument at position `i`
/// writes the argument register at position `i`. So binding more arguments
/// than the calling convention has argument registers fails.
pub proof fn lemma_arguments_take_their_own_registers(
    env: Env,
    regs: RegState,
    tys: Seq<Type>,
    args: Seq<ValueId>,
)
    ensures
        ({
            let step = spec_pass_args_to_regs(env, regs, tys, args);
            &&& step.emitted.len() <= args.len()
            &&& step.emitted.len() <= env.call_conv.arg_regs.len()
            &&& step.res.is_ok() <==> step.emitted.len() == args.len()
            &&& args.len() > env.call_conv.arg_regs.len() ==> step.res.is_err()
            &&& forall|i: int|
                0 <= i < step.emitted.len() ==> {
                    &&& (#[trigger] step.emitted[i]).operands.len() == 2
                    &&& step.emitted[i].operands[0] == OperandView::output(
                        OperandDataView::Reg(env.call_conv.arg_regs[i]),
                    )
                    &&& step.emitted[i].operands[1].input
                    &&& step.emitted[i].opcode == Opcode::MOVri || step.emitted[i].opcode
                        == Opcode::MOVrr
                }
        }),
{
    let step = spec_pass_args_to_regs(env, regs, tys, args);
    lemma_bind_args_from(env, regs, tys, args, 0);
    if step.emitted.len() > 0 {
        assert(step.emitted[step.emitted.len() - 1].operands.len() == 2);
    }
}

/// Limbs are bound from left to right. From position `i` on, the binding
/// leaves the registers as they are, emits one move for each limb up to the
/// first that fails and none from there on, and succeeds exactly where there
/// is a move for every limb. The move for a limb copies it into the storage
/// argument register at its position.
pub proof fn lemma_limbs_take_their_own_registers(
    env: Env,
    regs: RegState,
    limbs: Seq<OperandDataView>,
    i: int,
)
    requires
        0 <= i <= limbs.len(),
    ensures
        ({
            let step = spec_bind_limbs_from(env, regs, limbs, i);
            &&& step.regs == regs
            &&& step.emitted.len() <= limbs.len() - i
            &&& step.res.is_ok() <==> step.emitted.len() == limbs.len() - i
            &&& forall|j: int|
                0 <= j < step.emitted.len() ==> {
                    &&& i + j < env.call_conv.str_arg_regs.len()
                    &&& spec_limb_move_opcode(env, regs, limbs[i + j], i + j) == Ok::<
                        Opcode,
                        LoweringErrorView,
                    >((#[trigger] step.emitted[j]).opcode)
                    &&& step.emitted[j] == spec_move(
                        step.emitted[j].opcode,
                        OperandDataView::Reg(env.call_conv.str_arg_regs[i + j]),
                        limbs[i + j],
                        env.block(),
                    )
                }
        }),
    decreases limbs.len() - i,
{
    if i < limbs.len() {
        lemma_limbs_take_their_own_registers(env, regs, limbs, i + 1);
        let rest = spec_bind_limbs_from(env, regs, limbs, i + 1);
        let step = spec_bind_limbs_from(env, regs, limbs, i);
        assert forall|j: int| 0 <= j < step.emitted.len() implies {
            &&& i + j < env.call_conv.str_arg_regs.len()
            &&& spec_limb_move_opcode(env, regs, limbs[i + j], i + j) == Ok::<
                Opcode,
                LoweringErrorView,
            >((#[trigger] step.emitted[j]).opcode)
            &&& step.emitted[j] == spec_move(
                step.emitted[j].opcode,
                OperandDataView::Reg(env.call_conv.str_arg_regs[i + j]),
                limbs[i + j],
                env.block(),
            )
        } by {
            if j > 0 {
                assert(step.emitted[j] == rest.emitted[j - 1]);
            }
        }
    }
}

/// The binding of the arguments from position `i` on is the binding of the
/// arguments before position `p` from `i` on, followed by the binding from
/// `p` on.
proof fn lemma_bind_args_splits(
    env: Env,
    regs: RegState,
    tys: Seq<Type>,
    args: Seq<ValueId>,
    i: int,
    p: int,
)
    requires
        0 <= i <= p <= args.len(),
        spec_bind_args_from(env, regs, tys, args.take(p), i).res.is_ok(),
    ensures
        ({
            let head = spec_bind_args_from(env, regs, tys, args.take(p), i);
            let tail = spec_bind_args_from(env, head.regs, tys, args, p);
            let whole = spec_bind_args_from(env, regs, tys, args, i);
            &&& whole.regs == tail.regs
            &&& whole.res == tail.res
            &&& whole.emitted == head.emitted + tail.emitted
        }),
    decreases p - i,
{
    let head = spec_bind_args_from(env, regs, tys, args.take(p), i);
    let tail = spec_bind_args_from(env, head.regs, tys, args, p);
    let whole = spec_bind_args_from(env, regs, tys, args, i);
    if i < p {
        assert(args.take(p)[i] == args[i]);
        let read = spec_operand_for_val(env, regs, tys[i], args[i]);
        lemma_bind_args_splits(env, read.regs, tys, args, i + 1, p);
        let head_rest = spec_bind_args_from(env, read.regs, tys, args.take(p), i + 1);
        let whole_rest = spec_bind_args_from(env, read.regs, tys, args, i + 1);
        assert(whole.emitted =~= head.emitted + tail.emitted);
    } else {
        assert(whole.emitted =~= head.emitted + tail.emitted);
    }
}

/// The first argument that fails decides. Where the arguments before
/// position `p` are bound with success, the binding of all arguments emits
/// their moves; and where the argument at `p` then cannot be read, has no
/// register, or cannot be copied, in this order, the binding fails with that
/// failure and emits nothing more, whatever the arguments behind it are.
pub proof fn lemma_first_argument_that_fails_decides(
    env: Env,
    regs: RegState,
    tys: Seq<Type>,
    args: Seq<ValueId>,
    p: int,
)
    requires
        0 <= p < args.len(),
        spec_pass_args_to_regs(env, regs, tys, args.take(p)).res.is_ok(),
    ensures
        ({
            let head = spec_pass_args_to_regs(env, regs, tys, args.take(p));
            let read = spec_operand_for_val(env, head.regs, tys[p], args[p]);
            let whole = spec_pass_args_to_regs(env, regs, tys, args);
            &&& head.emitted.is_prefix_of(whole.emitted)
            &&& match read.res {
                Err(error) => whole.res == Err::<(), LoweringErrorView>(error) && whole.emitted
                    == head.emitted,
                Ok(arg) => if p >= env.call_conv.arg_regs.len() {
                    whole.res == Err::<(), LoweringErrorView>(
                        spec_slots_exhausted(args.len(), env.call_conv.arg_regs.len()),
                    ) && whole.emitted == head.emitted
                } else {
                    spec_arg_move_opcode(env, read.regs, arg, args[p]) matches Err(error)
                        ==> whole.res == Err::<(), LoweringErrorView>(error) && whole.emitted
                        == head.emitted
                },
            }
        }),
{
    let head = spec_pass_args_to_regs(env, regs, tys, args.take(p));
    let tail = spec_bind_args_from(env, head.regs, tys, args, p);
    let whole = spec_pass_args_to_regs(env, regs, tys, args);
    lemma_bind_args_splits(env, regs, tys, args, 0, p);
    assert((head.emitted + tail.emitted).subrange(0, head.emitted.len() as int)
        =~= head.emitted);
    if tail.emitted.len() == 0 {
        assert(head.emitted + tail.emitted =~= head.emitted);
    }
}

/// The first limb that fails decides. Where each limb from position `i` up
/// to position `p` has a register and can be copied, the binding of the
/// limbs from `i` on emits their moves; and where the limb at `p` then has
/// no register or cannot be copied, in this order, the binding fails with
/// that failure and emits nothing more, whatever the limbs behind it are.
pub proof fn lemma_first_limb_that_fails_decides(
    env: Env,
    regs: RegState,
    limbs: Seq<OperandDataView>,
    i: int,
    p: int,
)
    requires
        0 <= i <= p < limbs.len(),
        forall|j: int|
            i <= j < p ==> j < env.call_conv.str_arg_regs.len() && (#[trigger] spec_limb_move_opcode(
                env,
                regs,
                limbs[j],
                j,
            )).is_ok(),
    ensures
        ({
            let step = spec_bind_limbs_from(env, regs, limbs, i);
            &&& p >= env.call_conv.str_arg_regs.len() ==> step.emitted.len() == p - i && step.res
                == Err::<(), LoweringErrorView>(
                spec_slots_exhausted(limbs.len(), env.call_conv.str_arg_regs.len()),
            )
            &&& p < env.call_conv.str_arg_regs.len() ==> (spec_limb_move_opcode(
                env,
                regs,
                limbs[p],
                p,
            ) matches Err(error) ==> step.emitted.len() == p - i && step.res == Err::<
                (),
                LoweringErrorView,
            >(error))
        }),
    decreases p - i,
{
    if i < p {
        assert(spec_limb_move_opcode(env, regs, limbs[i], i).is_ok());
        lemma_first_limb_that_fails_decides(env, regs, limbs, i + 1, p);
    }
}

/// A result that nothing uses is not copied. After a storage read or a hash
/// that succeeds, the instruction that reads or hashes is the last one
/// emitted where no instruction uses the result; where one does, exactly one
/// move per limb follows it, and the move for limb `k` copies the register
/// that is fixed for limb `k` into the register of the result for limb `k`.
/// After any other call that succeeds, the call instruction is the last one
/// emitted where no instruction uses the result; where one does, exactly one
/// move follows it, which copies the return register into the register of
/// the result.
pub proof fn lemma_unused_results_are_not_copied(
    before: ContextView,
    id: InstructionId,
    tys: Seq<Type>,
    args: Seq<ValueId>,
)
    requires
        before.regs.has_instruction(id),
        spec_lower_call(before.env, before.regs, id, tys, args).res.is_ok(),
    ensures
        spec_callee_name(before.env, args[0]) matches Some(name) && spec_ends_with_result(
            before.env,
            spec_lower_call(before.env, before.regs, id, tys, args).regs,
            id,
            spec_classify(name),
            before.advance(spec_lower_call(before.env, before.regs, id, tys, args)).insts,
        ),
{
    let env = before.env;
    let regs = before.regs;
    let step = spec_lower_call(env, regs, id, tys, args);
    let insts = before.advance(step).insts;
    let n = insts.len() as int;
    let name = spec_callee_name(env, args[0])->Some_0;
    let kind = spec_classify(name);
    if kind == CalleeKind::StorageRead || kind == CalleeKind::Hash {
        let bound = spec_pass_str_args_to_regs(env, regs, tys.skip(1), args.skip(1));
        let base = (before.insts.len() + bound.emitted.len()) as int;
        if env.ir.has_users(id) {
            assert(n == base + 1 + WIDE_RESULT_LIMBS);
            assert(insts[n - 1 - WIDE_RESULT_LIMBS] == step.emitted[bound.emitted.len() as int]);
            assert forall|j: int| n - WIDE_RESULT_LIMBS <= j < n implies #[trigger] insts[j]
                == spec_move(
                Opcode::MOVrr,
                OperandDataView::VReg(step.regs.outputs_of(id)[j - (n - WIDE_RESULT_LIMBS)]),
                OperandDataView::Reg(spec_wide_result_regs()[j - (n - WIDE_RESULT_LIMBS)]),
                env.block(),
            ) by {
                assert(insts[j] == step.emitted[j - before.insts.len()]);
            }
        } else {
            assert(insts[n - 1] == step.emitted[bound.emitted.len() as int]);
        }
    } else if kind == CalleeKind::Prophet || kind == CalleeKind::Plain {
        let ty = spec_return_type(env.types, tys[0]);
        let (named, outputs) = spec_new_empty_inst_output(regs, ty, id);
        let bound = spec_pass_args_to_regs(env, named, tys.skip(1), args.skip(1));
        lemma_new_empty_inst_output_extends(regs, ty, id);
        lemma_bind_args_extends(env, named, tys.skip(1), args.skip(1), 0);
        assert(named.outputs_of(id)[0] == outputs[0]);
        assert(bound.regs.outputs[id.0 as int][0] == named.outputs[id.0 as int][0]);
        let base = (before.insts.len() + bound.emitted.len()) as int;
        assert(insts[base] == step.emitted[bound.emitted.len() as int]);
        if env.ir.has_users(id) {
            assert(insts[base + 1] == step.emitted[bound.emitted.len() as int + 1]);
        }
    }
}

/// Reading a limb yields that limb. Where the compound reads as the limbs
/// `limbs` and the index is the constant `k`, which names one of them,
/// extract-value succeeds, and what it emits behind the instructions that
/// read the compound is a single move, whose input is `limbs[k]` and whose
/// output is the register of the result.
pub proof fn lemma_extract_reads_the_limb(
    env: Env,
    regs: RegState,
    id: InstructionId,
    ty: Type,
    args: Seq<ValueId>,
    limbs: Seq<OperandDataView>,
    k: i32,
)
    requires
        args.len() >= 2,
        regs.has_instruction(id),
        spec_operands_for_val(env, regs, ty, args[0]).res == Ok::<
            Seq<OperandDataView>,
            LoweringErrorView,
        >(limbs),
        env.ir.value(args[1]) == Some(ValueView::Constant(ConstantView::Int32(k))),
        0 <= k < limbs.len(),
    ensures
        ({
            let compound = spec_operands_for_val(env, regs, ty, args[0]);
            let step = spec_lower_extractvalue(env, regs, id, ty, args);
            &&& step.res.is_ok()
            &&& step.emitted.len() == compound.emitted.len() + 1
            &&& step.emitted.take(compound.emitted.len() as int) == compound.emitted
            &&& step.emitted.last() == spec_move(
                Opcode::MOVrr,
                OperandDataView::VReg(step.regs.outputs_of(id)[0]),
                limbs[k as int],
                env.block(),
            )
        }),
{
    let compound = spec_operands_for_val(env, regs, ty, args[0]);
    let step = spec_lower_extractvalue(env, regs, id, ty, args);
    assert(step.emitted.take(compound.emitted.len() as int) =~= compound.emitted);
    let index = spec_operand_for_val(
        env,
        compound.regs,
        spec_limb_type(env.types, ty),
        args[1],
    );
    assert(compound.regs.outputs.len() == regs.outputs.len());
    assert(index.regs.outputs.len() == regs.outputs.len());
    if index.regs.outputs_of(id).len() == 0 {
        assert(step.regs.outputs_of(id) =~= seq![index.regs.fresh()]);
    }
}

/// A return that succeeds ends with the instruction that returns, which has
/// no operands, whether or not a value is returned; and it emits that
/// instruction once.
pub proof fn lemma_return_comes_last(env: Env, regs: RegState, arg: Option<(Type, ValueId)>)
    requires
        spec_lower_return(env, regs, arg).res.is_ok(),
    ensures
        ({
            let step = spec_lower_return(env, regs, arg);
            &&& step.emitted.len() > 0
            &&& step.emitted.last() == env.inst(Opcode::RET, Seq::empty())
            &&& forall|i: int|
                0 <= i < step.emitted.len() - 1 ==> (#[trigger] step.emitted[i]).opcode
                    != Opcode::RET
        }),
{
}

/// Whether `after` holds everything that `before` holds, unchanged: each
/// register that had a type has the same type, and each instruction has the
/// registers it had, in front of any that it was given since.
pub open spec fn spec_extends(before: RegState, after: RegState) -> bool {
    &&& before.vregs.len() <= after.vregs.len()
    &&& forall|v: int| 0 <= v < before.vregs.len() ==> after.vregs[v] == before.vregs[v]
    &&& before.outputs.len() == after.outputs.len()
    &&& forall|i: int|
        0 <= i < before.outputs.len() ==> (#[trigger] before.outputs[i]).len()
            <= after.outputs[i].len()
    &&& forall|i: int, k: int|
        0 <= i < before.outputs.len() && 0 <= k < before.outputs[i].len()
            ==> #[trigger] after.outputs[i][k] == before.outputs[i][k]
}

/// Reading a value as a scalar keeps what the registers hold.
pub(crate) proof fn lemma_operand_for_val_extends(env: Env, regs: RegState, ty: Type, val: ValueId)
    ensures
        spec_extends(regs, spec_operand_for_val(env, regs, ty, val).regs),
{
}

/// Reading a value as a compound keeps what the registers hold.
pub(crate) proof fn lemma_operands_for_val_extends(env: Env, regs: RegState, ty: Type, val: ValueId)
    ensures
        spec_extends(regs, spec_operands_for_val(env, regs, ty, val).regs),
{
    lemma_operand_for_val_extends(env, regs, ty, val);
}

/// Binding arguments from position `i` on keeps what the registers hold.
pub(crate) proof fn lemma_bind_args_extends(env: Env, regs: RegState, tys: Seq<Type>, args: Seq<ValueId>, i: int)
    ensures
        spec_extends(regs, spec_bind_args_from(env, regs, tys, args, i).regs),
    decreases args.len() - i,
{
    if 0 <= i < args.len() {
        let read = spec_operand_for_val(env, regs, tys[i], args[i]);
        lemma_operand_for_val_extends(env, regs, tys[i], args[i]);
        lemma_bind_args_extends(env, read.regs, tys, args, i + 1);
    }
}

/// Binding limbs from position `i` on leaves the registers as they are.
pub(crate) proof fn lemma_bind_limbs_keeps_registers(
    env: Env,
    regs: RegState,
    limbs: Seq<OperandDataView>,
    i: int,
)
    ensures
        spec_bind_limbs_from(env, regs, limbs, i).regs == regs,
    decreases limbs.len() - i,
{
    if 0 <= i < limbs.len() {
        lemma_bind_limbs_keeps_registers(env, regs, limbs, i + 1);
    }
}

/// Binding storage arguments keeps what the registers hold.
pub(crate) proof fn lemma_pass_str_args_extends(env: Env, regs: RegState, tys: Seq<Type>, args: Seq<ValueId>)
    ensures
        spec_extends(regs, spec_pass_str_args_to_regs(env, regs, tys, args).regs),
{
    let first = spec_operands_for_val(env, regs, tys[0], args[0]);
    lemma_operands_for_val_extends(env, regs, tys[0], args[0]);
    lemma_operands_for_val_extends(env, first.regs, tys[1], args[1]);
    let gathered = spec_storage_limbs(env, regs, tys, args);
    assert(spec_extends(regs, gathered.regs));
    match gathered.res {
        Ok(limbs) => {
            lemma_bind_limbs_keeps_registers(env, gathered.regs, limbs, 0);
        },
        Err(_) => {},
    }
}

/// Keeping is transitive.
pub(crate) proof fn lemma_extends_twice(a: RegState, b: RegState, c: RegState)
    requires
        spec_extends(a, b),
        spec_extends(b, c),
    ensures
        spec_extends(a, c),
{
    assert forall|i: int, k: int|
        0 <= i < a.outputs.len() && 0 <= k < a.outputs[i].len() implies #[trigger] c.outputs[i][k]
        == a.outputs[i][k] by {
        assert(b.outputs[i][k] == a.outputs[i][k]);
        assert(a.outputs[i].len() <= b.outputs[i].len());
    }
    assert forall|i: int| 0 <= i < a.outputs.len() implies (#[trigger] a.outputs[i]).len()
        <= c.outputs[i].len() by {
        assert(a.outputs[i].len() <= b.outputs[i].len());
        assert(b.outputs[i].len() <= c.outputs[i].len());
    }
}

/// Giving the result of an instruction its register keeps what the registers
/// hold.
pub(crate) proof fn lemma_new_empty_inst_output_extends(regs: RegState, ty: Type, id: InstructionId)
    requires
        regs.has_instruction(id),
    ensures
        spec_extends(regs, spec_new_empty_inst_output(regs, ty, id).0),
{
}

/// Lowering a builtin keeps what the registers hold.
pub(crate) proof fn lemma_builtins_extend(env: Env, regs: RegState, tys: Seq<Type>, args: Seq<ValueId>)
    ensures
        spec_extends(regs, spec_lower_assert(env, regs, tys, args).regs),
        spec_extends(regs, spec_lower_range_check(env, regs, tys, args).regs),
{
    lemma_operand_for_val_extends(env, regs, tys[1], args[1]);
    let lhs = spec_operand_for_val(env, regs, tys[1], args[1]);
    lemma_operand_for_val_extends(env, lhs.regs, tys[2], args[2]);
    let rhs = spec_operand_for_val(env, lhs.regs, tys[2], args[2]);
    lemma_extends_twice(regs, lhs.regs, rhs.regs);
}

/// Lowering a storage write, a storage read or a hash keeps what the
/// registers hold.
pub(crate) proof fn lemma_storage_calls_extend(
    env: Env,
    regs: RegState,
    id: InstructionId,
    tys: Seq<Type>,
    args: Seq<ValueId>,
    opcode: Opcode,
)
    requires
        regs.has_instruction(id),
    ensures
        spec_extends(regs, spec_lower_storage_write(env, regs, tys, args).regs),
        spec_extends(regs, spec_lower_storage_read(env, regs, id, tys, args, opcode).regs),
{
    lemma_pass_str_args_extends(env, regs, tys.skip(1), args.skip(1));
    let bound = spec_pass_str_args_to_regs(env, regs, tys.skip(1), args.skip(1));
    let after = spec_with_limbs(
        bound.regs,
        spec_limb_type(env.types, tys[0]),
        id,
        WIDE_RESULT_LIMBS as nat,
    );
    assert(spec_extends(bound.regs, after));
    lemma_extends_twice(regs, bound.regs, after);
}

/// Lowering a call of an ordinary function or a request to the prover keeps
/// what the registers hold.
pub(crate) proof fn lemma_plain_call_extends(
    env: Env,
    regs: RegState,
    id: InstructionId,
    tys: Seq<Type>,
    args: Seq<ValueId>,
    name: Seq<char>,
    opcode: Opcode,
)
    requires
        regs.has_instruction(id),
    ensures
        spec_extends(regs, spec_lower_plain_call(env, regs, id, tys, args, name, opcode).regs),
{
    let ty = spec_return_type(env.types, tys[0]);
    let named = spec_new_empty_inst_output(regs, ty, id).0;
    lemma_new_empty_inst_output_extends(regs, ty, id);
    lemma_bind_args_extends(env, named, tys.skip(1), args.skip(1), 0);
    let bound = spec_pass_args_to_regs(env, named, tys.skip(1), args.skip(1));
    lemma_extends_twice(regs, named, bound.regs);
}

/// Lowering a call keeps what the registers hold.
pub(crate) proof fn lemma_lower_call_extends(
    env: Env,
    regs: RegState,
    id: InstructionId,
    tys: Seq<Type>,
    args: Seq<ValueId>,
)
    requires
        regs.has_instruction(id),
    ensures
        spec_extends(regs, spec_lower_call(env, regs, id, tys, args).regs),
{
    lemma_builtins_extend(env, regs, tys, args);
    lemma_storage_calls_extend(env, regs, id, tys, args, Opcode::SLOAD);
    lemma_storage_calls_extend(env, regs, id, tys, args, Opcode::POSEIDON);
    match spec_callee_name(env, args[0]) {
        Some(name) => {
            lemma_plain_call_extends(env, regs, id, tys, args, name, Opcode::CALL);
            lemma_plain_call_extends(env, regs, id, tys, args, name, Opcode::PROPHET);
        },
        None => {},
    }
}

/// Lowering a return keeps what the registers hold.
pub(crate) proof fn lemma_lower_return_extends(env: Env, regs: RegState, ret: Option<(Type, ValueId)>)
    ensures
        spec_extends(regs, spec_lower_return(env, regs, ret).regs),
{
    match ret {
        Some((ty, value)) => {
            lemma_operand_for_val_extends(env, regs, ty, value);
        },
        None => {},
    }
}

/// Lowering an extract-value keeps what the registers hold.
pub(crate) proof fn lemma_lower_extractvalue_extends(
    env: Env,
    regs: RegState,
    id: InstructionId,
    ty: Type,
    args: Seq<ValueId>,
)
    requires
        regs.has_instruction(id),
    ensures
        spec_extends(regs, spec_lower_extractvalue(env, regs, id, ty, args).regs),
{
    let limb_ty = spec_limb_type(env.types, ty);
    lemma_operands_for_val_extends(env, regs, ty, args[0]);
    let compound = spec_operands_for_val(env, regs, ty, args[0]);
    lemma_operand_for_val_extends(env, compound.regs, limb_ty, args[1]);
    let index = spec_operand_for_val(env, compound.regs, limb_ty, args[1]);
    lemma_extends_twice(regs, compound.regs, index.regs);
    lemma_new_empty_inst_output_extends(index.regs, limb_ty, id);
    lemma_extends_twice(regs, index.regs, spec_new_empty_inst_output(index.regs, limb_ty, id).0);
}

/// Registers are never given another type, and an instruction never loses a
/// register. Whatever a call, a return or an extract-value does, and whether
/// it succeeds or fails, each register that had a type before has the same
/// type afterwards, and each instruction has afterwards the registers it had
/// before, in front of any that it was given.
pub proof fn lemma_registers_are_kept(
    env: Env,
    regs: RegState,
    id: InstructionId,
    tys: Seq<Type>,
    args: Seq<ValueId>,
    ret: Option<(Type, ValueId)>,
)
    requires
        regs.has_instruction(id),
    ensures
        spec_extends(regs, spec_lower_call(env, regs, id, tys, args).regs),
        spec_extends(regs, spec_lower_return(env, regs, ret).regs),
        spec_extends(regs, spec_lower_extractvalue(env, regs, id, tys[0], args).regs),
{
    lemma_lower_call_extends(env, regs, id, tys, args);
    lemma_lower_return_extends(env, regs, ret);
    lemma_lower_extractvalue_extends(env, regs, id, tys[0], args);
}

/// A value that holds the result of an instruction and was read as a
/// compound reads the same the next time, and the second reading hands out
/// no register and emits nothing.
pub proof fn lemma_compound_reading_is_stable(
    env: Env,
    regs: RegState,
    ty: Type,
    val: ValueId,
    id: InstructionId,
)
    requires
        env.ir.value(val) == Some(ValueView::Instruction(id)),
        spec_operands_for_val(env, regs, ty, val).res.is_ok(),
    ensures
        ({
            let first = spec_operands_for_val(env, regs, ty, val);
            let second = spec_operands_for_val(env, first.regs, ty, val);
            &&& second.res == first.res
            &&& second.regs == first.regs
            &&& first.emitted == Seq::<InstructionView>::empty()
            &&& second.emitted == Seq::<InstructionView>::empty()
        }),
{
    let first = spec_operands_for_val(env, regs, ty, val);
    let second = spec_operands_for_val(env, first.regs, ty, val);
    if first.regs.outputs_of(id).len() == 0 {
        assert(second.regs =~~= first.regs);
        assert(second.regs.outputs_of(id) =~= first.regs.outputs_of(id));
    }
}

} // verus!
