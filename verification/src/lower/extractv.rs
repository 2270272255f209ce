//! Lowering of extract-value: the reading of one limb of a compound.

use crate::context::{Env, LoweringContext, RegState, Step};
use crate::error::{LoweringError, LoweringErrorView};
use crate::instruction::{spec_move, Opcode, OperandData, OperandDataView};
use crate::ir::{ConstantView, InstructionId, ValueId, ValueView};
use crate::laws::lemma_extract_reads_the_limb;
use crate::materialize::{
    get_operand_for_val, get_operands_for_val, move_data, new_empty_inst_output,
    plain_result_view, spec_new_empty_inst_output, spec_operand_for_val, spec_operands_for_val,
};
use crate::types::{spec_limb_type, Type};
use vstd::prelude::*;

verus! {

/// The lowering of the extract-value `id`, which reads from the compound
/// `args[0]`, of type `ty`, the limb that `args[1]` names.
///
/// The compound is read limb by limb. The index must be a constant integer
/// that names one of the limbs. The result of `id` gets its register, of the
/// limb type, and one move copies the limb into it.
pub open spec fn spec_lower_extractvalue(
    env: Env,
    regs: RegState,
    id: InstructionId,
    ty: Type,
    args: Seq<ValueId>,
) -> Step<()> {
    let compound = spec_operands_for_val(env, regs, ty, args[0]);
    let limb_ty = spec_limb_type(env.types, ty);
    match compound.res {
        Err(error) => Step { regs: compound.regs, emitted: compound.emitted, res: Err(error) },
        Ok(limbs) => {
            let index = spec_operand_for_val(env, compound.regs, limb_ty, args[1]);
            match index.res {
                Err(error) => Step { regs: index.regs, emitted: compound.emitted, res: Err(error) },
                Ok(OperandDataView::Int32(k)) => if 0 <= k < limbs.len() {
                    let (named, outputs) = spec_new_empty_inst_output(index.regs, limb_ty, id);
                    Step {
                        regs: named,
                        emitted: compound.emitted + seq![
                            spec_move(
                                Opcode::MOVrr,
                                OperandDataView::VReg(outputs[0]),
                                limbs[k as int],
                                env.block(),
                            ),
                        ],
                        res: Ok(()),
                    }
                } else {
                    Step {
                        regs: index.regs,
                        emitted: compound.emitted,
                        res: Err(
                            LoweringErrorView::ExtractIndexOutOfRange {
                                index: k,
                                limbs: limbs.len() as usize,
                            },
                        ),
                    }
                },
                Ok(_) => Step {
                    regs: index.regs,
                    emitted: compound.emitted,
                    res: Err(LoweringErrorView::UnsupportedExtractIndex(args[1])),
                },
            }
        },
    }
}

/// Lowers the extract-value `id`, which reads from the compound `args[0]`, of
/// type `tys`, the limb that `args[1]` names.
///
/// On success the last instruction emitted is the one move that copies the
/// limb at the index into the register of `id`.
pub fn lower_extractvalue(
    ctx: &mut LoweringContext,
    id: InstructionId,
    tys: &Type,
    args: &[ValueId],
) -> (res: Result<(), LoweringError>)
    requires
        old(ctx).wf(),
        old(ctx)@.regs.has_instruction(id),
        args@.len() >= 2,
    ensures
        final(ctx).wf(),
        final(ctx)@ == old(ctx)@.advance(
            spec_lower_extractvalue(old(ctx)@.env, old(ctx)@.regs, id, *tys, args@),
        ),
        plain_result_view(res) == spec_lower_extractvalue(
            old(ctx)@.env,
            old(ctx)@.regs,
            id,
            *tys,
            args@,
        ).res,
        res.is_ok() ==> (spec_operands_for_val(
            old(ctx)@.env,
            old(ctx)@.regs,
            *tys,
            args@[0],
        ).res matches Ok(limbs) && (old(ctx)@.env.ir.value(args@[1]) matches Some(
            ValueView::Constant(ConstantView::Int32(k)),
        ) && 0 <= k < limbs.len() && final(ctx)@.insts.len() > 0 && final(ctx)@.insts.last()
            == spec_move(
            Opcode::MOVrr,
            OperandDataView::VReg(final(ctx)@.regs.outputs_of(id)[0]),
            limbs[k as int],
            old(ctx)@.env.block(),
        ))),
{
    let ghost step = spec_lower_extractvalue(ctx@.env, ctx@.regs, id, *tys, args@);
    let limbs = match get_operands_for_val(ctx, *tys, args[0]) {
        Ok(limbs) => limbs,
        Err(error) => {
            return Err(error);
        },
    };
    let limb_ty = ctx.types().limb_type(*tys);
    let index = match get_operand_for_val(ctx, limb_ty, args[1]) {
        Ok(OperandData::Int32(index)) => index,
        Ok(_) => {
            assert(ctx@ =~= old(ctx)@.advance(step));
            return Err(LoweringError::UnsupportedExtractIndex(args[1]));
        },
        Err(error) => {
            assert(ctx@ =~= old(ctx)@.advance(step));
            return Err(error);
        },
    };
    if index < 0 || index as usize >= limbs.len() {
        assert(ctx@ =~= old(ctx)@.advance(step));
        return Err(LoweringError::ExtractIndexOutOfRange { index, limbs: limbs.len() });
    }
    let outputs = new_empty_inst_output(ctx, limb_ty, id);
    ctx.emit(
        move_data(Opcode::MOVrr, OperandData::VReg(outputs[0]), limbs[index as usize].clone()),
    );
    assert(ctx@ =~= old(ctx)@.advance(step));
    proof {
        lemma_extract_reads_the_limb(
            old(ctx)@.env,
            old(ctx)@.regs,
            id,
            *tys,
            args@,
            limbs.deep_view(),
            index,
        );
    }
    Ok(())
}

} // verus!
