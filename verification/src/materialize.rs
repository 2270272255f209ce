//! Turning values of the IR into operands of machine instructions: one
//! operand for a value that is read as a scalar, one operand per limb for a
//! value that is read as a compound.

use crate::context::{ContextView, Env, LoweringContext, RegState, Step};
use crate::error::{LoweringError, LoweringErrorView};
use crate::instruction::{
    spec_move, InstructionData, Opcode, Operand, OperandData, OperandDataView,
};
use crate::ir::{
    ConstantValue, ConstantView, InstructionId, Name, NameView, Value, ValueId, ValueView,
};
use crate::register::VReg;
use crate::types::{spec_limb_count, spec_limb_type, Type};
use vstd::prelude::*;

verus! {

/// The model of the result of a piece of lowering that yields a plain value.
pub open spec fn plain_result_view<T>(res: Result<T, LoweringError>) -> Result<
    T,
    LoweringErrorView,
> {
    match res {
        Ok(value) => Ok(value),
        Err(error) => Err(error@),
    }
}

/// The model of the result of a scalar materialization.
pub open spec fn operand_result_view(res: Result<OperandData, LoweringError>) -> Result<
    OperandDataView,
    LoweringErrorView,
> {
    match res {
        Ok(operand) => Ok(operand@),
        Err(error) => Err(error@),
    }
}

/// The model of the result of a compound materialization.
pub open spec fn operands_result_view(res: Result<Vec<OperandData>, LoweringError>) -> Result<
    Seq<OperandDataView>,
    LoweringErrorView,
> {
    match res {
        Ok(operands) => Ok(operands.deep_view()),
        Err(error) => Err(error@),
    }
}

/// The registers `regs` as operands, in order.
pub open spec fn spec_vreg_operands(regs: Seq<VReg>) -> Seq<OperandDataView> {
    Seq::new(regs.len(), |k: int| OperandDataView::VReg(regs[k]))
}

/// The `n` registers that are handed out next, in the order in which they
/// are handed out.
pub open spec fn spec_fresh_vregs(regs: RegState, n: nat) -> Seq<VReg> {
    Seq::new(n, |k: int| VReg((regs.vregs.len() + k) as usize))
}

/// The state after `n` registers of type `ty` were handed out.
pub open spec fn spec_with_vregs(regs: RegState, ty: Type, n: nat) -> RegState {
    RegState { vregs: regs.vregs + Seq::new(n, |k: int| ty), outputs: regs.outputs }
}

/// The state after `n` registers of type `ty` were handed out and added, in
/// order, to the registers that hold the result of `id`.
pub open spec fn spec_with_limbs(regs: RegState, ty: Type, id: InstructionId, n: nat) -> RegState {
    RegState {
        vregs: regs.vregs + Seq::new(n, |k: int| ty),
        outputs: regs.outputs.update(
            id.0 as int,
            regs.outputs[id.0 as int] + spec_fresh_vregs(regs, n),
        ),
    }
}

/// The registers of the result of `id` where it is read as a scalar of type
/// `ty`: those it has, or else one that is handed out for it. Yields the
/// state afterwards and the registers.
pub open spec fn spec_new_empty_inst_output(regs: RegState, ty: Type, id: InstructionId) -> (
    RegState,
    Seq<VReg>,
) {
    if regs.outputs_of(id).len() > 0 {
        (regs, regs.outputs_of(id))
    } else {
        (spec_with_limbs(regs, ty, id, 1), seq![regs.fresh()])
    }
}

/// One more register of type `ty` for the result of `id`, behind those it
/// has. Yields the state afterwards and the registers of the result.
pub open spec fn spec_new_empty_str_inst_output(regs: RegState, ty: Type, id: InstructionId) -> (
    RegState,
    Seq<VReg>,
) {
    (spec_with_limbs(regs, ty, id, 1), regs.outputs_of(id).push(regs.fresh()))
}

/// The operand that stands for `val` where it is read as a scalar of type
/// `ty`.
///
/// The result of an instruction is the first of its registers; it gets one of
/// type `ty` if it has none. An integer constant is an immediate. A global
/// with a spelled-out name is a label. Nothing else is a scalar.
pub open spec fn spec_operand_for_val(env: Env, regs: RegState, ty: Type, val: ValueId) -> Step<
    OperandDataView,
> {
    match env.ir.value(val) {
        Some(ValueView::Instruction(id)) => if regs.has_instruction(id) {
            let (after, outputs) = spec_new_empty_inst_output(regs, ty, id);
            Step::done(after, OperandDataView::VReg(outputs[0]))
        } else {
            Step::fail(regs, LoweringErrorView::UnsupportedValue(val))
        },
        Some(ValueView::Constant(ConstantView::Int32(i))) => Step::done(
            regs,
            OperandDataView::Int32(i),
        ),
        Some(ValueView::Constant(ConstantView::GlobalRef(NameView::Name(name)))) => Step::done(
            regs,
            OperandDataView::Label(name),
        ),
        _ => Step::fail(regs, LoweringErrorView::UnsupportedValue(val)),
    }
}

/// The staging of a constant array: each element is copied, in order, into a
/// register of type `ty` that is handed out for it, and these registers are
/// the limbs.
pub open spec fn spec_stage_array(env: Env, regs: RegState, ty: Type, elems: Seq<i32>) -> Step<
    Seq<OperandDataView>,
> {
    Step {
        regs: spec_with_vregs(regs, ty, elems.len()),
        emitted: Seq::new(
            elems.len(),
            |k: int|
                spec_move(
                    Opcode::MOVri,
                    OperandDataView::VReg(spec_fresh_vregs(regs, elems.len())[k]),
                    OperandDataView::Int32(elems[k]),
                    env.block(),
                ),
        ),
        res: Ok(spec_vreg_operands(spec_fresh_vregs(regs, elems.len()))),
    }
}

/// The operands that stand for `val` where it is read as a compound of type
/// `ty`, one per limb, in limb order.
///
/// The result of an instruction is its registers; if it has none, it gets one
/// of the limb type for each limb of `ty`. A constant array is staged, element
/// by element. The zero of a type is one zero immediate per limb. Any other
/// value is a single limb, the operand that stands for it as a scalar.
pub open spec fn spec_operands_for_val(env: Env, regs: RegState, ty: Type, val: ValueId) -> Step<
    Seq<OperandDataView>,
> {
    match env.ir.value(val) {
        Some(ValueView::Instruction(id)) => if !regs.has_instruction(id) {
            Step::fail(regs, LoweringErrorView::UnsupportedValue(val))
        } else if regs.outputs_of(id).len() > 0 {
            Step::done(regs, spec_vreg_operands(regs.outputs_of(id)))
        } else {
            let after = spec_with_limbs(
                regs,
                spec_limb_type(env.types, ty),
                id,
                spec_limb_count(env.types, ty),
            );
            Step::done(after, spec_vreg_operands(after.outputs_of(id)))
        },
        Some(ValueView::Constant(ConstantView::Array(elems))) => spec_stage_array(
            env,
            regs,
            spec_limb_type(env.types, ty),
            elems,
        ),
        Some(ValueView::Constant(ConstantView::AggregateZero)) => Step::done(
            regs,
            Seq::new(spec_limb_count(env.types, ty), |k: int| OperandDataView::Int32(0)),
        ),
        _ => {
            let scalar = spec_operand_for_val(env, regs, ty, val);
            match scalar.res {
                Ok(operand) => Step {
                    regs: scalar.regs,
                    emitted: scalar.emitted,
                    res: Ok(seq![operand]),
                },
                Err(error) => Step { regs: scalar.regs, emitted: scalar.emitted, res: Err(error) },
            }
        },
    }
}

/// The virtual register that holds `val`, read as a scalar of type `ty`.
///
/// A value that stands in a register is that register. An immediate is
/// copied into a register of type `ty` that is handed out for it. Nothing
/// else can be held in a register.
pub open spec fn spec_vreg_for_val(env: Env, regs: RegState, ty: Type, val: ValueId) -> Step<VReg> {
    let scalar = spec_operand_for_val(env, regs, ty, val);
    match scalar.res {
        Ok(OperandDataView::VReg(v)) => Step::done(scalar.regs, v),
        Ok(OperandDataView::Int32(i)) => Step {
            regs: scalar.regs.with_vreg(ty),
            emitted: seq![
                spec_move(
                    Opcode::MOVri,
                    OperandDataView::VReg(scalar.regs.fresh()),
                    OperandDataView::Int32(i),
                    env.block(),
                ),
            ],
            res: Ok(scalar.regs.fresh()),
        },
        Ok(_) => Step::fail(scalar.regs, LoweringErrorView::UnsupportedValue(val)),
        Err(error) => Step::fail(scalar.regs, error),
    }
}

/// Whether each virtual register among `operands` has been handed out.
pub open spec fn spec_operands_known(regs: RegState, operands: Seq<OperandDataView>) -> bool {
    forall|k: int|
        0 <= k < operands.len() && (#[trigger] operands[k]) is VReg ==> regs.has_vreg(
            operands[k]->VReg_0,
        )
}

/// The limbs of a value are immediates, labels, or virtual registers that
/// have been handed out.
pub proof fn lemma_operands_are_known(env: Env, regs: RegState, ty: Type, val: ValueId)
    requires
        regs.wf(env),
        spec_operands_for_val(env, regs, ty, val).regs.vregs.len() <= usize::MAX,
    ensures
        spec_operands_for_val(env, regs, ty, val).res matches Ok(limbs) ==> spec_operands_known(
            spec_operands_for_val(env, regs, ty, val).regs,
            limbs,
        ),
{
    let step = spec_operands_for_val(env, regs, ty, val);
    if step.res is Ok {
        let limbs = step.res->Ok_0;
        assert forall|k: int| 0 <= k < limbs.len() && (#[trigger] limbs[k])
            is VReg implies step.regs.has_vreg(limbs[k]->VReg_0) by {
            match env.ir.value(val) {
                Some(ValueView::Instruction(id)) => {
                    assert(limbs[k]->VReg_0 == step.regs.outputs[id.0 as int][k]);
                    if regs.outputs_of(id).len() > 0 {
                        assert(regs.has_vreg(regs.outputs[id.0 as int][k]));
                    }
                },
                Some(ValueView::Constant(ConstantView::Array(elems))) => {},
                Some(ValueView::Constant(ConstantView::AggregateZero)) => {},
                _ => {},
            }
        }
    }
}

/// The instruction data of a copy of `src` into `dst`, by `opcode`.
pub fn move_data(opcode: Opcode, dst: OperandData, src: OperandData) -> (data: InstructionData)
    ensures
        data.opcode == opcode,
        data.operands.deep_view() == seq![
            crate::instruction::OperandView::output(dst@),
            crate::instruction::OperandView::input(src@),
        ],
{
    let operands = vec![Operand::output(dst), Operand::input(src)];
    assert(operands.deep_view() =~= seq![
        crate::instruction::OperandView::output(dst@),
        crate::instruction::OperandView::input(src@),
    ]);
    InstructionData { opcode, operands }
}

/// Hands out `n` registers of type `ty` and adds them, in order, to the
/// registers that hold the result of `id`.
fn add_limbs(ctx: &mut LoweringContext, ty: Type, id: InstructionId, n: usize)
    requires
        old(ctx).wf(),
        old(ctx)@.regs.has_instruction(id),
    ensures
        final(ctx).wf(),
        final(ctx)@ == (ContextView {
            regs: spec_with_limbs(old(ctx)@.regs, ty, id, n as nat),
            ..old(ctx)@
        }),
{
    let ghost start = ctx@;
    let mut i: usize = 0;
    assert(ctx@.regs =~~= spec_with_limbs(start.regs, ty, id, 0));
    while i < n
        invariant
            i <= n,
            ctx.wf(),
            start.regs.has_instruction(id),
            ctx@ == (ContextView { regs: spec_with_limbs(start.regs, ty, id, i as nat), ..start }),
        decreases n - i,
    {
        let v = ctx.new_vreg(ty);
        ctx.add_inst_output(id, v);
        i += 1;
        assert(ctx@.regs =~~= spec_with_limbs(start.regs, ty, id, i as nat));
    }
}

/// Appends `operand` to `operands`.
fn push_operand(operands: &mut Vec<OperandData>, operand: OperandData)
    ensures
        final(operands).deep_view() == old(operands).deep_view().push(operand@),
{
    operands.push(operand);
    assert(operands.deep_view() =~= old(operands).deep_view().push(operand@));
}

/// The registers `regs` as operands, in order.
fn vreg_operands(regs: &Vec<VReg>) -> (operands: Vec<OperandData>)
    ensures
        operands.deep_view() == spec_vreg_operands(regs@),
{
    let mut operands: Vec<OperandData> = Vec::new();
    let mut k: usize = 0;
    while k < regs.len()
        invariant
            k <= regs.len(),
            operands.deep_view() =~= spec_vreg_operands(regs@.take(k as int)),
        decreases regs.len() - k,
    {
        push_operand(&mut operands, OperandData::VReg(regs[k]));
        k += 1;
    }
    assert(regs@.take(k as int) =~= regs@);
    operands
}

/// The registers of the result of `id` where it is read as a scalar of type
/// `ty`: those it has, or else one that is handed out for it.
pub fn new_empty_inst_output(ctx: &mut LoweringContext, ty: Type, id: InstructionId) -> (outputs:
    Vec<VReg>)
    requires
        old(ctx).wf(),
        old(ctx)@.regs.has_instruction(id),
    ensures
        final(ctx).wf(),
        final(ctx)@ == (ContextView {
            regs: spec_new_empty_inst_output(old(ctx)@.regs, ty, id).0,
            ..old(ctx)@
        }),
        outputs@ == spec_new_empty_inst_output(old(ctx)@.regs, ty, id).1,
        outputs@.len() > 0,
{
    let recorded = ctx.inst_outputs(id);
    if recorded.len() > 0 {
        return recorded;
    }
    add_limbs(ctx, ty, id, 1);
    let outputs = ctx.inst_outputs(id);
    assert(outputs@ =~= seq![old(ctx)@.regs.fresh()]);
    outputs
}

/// Hands out one more register of type `ty` for the result of `id`, behind
/// those it has, and yields the registers of the result.
pub fn new_empty_str_inst_output(ctx: &mut LoweringContext, ty: Type, id: InstructionId) -> (outputs:
    Vec<VReg>)
    requires
        old(ctx).wf(),
        old(ctx)@.regs.has_instruction(id),
    ensures
        final(ctx).wf(),
        final(ctx)@ == (ContextView {
            regs: spec_new_empty_str_inst_output(old(ctx)@.regs, ty, id).0,
            ..old(ctx)@
        }),
        outputs@ == spec_new_empty_str_inst_output(old(ctx)@.regs, ty, id).1,
{
    add_limbs(ctx, ty, id, 1);
    let outputs = ctx.inst_outputs(id);
    assert(outputs@ =~= old(ctx)@.regs.outputs_of(id).push(old(ctx)@.regs.fresh()));
    outputs
}

/// The value that `val` names, if it names one.
pub(crate) fn value_of(ctx: &LoweringContext, val: ValueId) -> (value: Option<Value>)
    ensures
        match value {
            Some(v) => ctx@.env.ir.value(val) == Some(v@),
            None => ctx@.env.ir.value(val).is_none(),
        },
{
    match ctx.ir().value(val) {
        Some(value) => Some(value.clone()),
        None => None,
    }
}

/// The operand that stands for `val` where it is read as a scalar of type
/// `ty`.
pub fn get_operand_for_val(ctx: &mut LoweringContext, ty: Type, val: ValueId) -> (res: Result<
    OperandData,
    LoweringError,
>)
    requires
        old(ctx).wf(),
    ensures
        final(ctx).wf(),
        final(ctx)@ == old(ctx)@.advance(
            spec_operand_for_val(old(ctx)@.env, old(ctx)@.regs, ty, val),
        ),
        operand_result_view(res) == spec_operand_for_val(old(ctx)@.env, old(ctx)@.regs, ty, val).res,
        res matches Ok(OperandData::VReg(v)) ==> final(ctx)@.regs.has_vreg(v),
{
    let ghost step = spec_operand_for_val(ctx@.env, ctx@.regs, ty, val);
    let res = match value_of(ctx, val) {
        Some(Value::Instruction(id)) => {
            if ctx.has_instruction(id) {
                let outputs = new_empty_inst_output(ctx, ty, id);
                assert(ctx@.regs.outputs_of(id)[0] == outputs@[0]);
                assert(ctx@.regs.has_vreg(ctx@.regs.outputs[id.0 as int][0]));
                Ok(OperandData::VReg(outputs[0]))
            } else {
                Err(LoweringError::UnsupportedValue(val))
            }
        },
        Some(Value::Constant(ConstantValue::Int32(i))) => Ok(OperandData::Int32(i)),
        Some(Value::Constant(ConstantValue::GlobalRef(Name::Name(name)))) => Ok(
            OperandData::Label(name),
        ),
        _ => Err(LoweringError::UnsupportedValue(val)),
    };
    assert(ctx@ =~= old(ctx)@.advance(step));
    res
}

/// Copies each element of a constant array, in order, into a register of type
/// `ty` that is handed out for it, and yields these registers as operands.
fn stage_array(ctx: &mut LoweringContext, ty: Type, elems: &Vec<i32>) -> (limbs: Vec<OperandData>)
    requires
        old(ctx).wf(),
    ensures
        final(ctx).wf(),
        final(ctx)@ == old(ctx)@.advance(
            spec_stage_array(old(ctx)@.env, old(ctx)@.regs, ty, elems@),
        ),
        Ok::<Seq<OperandDataView>, LoweringErrorView>(limbs.deep_view()) == spec_stage_array(
            old(ctx)@.env,
            old(ctx)@.regs,
            ty,
            elems@,
        ).res,
{
    let ghost start = ctx@;
    let ghost whole = spec_stage_array(start.env, start.regs, ty, elems@);
    let mut limbs: Vec<OperandData> = Vec::new();
    let mut k: usize = 0;
    assert(ctx@.regs =~= spec_with_vregs(start.regs, ty, 0));
    assert(ctx@.insts =~= start.insts + whole.emitted.take(0));
    while k < elems.len()
        invariant
            k <= elems.len(),
            ctx.wf(),
            whole == spec_stage_array(start.env, start.regs, ty, elems@),
            ctx@.env == start.env,
            ctx@.regs == spec_with_vregs(start.regs, ty, k as nat),
            ctx@.insts == start.insts + whole.emitted.take(k as int),
            limbs.deep_view() == spec_vreg_operands(spec_fresh_vregs(start.regs, elems@.len())).take(
                k as int,
            ),
        decreases elems.len() - k,
    {
        let v = ctx.new_vreg(ty);
        ctx.emit(move_data(Opcode::MOVri, OperandData::VReg(v), OperandData::Int32(elems[k])));
        push_operand(&mut limbs, OperandData::VReg(v));
        k += 1;
        proof {
            assert(v == spec_fresh_vregs(start.regs, elems@.len())[k - 1]);
            assert(ctx@.regs =~= spec_with_vregs(start.regs, ty, k as nat));
            assert(ctx@.insts =~= start.insts + whole.emitted.take(k as int));
            assert(limbs.deep_view() =~= spec_vreg_operands(
                spec_fresh_vregs(start.regs, elems@.len()),
            ).take(k as int));
        }
    }
    proof {
        assert(whole.emitted.take(k as int) =~= whole.emitted);
        assert(limbs.deep_view() =~= spec_vreg_operands(
            spec_fresh_vregs(start.regs, elems@.len()),
        ));
        assert(ctx@ =~= start.advance(whole));
    }
    limbs
}

/// `n` zero immediates.
fn zero_limbs(n: usize) -> (limbs: Vec<OperandData>)
    ensures
        limbs.deep_view() == Seq::new(n as nat, |k: int| OperandDataView::Int32(0)),
{
    let mut limbs: Vec<OperandData> = Vec::new();
    let mut k: usize = 0;
    while k < n
        invariant
            k <= n,
            limbs.deep_view() =~= Seq::new(k as nat, |j: int| OperandDataView::Int32(0)),
        decreases n - k,
    {
        push_operand(&mut limbs, OperandData::Int32(0));
        k += 1;
    }
    limbs
}

/// The operands that stand for `val` where it is read as a compound of type
/// `ty`, one per limb, in limb order.
pub fn get_operands_for_val(ctx: &mut LoweringContext, ty: Type, val: ValueId) -> (res: Result<
    Vec<OperandData>,
    LoweringError,
>)
    requires
        old(ctx).wf(),
    ensures
        final(ctx).wf(),
        final(ctx)@ == old(ctx)@.advance(
            spec_operands_for_val(old(ctx)@.env, old(ctx)@.regs, ty, val),
        ),
        operands_result_view(res) == spec_operands_for_val(
            old(ctx)@.env,
            old(ctx)@.regs,
            ty,
            val,
        ).res,
        res matches Ok(limbs) ==> spec_operands_known(final(ctx)@.regs, limbs.deep_view()),
{
    let ghost step = spec_operands_for_val(ctx@.env, ctx@.regs, ty, val);
    let res = operands_for_val(ctx, ty, val);
    proof {
        lemma_operands_are_known(old(ctx)@.env, old(ctx)@.regs, ty, val);
    }
    res
}

/// Reads `val` as a compound of type `ty`.
fn operands_for_val(ctx: &mut LoweringContext, ty: Type, val: ValueId) -> (res: Result<
    Vec<OperandData>,
    LoweringError,
>)
    requires
        old(ctx).wf(),
    ensures
        final(ctx).wf(),
        final(ctx)@ == old(ctx)@.advance(
            spec_operands_for_val(old(ctx)@.env, old(ctx)@.regs, ty, val),
        ),
        operands_result_view(res) == spec_operands_for_val(
            old(ctx)@.env,
            old(ctx)@.regs,
            ty,
            val,
        ).res,
{
    let ghost step = spec_operands_for_val(ctx@.env, ctx@.regs, ty, val);
    match value_of(ctx, val) {
        Some(Value::Instruction(id)) => {
            if !ctx.has_instruction(id) {
                assert(ctx@ =~= old(ctx)@.advance(step));
                return Err(LoweringError::UnsupportedValue(val));
            }
            if ctx.inst_outputs(id).len() == 0 {
                let n: usize = ctx.types().limb_count(ty);
                let limb_ty = ctx.types().limb_type(ty);
                add_limbs(ctx, limb_ty, id, n);
            }
            let limbs = vreg_operands(&ctx.inst_outputs(id));
            assert(ctx@ =~= old(ctx)@.advance(step));
            Ok(limbs)
        },
        Some(Value::Constant(ConstantValue::Array(elems))) => {
            let limb_ty = ctx.types().limb_type(ty);
            let limbs = stage_array(ctx, limb_ty, &elems);
            Ok(limbs)
        },
        Some(Value::Constant(ConstantValue::AggregateZero)) => {
            let n: usize = ctx.types().limb_count(ty);
            let limbs = zero_limbs(n);
            assert(ctx@ =~= old(ctx)@.advance(step));
            Ok(limbs)
        },
        _ => {
            match get_operand_for_val(ctx, ty, val) {
                Ok(operand) => {
                    let limbs = vec![operand];
                    assert(limbs.deep_view() =~= seq![operand@]);
                    Ok(limbs)
                },
                Err(error) => Err(error),
            }
        },
    }
}

/// The virtual register that holds `val`, read as a scalar of type `ty`.
pub fn get_vreg_for_val(ctx: &mut LoweringContext, ty: Type, val: ValueId) -> (res: Result<
    VReg,
    LoweringError,
>)
    requires
        old(ctx).wf(),
    ensures
        final(ctx).wf(),
        final(ctx)@ == old(ctx)@.advance(spec_vreg_for_val(old(ctx)@.env, old(ctx)@.regs, ty, val)),
        plain_result_view(res) == spec_vreg_for_val(old(ctx)@.env, old(ctx)@.regs, ty, val).res,
        res matches Ok(v) ==> final(ctx)@.regs.has_vreg(v),
{
    let ghost step = spec_vreg_for_val(ctx@.env, ctx@.regs, ty, val);
    match get_operand_for_val(ctx, ty, val) {
        Ok(OperandData::VReg(v)) => {
            assert(ctx@ =~= old(ctx)@.advance(step));
            Ok(v)
        },
        Ok(OperandData::Int32(i)) => {
            let v = ctx.new_vreg(ty);
            ctx.emit(move_data(Opcode::MOVri, OperandData::VReg(v), OperandData::Int32(i)));
            assert(ctx@ =~= old(ctx)@.advance(step));
            Ok(v)
        },
        Ok(_) => {
            assert(ctx@ =~= old(ctx)@.advance(step));
            Err(LoweringError::UnsupportedValue(val))
        },
        Err(error) => {
            assert(ctx@ =~= old(ctx)@.advance(step));
            Err(error)
        },
    }
}

} // verus!
