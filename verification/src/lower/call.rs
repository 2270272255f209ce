//! Lowering of calls and returns, and the binding of arguments to the
//! registers of the calling convention.

use crate::callee::{classify, spec_classify, CalleeKind};
use crate::context::{ContextView, Env, LoweringContext, RegState, Step};
use crate::error::{LoweringError, LoweringErrorView};
use crate::instruction::{
    spec_move, InstructionData, InstructionView, Opcode, Operand, OperandData, OperandDataView,
    OperandView,
};
use crate::ir::{
    ConstantValue, ConstantView, InstructionId, Name, NameView, Value, ValueId, ValueView,
};
use crate::laws::{lemma_operands_for_val_extends, lemma_unused_results_are_not_copied};
use crate::materialize::{
    get_operand_for_val, get_operands_for_val, get_vreg_for_val, move_data,
    new_empty_inst_output, new_empty_str_inst_output, operands_result_view, plain_result_view,
    spec_new_empty_inst_output, spec_operand_for_val, spec_operands_for_val,
    spec_operands_known, spec_vreg_for_val, spec_with_limbs, value_of,
};
use crate::register::{
    return_reg, spec_return_reg, spec_wide_result_regs, wide_result_reg, VReg, WIDE_RESULT_LIMBS,
};
use crate::types::{
    spec_is_integer, spec_is_pointer, spec_limb_type, spec_return_type, spec_size_of, Type,
};
use vstd::prelude::*;
use vstd::slice::slice_subrange;

verus! {

/// The opcode of the move that copies the argument `arg`, which stands for
/// the value `val`, into its register: an immediate takes the move of an
/// immediate, a register the move of a register. A virtual register must hold
/// a word, four or eight bytes; a label cannot be an argument.
pub open spec fn spec_arg_move_opcode(
    env: Env,
    regs: RegState,
    arg: OperandDataView,
    val: ValueId,
) -> Result<Opcode, LoweringErrorView> {
    match arg {
        OperandDataView::Int32(_) => Ok(Opcode::MOVri),
        OperandDataView::Reg(_) => Ok(Opcode::MOVrr),
        OperandDataView::VReg(v) => {
            let size = spec_size_of(env.types, regs.vregs[v.0 as int]);
            if size == 4 || size == 8 {
                Ok(Opcode::MOVrr)
            } else {
                Err(LoweringErrorView::UnsupportedArgumentSize(size as u64))
            }
        },
        OperandDataView::Label(_) => Err(LoweringErrorView::UnsupportedArgument(val)),
    }
}

/// The opcode of the move that copies `limb`, which stands at position `at`
/// among the limbs of the storage arguments, into its register. The rule is
/// that of the arguments of an ordinary call; only a label fails in its own
/// way.
pub open spec fn spec_limb_move_opcode(
    env: Env,
    regs: RegState,
    limb: OperandDataView,
    at: int,
) -> Result<Opcode, LoweringErrorView> {
    match limb {
        OperandDataView::Int32(_) => Ok(Opcode::MOVri),
        OperandDataView::Reg(_) => Ok(Opcode::MOVrr),
        OperandDataView::VReg(v) => {
            let size = spec_size_of(env.types, regs.vregs[v.0 as int]);
            if size == 4 || size == 8 {
                Ok(Opcode::MOVrr)
            } else {
                Err(LoweringErrorView::UnsupportedArgumentSize(size as u64))
            }
        },
        OperandDataView::Label(_) => Err(LoweringErrorView::UnsupportedStorageArgument(at as usize)),
    }
}

/// The failure of a binding that needs `needed` registers where the calling
/// convention has `available`.
pub open spec fn spec_slots_exhausted(needed: nat, available: nat) -> LoweringErrorView {
    LoweringErrorView::ArgumentSlotsExhausted {
        needed: needed as usize,
        available: available as usize,
    }
}

/// The binding of the arguments from position `i` on, one after the other:
/// the argument is read as a scalar of its type, the register of the calling
/// convention at its position is taken, and the argument is copied into it.
/// The first argument that cannot be read, has no register or cannot be
/// copied ends the binding with its error.
pub open spec fn spec_bind_args_from(
    env: Env,
    regs: RegState,
    tys: Seq<Type>,
    args: Seq<ValueId>,
    i: int,
) -> Step<()>
    decreases args.len() - i,
{
    if i < 0 || i >= args.len() {
        Step::done(regs, ())
    } else {
        let read = spec_operand_for_val(env, regs, tys[i], args[i]);
        match read.res {
            Err(error) => Step::fail(read.regs, error),
            Ok(arg) => if i >= env.call_conv.arg_regs.len() {
                Step::fail(
                    read.regs,
                    spec_slots_exhausted(args.len(), env.call_conv.arg_regs.len()),
                )
            } else {
                match spec_arg_move_opcode(env, read.regs, arg, args[i]) {
                    Err(error) => Step::fail(read.regs, error),
                    Ok(opcode) => spec_bind_args_from(env, read.regs, tys, args, i + 1).after(
                        seq![
                            spec_move(
                                opcode,
                                OperandDataView::Reg(env.call_conv.arg_regs[i]),
                                arg,
                                env.block(),
                            ),
                        ],
                    ),
                }
            },
        }
    }
}

/// The binding of the arguments `args`, of the types `tys`, of an ordinary
/// call: the binding from the first argument on.
pub open spec fn spec_pass_args_to_regs(
    env: Env,
    regs: RegState,
    tys: Seq<Type>,
    args: Seq<ValueId>,
) -> Step<()> {
    spec_bind_args_from(env, regs, tys, args, 0)
}

/// The limbs of the arguments of a storage or hash call: those of the first
/// argument and, where there is a second, those of the second behind them.
/// Each is read as a compound of its own type.
pub open spec fn spec_storage_limbs(
    env: Env,
    regs: RegState,
    tys: Seq<Type>,
    args: Seq<ValueId>,
) -> Step<Seq<OperandDataView>> {
    let first = spec_operands_for_val(env, regs, tys[0], args[0]);
    match first.res {
        Err(_) => first,
        Ok(head) => if args.len() > 1 {
            let second = spec_operands_for_val(env, first.regs, tys[1], args[1]);
            match second.res {
                Err(_) => second.after(first.emitted),
                Ok(tail) => Step {
                    regs: second.regs,
                    emitted: first.emitted + second.emitted,
                    res: Ok(head + tail),
                },
            }
        } else {
            first
        },
    }
}

/// The binding of the limbs from position `i` on, one after the other: the
/// storage argument register at the position of the limb is taken, and the
/// limb is copied into it. The first limb that has no register or cannot be
/// copied ends the binding with its error.
pub open spec fn spec_bind_limbs_from(env: Env, regs: RegState, limbs: Seq<OperandDataView>, i: int) -> Step<
    (),
>
    decreases limbs.len() - i,
{
    if i < 0 || i >= limbs.len() {
        Step::done(regs, ())
    } else if i >= env.call_conv.str_arg_regs.len() {
        Step::fail(regs, spec_slots_exhausted(limbs.len(), env.call_conv.str_arg_regs.len()))
    } else {
        match spec_limb_move_opcode(env, regs, limbs[i], i) {
            Err(error) => Step::fail(regs, error),
            Ok(opcode) => spec_bind_limbs_from(env, regs, limbs, i + 1).after(
                seq![
                    spec_move(
                        opcode,
                        OperandDataView::Reg(env.call_conv.str_arg_regs[i]),
                        limbs[i],
                        env.block(),
                    ),
                ],
            ),
        }
    }
}

/// The binding of the arguments `args` of a storage or hash call: their limbs
/// are gathered and then copied, in order, into the storage argument
/// registers.
pub open spec fn spec_pass_str_args_to_regs(
    env: Env,
    regs: RegState,
    tys: Seq<Type>,
    args: Seq<ValueId>,
) -> Step<()> {
    let gathered = spec_storage_limbs(env, regs, tys, args);
    match gathered.res {
        Err(error) => Step { regs: gathered.regs, emitted: gathered.emitted, res: Err(error) },
        Ok(limbs) => spec_bind_limbs_from(env, gathered.regs, limbs, 0).after(gathered.emitted),
    }
}

/// The opcode of the move that copies `arg` into an argument register.
fn arg_move_opcode(ctx: &LoweringContext, arg: &OperandData, val: ValueId) -> (res: Result<
    Opcode,
    LoweringError,
>)
    requires
        ctx.wf(),
        arg@ matches OperandDataView::VReg(v) ==> ctx@.regs.has_vreg(v),
    ensures
        plain_result_view(res) == spec_arg_move_opcode(ctx@.env, ctx@.regs, arg@, val),
{
    match arg {
        OperandData::Int32(_) => Ok(Opcode::MOVri),
        OperandData::Reg(_) => Ok(Opcode::MOVrr),
        OperandData::VReg(v) => {
            let size: u64 = ctx.types().size_of(ctx.vreg_type(*v));
            if size == 4 || size == 8 {
                Ok(Opcode::MOVrr)
            } else {
                Err(LoweringError::UnsupportedArgumentSize(size))
            }
        },
        OperandData::Label(_) => Err(LoweringError::UnsupportedArgument(val)),
    }
}

/// The opcode of the move that copies `limb` into a storage argument
/// register.
fn limb_move_opcode(ctx: &LoweringContext, limb: &OperandData, at: usize) -> (res: Result<
    Opcode,
    LoweringError,
>)
    requires
        ctx.wf(),
        limb@ matches OperandDataView::VReg(v) ==> ctx@.regs.has_vreg(v),
    ensures
        plain_result_view(res) == spec_limb_move_opcode(ctx@.env, ctx@.regs, limb@, at as int),
{
    match limb {
        OperandData::Int32(_) => Ok(Opcode::MOVri),
        OperandData::Reg(_) => Ok(Opcode::MOVrr),
        OperandData::VReg(v) => {
            let size: u64 = ctx.types().size_of(ctx.vreg_type(*v));
            if size == 4 || size == 8 {
                Ok(Opcode::MOVrr)
            } else {
                Err(LoweringError::UnsupportedArgumentSize(size))
            }
        },
        OperandData::Label(_) => Err(LoweringError::UnsupportedStorageArgument(at)),
    }
}

/// Binds the arguments `args`, of the types `tys`, of an ordinary call, one
/// after the other: each is read, and copied into the register that the
/// calling convention gives to its position.
///
/// Fails at the first argument that cannot be read, has no register or
/// cannot be copied; the arguments before it are bound by then. With more
/// arguments than registers for them it never succeeds.
pub fn pass_args_to_regs(ctx: &mut LoweringContext, tys: &[Type], args: &[ValueId]) -> (res: Result<
    (),
    LoweringError,
>)
    requires
        old(ctx).wf(),
        tys@.len() == args@.len(),
    ensures
        final(ctx).wf(),
        final(ctx)@ == old(ctx)@.advance(
            spec_pass_args_to_regs(old(ctx)@.env, old(ctx)@.regs, tys@, args@),
        ),
        plain_result_view(res) == spec_pass_args_to_regs(
            old(ctx)@.env,
            old(ctx)@.regs,
            tys@,
            args@,
        ).res,
        args@.len() > old(ctx)@.env.call_conv.arg_regs.len() ==> res.is_err(),
{
    let ghost start = ctx@;
    let ghost whole = spec_pass_args_to_regs(start.env, start.regs, tys@, args@);
    let available: usize = ctx.call_conv().arg_reg_list().len();
    let mut i: usize = 0;
    assert(ctx@.insts + whole.emitted =~= start.insts + whole.emitted);
    while i < args.len()
        invariant
            i <= args@.len(),
            i <= available,
            available == start.env.call_conv.arg_regs.len(),
            tys@.len() == args@.len(),
            ctx.wf(),
            ctx@.env == start.env,
            start == old(ctx)@,
            whole == spec_pass_args_to_regs(start.env, start.regs, tys@, args@),
            ({
                let rest = spec_bind_args_from(start.env, ctx@.regs, tys@, args@, i as int);
                &&& rest.regs == whole.regs
                &&& rest.res == whole.res
                &&& ctx@.insts + rest.emitted == start.insts + whole.emitted
            }),
        decreases args@.len() - i,
    {
        let ghost before = ctx@;
        let ghost rest = spec_bind_args_from(start.env, before.regs, tys@, args@, i as int);
        let arg = match get_operand_for_val(ctx, tys[i], args[i]) {
            Ok(arg) => arg,
            Err(error) => {
                assert(ctx@ =~= start.advance(whole));
                return Err(error);
            },
        };
        if i >= available {
            assert(ctx@ =~= start.advance(whole));
            return Err(LoweringError::ArgumentSlotsExhausted { needed: args.len(), available });
        }
        let opcode = match arg_move_opcode(ctx, &arg, args[i]) {
            Ok(opcode) => opcode,
            Err(error) => {
                assert(ctx@ =~= start.advance(whole));
                return Err(error);
            },
        };
        let dst = ctx.call_conv().arg_reg_list()[i];
        ctx.emit(move_data(opcode, OperandData::Reg(dst), arg));
        i += 1;
        proof {
            let next = spec_bind_args_from(start.env, ctx@.regs, tys@, args@, i as int);
            assert(ctx@.insts + next.emitted =~= before.insts + rest.emitted);
        }
    }
    assert(ctx@ =~= start.advance(whole));
    Ok(())
}

/// Gathers the limbs of the arguments of a storage or hash call.
fn storage_limbs(ctx: &mut LoweringContext, tys: &[Type], args: &[ValueId]) -> (res: Result<
    Vec<OperandData>,
    LoweringError,
>)
    requires
        old(ctx).wf(),
        tys@.len() >= 1,
        args@.len() >= 1,
        args@.len() > 1 ==> tys@.len() > 1,
    ensures
        final(ctx).wf(),
        final(ctx)@ == old(ctx)@.advance(
            spec_storage_limbs(old(ctx)@.env, old(ctx)@.regs, tys@, args@),
        ),
        operands_result_view(res) == spec_storage_limbs(
            old(ctx)@.env,
            old(ctx)@.regs,
            tys@,
            args@,
        ).res,
        res matches Ok(limbs) ==> spec_operands_known(final(ctx)@.regs, limbs.deep_view()),
{
    let ghost start = ctx@;
    let ghost whole = spec_storage_limbs(start.env, start.regs, tys@, args@);
    let mut limbs = match get_operands_for_val(ctx, tys[0], args[0]) {
        Ok(limbs) => limbs,
        Err(error) => {
            return Err(error);
        },
    };
    if args.len() > 1 {
        let ghost head = limbs.deep_view();
        let ghost first = ctx@;
        let mut tail = match get_operands_for_val(ctx, tys[1], args[1]) {
            Ok(tail) => tail,
            Err(error) => {
                assert(ctx@ =~= start.advance(whole));
                return Err(error);
            },
        };
        let ghost tail_view = tail.deep_view();
        limbs.append(&mut tail);
        proof {
            assert(limbs.deep_view() =~= head + tail_view);
            assert(ctx@ =~= start.advance(whole));
            lemma_operands_for_val_extends(first.env, first.regs, tys@[1], args@[1]);
            assert(spec_operands_known(ctx@.regs, head + tail_view)) by {
                assert forall|k: int|
                    0 <= k < (head + tail_view).len() && (#[trigger] (head + tail_view)[k])
                        is VReg implies ctx@.regs.has_vreg((head + tail_view)[k]->VReg_0) by {
                    if k < head.len() {
                        assert((head + tail_view)[k] == head[k]);
                    } else {
                        assert((head + tail_view)[k] == tail_view[k - head.len()]);
                    }
                }
            }
        }
    }
    Ok(limbs)
}

/// Binds the arguments `args` of a storage or hash call: the limbs of the
/// first argument and, where there is a second, of the second, each read at
/// its own type, are copied one after the other into the storage argument
/// registers.
///
/// Fails where an argument cannot be read, and at the first limb that has no
/// register or cannot be copied; the limbs before it are bound by then.
pub fn pass_str_args_to_regs(ctx: &mut LoweringContext, tys: &[Type], args: &[ValueId]) -> (res:
    Result<(), LoweringError>)
    requires
        old(ctx).wf(),
        tys@.len() >= 1,
        args@.len() >= 1,
        args@.len() > 1 ==> tys@.len() > 1,
    ensures
        final(ctx).wf(),
        final(ctx)@ == old(ctx)@.advance(
            spec_pass_str_args_to_regs(old(ctx)@.env, old(ctx)@.regs, tys@, args@),
        ),
        plain_result_view(res) == spec_pass_str_args_to_regs(
            old(ctx)@.env,
            old(ctx)@.regs,
            tys@,
            args@,
        ).res,
{
    let ghost start = ctx@;
    let ghost whole = spec_pass_str_args_to_regs(start.env, start.regs, tys@, args@);
    let limbs = match storage_limbs(ctx, tys, args) {
        Ok(limbs) => limbs,
        Err(error) => {
            return Err(error);
        },
    };
    let ghost flat = spec_storage_limbs(start.env, start.regs, tys@, args@);
    let ghost gathered = ctx@;
    let ghost all = spec_bind_limbs_from(start.env, gathered.regs, limbs.deep_view(), 0);
    let available: usize = ctx.call_conv().str_arg_reg_list().len();
    let mut i: usize = 0;
    assert(ctx@.insts + all.emitted =~= gathered.insts + all.emitted);
    while i < limbs.len()
        invariant
            i <= limbs@.len(),
            available == start.env.call_conv.str_arg_regs.len(),
            limbs.deep_view().len() == limbs@.len(),
            spec_operands_known(gathered.regs, limbs.deep_view()),
            ctx.wf(),
            ctx@.env == start.env,
            ctx@.regs == gathered.regs,
            start == old(ctx)@,
            flat == spec_storage_limbs(start.env, start.regs, tys@, args@),
            flat.res == Ok::<Seq<OperandDataView>, LoweringErrorView>(limbs.deep_view()),
            gathered == start.advance(flat),
            whole == spec_pass_str_args_to_regs(start.env, start.regs, tys@, args@),
            all == spec_bind_limbs_from(start.env, gathered.regs, limbs.deep_view(), 0),
            ({
                let rest = spec_bind_limbs_from(
                    start.env,
                    gathered.regs,
                    limbs.deep_view(),
                    i as int,
                );
                &&& rest.regs == all.regs
                &&& rest.res == all.res
                &&& ctx@.insts + rest.emitted == gathered.insts + all.emitted
            }),
        decreases limbs@.len() - i,
    {
        let ghost before = ctx@;
        let ghost rest = spec_bind_limbs_from(
            start.env,
            gathered.regs,
            limbs.deep_view(),
            i as int,
        );
        if i >= available {
            assert(ctx@.insts =~= start.insts + (flat.emitted + all.emitted));
            assert(ctx@ =~= start.advance(whole));
            return Err(LoweringError::ArgumentSlotsExhausted { needed: limbs.len(), available });
        }
        assert(limbs.deep_view()[i as int] == limbs@[i as int]@);
        let opcode = match limb_move_opcode(ctx, &limbs[i], i) {
            Ok(opcode) => opcode,
            Err(error) => {
                assert(ctx@.insts =~= start.insts + (flat.emitted + all.emitted));
                assert(ctx@ =~= start.advance(whole));
                return Err(error);
            },
        };
        let dst = ctx.call_conv().str_arg_reg_list()[i];
        ctx.emit(move_data(opcode, OperandData::Reg(dst), limbs[i].clone()));
        i += 1;
        proof {
            let next = spec_bind_limbs_from(
                start.env,
                gathered.regs,
                limbs.deep_view(),
                i as int,
            );
            assert(ctx@.insts + next.emitted =~= before.insts + rest.emitted);
        }
    }
    assert(ctx@.insts =~= start.insts + (flat.emitted + all.emitted));
    assert(ctx@ =~= start.advance(whole));
    Ok(())
}

/// The name of the callee, where the callee is a global with a spelled-out
/// name.
pub open spec fn spec_callee_name(env: Env, callee: ValueId) -> Option<Seq<char>> {
    match env.ir.value(callee) {
        Some(ValueView::Constant(ConstantView::GlobalRef(NameView::Name(name)))) => Some(name),
        _ => None,
    }
}

/// The number of arguments that a callee of this kind reads at least.
pub open spec fn spec_min_call_args(kind: CalleeKind) -> nat {
    match kind {
        CalleeKind::BuiltinAssert => 2,
        CalleeKind::BuiltinRangeCheck => 1,
        CalleeKind::StorageWrite => 1,
        CalleeKind::StorageRead => 1,
        CalleeKind::Hash => 1,
        _ => 0,
    }
}

/// Whether a call has the shape that the IR gives it: `args` holds the
/// callee and then the arguments and, where the callee is a global with a
/// spelled-out name, `tys` holds a type for each of them and the arguments
/// that a callee of this kind reads are there.
pub open spec fn spec_call_well_formed(env: Env, tys: Seq<Type>, args: Seq<ValueId>) -> bool {
    &&& args.len() >= 1
    &&& spec_callee_name(env, args[0]) matches Some(name) ==> tys.len() == args.len()
        && args.len() > spec_min_call_args(spec_classify(name))
}

/// The operands of a storage read or a hash: the registers that take its
/// result, as implicit outputs, in limb order.
pub open spec fn spec_wide_result_operands() -> Seq<OperandView> {
    Seq::new(
        WIDE_RESULT_LIMBS as nat,
        |k: int| OperandView::implicit_output(OperandDataView::Reg(spec_wide_result_regs()[k])),
    )
}

/// The copies of the result of a storage read or a hash into the virtual
/// registers `outputs`, limb by limb.
pub open spec fn spec_wide_result_copies(env: Env, outputs: Seq<VReg>) -> Seq<InstructionView> {
    Seq::new(
        WIDE_RESULT_LIMBS as nat,
        |k: int|
            spec_move(
                Opcode::MOVrr,
                OperandDataView::VReg(outputs[k]),
                OperandDataView::Reg(spec_wide_result_regs()[k]),
                env.block(),
            ),
    )
}

/// The assertion builtin: its two arguments are read as scalars, and one
/// instruction asserts that they are equal.
pub open spec fn spec_lower_assert(env: Env, regs: RegState, tys: Seq<Type>, args: Seq<ValueId>) -> Step<
    (),
> {
    let lhs = spec_operand_for_val(env, regs, tys[1], args[1]);
    match lhs.res {
        Err(error) => Step::fail(lhs.regs, error),
        Ok(l) => {
            let rhs = spec_operand_for_val(env, lhs.regs, tys[2], args[2]);
            match rhs.res {
                Err(error) => Step::fail(rhs.regs, error),
                Ok(r) => Step {
                    regs: rhs.regs,
                    emitted: seq![
                        env.inst(Opcode::ASSERTri, seq![OperandView::input(l), OperandView::input(r)]),
                    ],
                    res: Ok(()),
                },
            }
        },
    }
}

/// The range check builtin: its argument is read as a scalar, and one
/// instruction checks it.
pub open spec fn spec_lower_range_check(
    env: Env,
    regs: RegState,
    tys: Seq<Type>,
    args: Seq<ValueId>,
) -> Step<()> {
    let arg = spec_operand_for_val(env, regs, tys[1], args[1]);
    match arg.res {
        Err(error) => Step::fail(arg.regs, error),
        Ok(a) => Step {
            regs: arg.regs,
            emitted: seq![env.inst(Opcode::RANGECHECK, seq![OperandView::input(a)])],
            res: Ok(()),
        },
    }
}

/// The storage write: the arguments are bound as storage arguments, and one
/// instruction without operands writes.
pub open spec fn spec_lower_storage_write(
    env: Env,
    regs: RegState,
    tys: Seq<Type>,
    args: Seq<ValueId>,
) -> Step<()> {
    spec_pass_str_args_to_regs(env, regs, tys.skip(1), args.skip(1)).then_emit(
        seq![env.inst(Opcode::SSTORE, Seq::empty())],
    )
}

/// The storage read and the hash, told apart by `opcode`: the arguments are
/// bound as storage arguments, and one instruction leaves the result in the
/// registers that are fixed for it. Only where some instruction uses the
/// result of `id`, four registers of the limb type of the result are handed
/// out for it, behind those it has, and the result is copied, limb by limb,
/// into the first four registers of `id`.
pub open spec fn spec_lower_storage_read(
    env: Env,
    regs: RegState,
    id: InstructionId,
    tys: Seq<Type>,
    args: Seq<ValueId>,
    opcode: Opcode,
) -> Step<()> {
    let bound = spec_pass_str_args_to_regs(env, regs, tys.skip(1), args.skip(1));
    let read = env.inst(opcode, spec_wide_result_operands());
    if bound.res.is_err() {
        bound
    } else if env.ir.has_users(id) {
        let after = spec_with_limbs(
            bound.regs,
            spec_limb_type(env.types, tys[0]),
            id,
            WIDE_RESULT_LIMBS as nat,
        );
        Step {
            regs: after,
            emitted: bound.emitted + seq![read] + spec_wide_result_copies(
                env,
                after.outputs_of(id),
            ),
            res: Ok(()),
        }
    } else {
        bound.then_emit(seq![read])
    }
}

/// The call of an ordinary function and the request to the prover, told
/// apart by `opcode`: the result of `id` gets its register, the arguments are
/// bound, and one instruction calls `name` and leaves the result in the
/// return register. Only where some instruction uses the result of `id`, it
/// is copied from there into the register of `id`.
pub open spec fn spec_lower_plain_call(
    env: Env,
    regs: RegState,
    id: InstructionId,
    tys: Seq<Type>,
    args: Seq<ValueId>,
    name: Seq<char>,
    opcode: Opcode,
) -> Step<()> {
    let (named, outputs) = spec_new_empty_inst_output(
        regs,
        spec_return_type(env.types, tys[0]),
        id,
    );
    let bound = spec_pass_args_to_regs(env, named, tys.skip(1), args.skip(1));
    let call = env.inst(
        opcode,
        seq![
            OperandView::implicit_output(OperandDataView::Reg(spec_return_reg())),
            OperandView::plain(OperandDataView::Label(name)),
        ],
    );
    let copy = spec_move(
        Opcode::MOVrr,
        OperandDataView::VReg(outputs[0]),
        OperandDataView::Reg(spec_return_reg()),
        env.block(),
    );
    if env.ir.has_users(id) {
        bound.then_emit(seq![call, copy])
    } else {
        bound.then_emit(seq![call])
    }
}

/// The lowering of the call `id`, whose callee is `args[0]` and whose
/// arguments follow it; `tys` holds the type of each.
///
/// The callee must be a global with a spelled-out name, and the name decides
/// what is emitted.
pub open spec fn spec_lower_call(
    env: Env,
    regs: RegState,
    id: InstructionId,
    tys: Seq<Type>,
    args: Seq<ValueId>,
) -> Step<()> {
    match spec_callee_name(env, args[0]) {
        None => Step::fail(regs, LoweringErrorView::UnsupportedCallee(args[0])),
        Some(name) => match spec_classify(name) {
            CalleeKind::BuiltinAssert => spec_lower_assert(env, regs, tys, args),
            CalleeKind::BuiltinRangeCheck => spec_lower_range_check(env, regs, tys, args),
            CalleeKind::UnknownBuiltin => Step::fail(
                regs,
                LoweringErrorView::UnrecognizedBuiltin(name),
            ),
            CalleeKind::StorageWrite => spec_lower_storage_write(env, regs, tys, args),
            CalleeKind::StorageRead => spec_lower_storage_read(
                env,
                regs,
                id,
                tys,
                args,
                Opcode::SLOAD,
            ),
            CalleeKind::Hash => spec_lower_storage_read(env, regs, id, tys, args, Opcode::POSEIDON),
            CalleeKind::Prophet => spec_lower_plain_call(
                env,
                regs,
                id,
                tys,
                args,
                name,
                Opcode::PROPHET,
            ),
            CalleeKind::Plain => spec_lower_plain_call(
                env,
                regs,
                id,
                tys,
                args,
                name,
                Opcode::CALL,
            ),
        },
    }
}

/// Whether `insts` end as the call `id` of a callee of kind `kind` leaves
/// them where it succeeds, with the registers `after`.
///
/// After a storage read or a hash, the instruction that reads or hashes
/// comes last where no instruction uses the result of `id`; where one does,
/// the copies of the four limbs follow it, each out of the register that is
/// fixed for the limb into the register of `id` for the limb, and nothing
/// else. After a call of an ordinary function or a request to the prover,
/// the call comes last where no instruction uses the result; where one does,
/// the copy of the return register into the first register of `id` follows
/// it, and nothing else.
pub open spec fn spec_ends_with_result(
    env: Env,
    after: RegState,
    id: InstructionId,
    kind: CalleeKind,
    insts: Seq<InstructionView>,
) -> bool {
    let n = insts.len() as int;
    match kind {
        CalleeKind::StorageRead | CalleeKind::Hash => {
            let read = env.inst(
                if kind == CalleeKind::StorageRead {
                    Opcode::SLOAD
                } else {
                    Opcode::POSEIDON
                },
                spec_wide_result_operands(),
            );
            if env.ir.has_users(id) {
                &&& n >= 1 + WIDE_RESULT_LIMBS
                &&& insts[n - 1 - WIDE_RESULT_LIMBS] == read
                &&& forall|j: int|
                    n - WIDE_RESULT_LIMBS <= j < n ==> #[trigger] insts[j] == spec_move(
                        Opcode::MOVrr,
                        OperandDataView::VReg(after.outputs_of(id)[j - (n - WIDE_RESULT_LIMBS)]),
                        OperandDataView::Reg(spec_wide_result_regs()[j - (n - WIDE_RESULT_LIMBS)]),
                        env.block(),
                    )
            } else {
                n >= 1 && insts[n - 1] == read
            }
        },
        CalleeKind::Prophet | CalleeKind::Plain => {
            let opcode = if kind == CalleeKind::Prophet {
                Opcode::PROPHET
            } else {
                Opcode::CALL
            };
            if env.ir.has_users(id) {
                &&& n >= 2
                &&& insts[n - 2].opcode == opcode
                &&& insts[n - 1] == spec_move(
                    Opcode::MOVrr,
                    OperandDataView::VReg(after.outputs_of(id)[0]),
                    OperandDataView::Reg(spec_return_reg()),
                    env.block(),
                )
            } else {
                n >= 1 && insts[n - 1].opcode == opcode
            }
        },
        _ => true,
    }
}

/// The lowering of a return, with the type and the value that is returned
/// where there is one.
///
/// A returned value is brought into a virtual register. It must be an integer
/// or a pointer, and a word, four or eight bytes; it is copied into the
/// return register. The instruction that returns comes last, also where
/// nothing is returned.
pub open spec fn spec_lower_return(env: Env, regs: RegState, arg: Option<(Type, ValueId)>) -> Step<
    (),
> {
    let ret = env.inst(Opcode::RET, Seq::empty());
    match arg {
        None => Step { regs, emitted: seq![ret], res: Ok(()) },
        Some((ty, value)) => {
            let held = spec_vreg_for_val(env, regs, ty, value);
            let size = spec_size_of(env.types, ty);
            match held.res {
                Err(error) => Step { regs: held.regs, emitted: held.emitted, res: Err(error) },
                Ok(v) => if !(spec_is_integer(env.types, ty) || spec_is_pointer(env.types, ty)) {
                    Step {
                        regs: held.regs,
                        emitted: held.emitted,
                        res: Err(LoweringErrorView::UnsupportedReturnType(ty)),
                    }
                } else if size == 4 || size == 8 {
                    Step {
                        regs: held.regs,
                        emitted: held.emitted + seq![
                            spec_move(
                                Opcode::MOVrr,
                                OperandDataView::Reg(spec_return_reg()),
                                OperandDataView::VReg(v),
                                env.block(),
                            ),
                            ret,
                        ],
                        res: Ok(()),
                    }
                } else {
                    Step {
                        regs: held.regs,
                        emitted: held.emitted,
                        res: Err(LoweringErrorView::UnsupportedReturnWidth(size as u64)),
                    }
                },
            }
        },
    }
}

/// The name of the callee, where the callee is a global with a spelled-out
/// name.
pub fn callee_name(ctx: &LoweringContext, callee: ValueId) -> (name: Option<String>)
    ensures
        match name {
            Some(name) => spec_callee_name(ctx@.env, callee) == Some(name@),
            None => spec_callee_name(ctx@.env, callee).is_none(),
        },
{
    match value_of(ctx, callee) {
        Some(Value::Constant(ConstantValue::GlobalRef(Name::Name(name)))) => Some(name),
        _ => None,
    }
}

/// The number of arguments that a callee of this kind reads at least.
fn min_call_args(kind: CalleeKind) -> (n: usize)
    ensures
        n == spec_min_call_args(kind),
{
    match kind {
        CalleeKind::BuiltinAssert => 2,
        CalleeKind::BuiltinRangeCheck => 1,
        CalleeKind::StorageWrite => 1,
        CalleeKind::StorageRead => 1,
        CalleeKind::Hash => 1,
        _ => 0,
    }
}

/// Whether a call has the shape that [`lower_call`] asks for.
pub fn call_well_formed(ctx: &LoweringContext, tys: &[Type], args: &[ValueId]) -> (ok: bool)
    ensures
        ok == spec_call_well_formed(ctx@.env, tys@, args@),
{
    if args.len() < 1 {
        return false;
    }
    match callee_name(ctx, args[0]) {
        Some(name) => tys.len() == args.len() && args.len() > min_call_args(
            classify(name.as_str()),
        ),
        None => true,
    }
}

/// Appends the instruction `opcode operands` to the current block.
fn emit_inst(ctx: &mut LoweringContext, opcode: Opcode, operands: Vec<Operand>)
    requires
        old(ctx).wf(),
    ensures
        final(ctx).wf(),
        final(ctx)@ == (ContextView {
            insts: old(ctx)@.insts.push(old(ctx)@.env.inst(opcode, operands.deep_view())),
            ..old(ctx)@
        }),
{
    ctx.emit(InstructionData { opcode, operands });
}

/// Lowers a call of the assertion builtin.
fn lower_assert(ctx: &mut LoweringContext, tys: &[Type], args: &[ValueId]) -> (res: Result<
    (),
    LoweringError,
>)
    requires
        old(ctx).wf(),
        tys@.len() == args@.len(),
        args@.len() >= 3,
    ensures
        final(ctx).wf(),
        final(ctx)@ == old(ctx)@.advance(
            spec_lower_assert(old(ctx)@.env, old(ctx)@.regs, tys@, args@),
        ),
        plain_result_view(res) == spec_lower_assert(old(ctx)@.env, old(ctx)@.regs, tys@, args@).res,
{
    let ghost step = spec_lower_assert(ctx@.env, ctx@.regs, tys@, args@);
    let lhs = match get_operand_for_val(ctx, tys[1], args[1]) {
        Ok(lhs) => lhs,
        Err(error) => {
            return Err(error);
        },
    };
    let rhs = match get_operand_for_val(ctx, tys[2], args[2]) {
        Ok(rhs) => rhs,
        Err(error) => {
            assert(ctx@ =~= old(ctx)@.advance(step));
            return Err(error);
        },
    };
    let operands = vec![Operand::input(lhs), Operand::input(rhs)];
    assert(operands.deep_view() =~= seq![OperandView::input(lhs@), OperandView::input(rhs@)]);
    emit_inst(ctx, Opcode::ASSERTri, operands);
    assert(ctx@ =~= old(ctx)@.advance(step));
    Ok(())
}

/// Lowers a call of the range check builtin.
fn lower_range_check(ctx: &mut LoweringContext, tys: &[Type], args: &[ValueId]) -> (res: Result<
    (),
    LoweringError,
>)
    requires
        old(ctx).wf(),
        tys@.len() == args@.len(),
        args@.len() >= 2,
    ensures
        final(ctx).wf(),
        final(ctx)@ == old(ctx)@.advance(
            spec_lower_range_check(old(ctx)@.env, old(ctx)@.regs, tys@, args@),
        ),
        plain_result_view(res) == spec_lower_range_check(
            old(ctx)@.env,
            old(ctx)@.regs,
            tys@,
            args@,
        ).res,
{
    let ghost step = spec_lower_range_check(ctx@.env, ctx@.regs, tys@, args@);
    let arg = match get_operand_for_val(ctx, tys[1], args[1]) {
        Ok(arg) => arg,
        Err(error) => {
            return Err(error);
        },
    };
    let operands = vec![Operand::input(arg)];
    assert(operands.deep_view() =~= seq![OperandView::input(arg@)]);
    emit_inst(ctx, Opcode::RANGECHECK, operands);
    assert(ctx@ =~= old(ctx)@.advance(step));
    Ok(())
}

/// Lowers a storage write.
fn lower_storage_write(ctx: &mut LoweringContext, tys: &[Type], args: &[ValueId]) -> (res: Result<
    (),
    LoweringError,
>)
    requires
        old(ctx).wf(),
        tys@.len() == args@.len(),
        args@.len() >= 2,
    ensures
        final(ctx).wf(),
        final(ctx)@ == old(ctx)@.advance(
            spec_lower_storage_write(old(ctx)@.env, old(ctx)@.regs, tys@, args@),
        ),
        plain_result_view(res) == spec_lower_storage_write(
            old(ctx)@.env,
            old(ctx)@.regs,
            tys@,
            args@,
        ).res,
{
    let ghost step = spec_lower_storage_write(ctx@.env, ctx@.regs, tys@, args@);
    let arg_tys = slice_subrange(tys, 1, tys.len());
    let arg_vals = slice_subrange(args, 1, args.len());
    assert(arg_tys@ =~= tys@.skip(1));
    assert(arg_vals@ =~= args@.skip(1));
    match pass_str_args_to_regs(ctx, arg_tys, arg_vals) {
        Ok(()) => {},
        Err(error) => {
            return Err(error);
        },
    }
    let operands: Vec<Operand> = Vec::new();
    assert(operands.deep_view() =~= Seq::<OperandView>::empty());
    emit_inst(ctx, Opcode::SSTORE, operands);
    assert(ctx@ =~= old(ctx)@.advance(step));
    Ok(())
}

/// The operands of a storage read or a hash.
fn wide_result_operands() -> (operands: Vec<Operand>)
    ensures
        operands.deep_view() == spec_wide_result_operands(),
{
    let operands = vec![
        Operand::implicit_output(OperandData::Reg(wide_result_reg(0))),
        Operand::implicit_output(OperandData::Reg(wide_result_reg(1))),
        Operand::implicit_output(OperandData::Reg(wide_result_reg(2))),
        Operand::implicit_output(OperandData::Reg(wide_result_reg(3))),
    ];
    assert(operands.deep_view() =~= spec_wide_result_operands());
    operands
}

/// Hands out the registers for the result of the storage read or hash `id`
/// and copies the result into them.
fn copy_wide_result(ctx: &mut LoweringContext, ty: Type, id: InstructionId)
    requires
        old(ctx).wf(),
        old(ctx)@.regs.has_instruction(id),
    ensures
        final(ctx).wf(),
        final(ctx)@ == (ContextView {
            regs: spec_with_limbs(old(ctx)@.regs, ty, id, WIDE_RESULT_LIMBS as nat),
            insts: old(ctx)@.insts + spec_wide_result_copies(
                old(ctx)@.env,
                spec_with_limbs(old(ctx)@.regs, ty, id, WIDE_RESULT_LIMBS as nat).outputs_of(id),
            ),
            ..old(ctx)@
        }),
{
    let ghost start = ctx@;
    let ghost after = spec_with_limbs(start.regs, ty, id, WIDE_RESULT_LIMBS as nat);
    let mut outputs: Vec<VReg> = ctx.inst_outputs(id);
    let mut n: usize = 0;
    assert(ctx@.regs =~~= spec_with_limbs(start.regs, ty, id, 0));
    while n < WIDE_RESULT_LIMBS
        invariant
            n <= WIDE_RESULT_LIMBS,
            ctx.wf(),
            start.regs.has_instruction(id),
            ctx@ == (ContextView { regs: spec_with_limbs(start.regs, ty, id, n as nat), ..start }),
            outputs@ == ctx@.regs.outputs_of(id),
        decreases WIDE_RESULT_LIMBS - n,
    {
        outputs = new_empty_str_inst_output(ctx, ty, id);
        n += 1;
        assert(ctx@.regs =~~= spec_with_limbs(start.regs, ty, id, n as nat));
    }
    let ghost copies = spec_wide_result_copies(start.env, after.outputs_of(id));
    let mut k: usize = 0;
    assert(ctx@.insts =~= start.insts + copies.take(0));
    while k < WIDE_RESULT_LIMBS
        invariant
            k <= WIDE_RESULT_LIMBS,
            ctx.wf(),
            outputs@ == after.outputs_of(id),
            outputs@.len() >= WIDE_RESULT_LIMBS,
            copies == spec_wide_result_copies(start.env, after.outputs_of(id)),
            ctx@ == (ContextView { regs: after, insts: start.insts + copies.take(k as int), ..start }),
        decreases WIDE_RESULT_LIMBS - k,
    {
        ctx.emit(
            move_data(
                Opcode::MOVrr,
                OperandData::VReg(outputs[k]),
                OperandData::Reg(wide_result_reg(k)),
            ),
        );
        k += 1;
        assert(ctx@.insts =~= start.insts + copies.take(k as int));
    }
    assert(copies.take(k as int) =~= copies);
}

/// Lowers a storage read or a hash.
fn lower_storage_read(
    ctx: &mut LoweringContext,
    id: InstructionId,
    tys: &[Type],
    args: &[ValueId],
    opcode: Opcode,
) -> (res: Result<(), LoweringError>)
    requires
        old(ctx).wf(),
        old(ctx)@.regs.has_instruction(id),
        tys@.len() == args@.len(),
        args@.len() >= 2,
    ensures
        final(ctx).wf(),
        final(ctx)@ == old(ctx)@.advance(
            spec_lower_storage_read(old(ctx)@.env, old(ctx)@.regs, id, tys@, args@, opcode),
        ),
        plain_result_view(res) == spec_lower_storage_read(
            old(ctx)@.env,
            old(ctx)@.regs,
            id,
            tys@,
            args@,
            opcode,
        ).res,
{
    let ghost step = spec_lower_storage_read(ctx@.env, ctx@.regs, id, tys@, args@, opcode);
    let arg_tys = slice_subrange(tys, 1, tys.len());
    let arg_vals = slice_subrange(args, 1, args.len());
    assert(arg_tys@ =~= tys@.skip(1));
    assert(arg_vals@ =~= args@.skip(1));
    match pass_str_args_to_regs(ctx, arg_tys, arg_vals) {
        Ok(()) => {},
        Err(error) => {
            return Err(error);
        },
    }
    emit_inst(ctx, opcode, wide_result_operands());
    if ctx.ir().has_users(id) {
        let limb_ty = ctx.types().limb_type(tys[0]);
        copy_wide_result(ctx, limb_ty, id);
    }
    assert(ctx@ =~= old(ctx)@.advance(step));
    Ok(())
}

/// Lowers a call of an ordinary function or a request to the prover.
fn lower_plain_call(
    ctx: &mut LoweringContext,
    id: InstructionId,
    tys: &[Type],
    args: &[ValueId],
    name: String,
    opcode: Opcode,
) -> (res: Result<(), LoweringError>)
    requires
        old(ctx).wf(),
        old(ctx)@.regs.has_instruction(id),
        tys@.len() == args@.len(),
        args@.len() >= 1,
    ensures
        final(ctx).wf(),
        final(ctx)@ == old(ctx)@.advance(
            spec_lower_plain_call(old(ctx)@.env, old(ctx)@.regs, id, tys@, args@, name@, opcode),
        ),
        plain_result_view(res) == spec_lower_plain_call(
            old(ctx)@.env,
            old(ctx)@.regs,
            id,
            tys@,
            args@,
            name@,
            opcode,
        ).res,
{
    let ghost step = spec_lower_plain_call(ctx@.env, ctx@.regs, id, tys@, args@, name@, opcode);
    let result_ty = ctx.types().return_type(tys[0]);
    let outputs = new_empty_inst_output(ctx, result_ty, id);
    let arg_tys = slice_subrange(tys, 1, tys.len());
    let arg_vals = slice_subrange(args, 1, args.len());
    assert(arg_tys@ =~= tys@.skip(1));
    assert(arg_vals@ =~= args@.skip(1));
    match pass_args_to_regs(ctx, arg_tys, arg_vals) {
        Ok(()) => {},
        Err(error) => {
            assert(ctx@ =~= old(ctx)@.advance(step));
            return Err(error);
        },
    }
    let operands = vec![
        Operand::implicit_output(OperandData::Reg(return_reg())),
        Operand::new(OperandData::Label(name)),
    ];
    assert(operands.deep_view() =~= seq![
        OperandView::implicit_output(OperandDataView::Reg(spec_return_reg())),
        OperandView::plain(OperandDataView::Label(name@)),
    ]);
    emit_inst(ctx, opcode, operands);
    if ctx.ir().has_users(id) {
        ctx.emit(
            move_data(Opcode::MOVrr, OperandData::VReg(outputs[0]), OperandData::Reg(return_reg())),
        );
    }
    assert(ctx@ =~= old(ctx)@.advance(step));
    Ok(())
}

/// Lowers the call `id`. `args[0]` is the callee and the arguments follow it;
/// `tys` holds the type of each, and `tys[0]` is the type of the callee or of
/// the call's result.
///
/// The callee must be a global with a spelled-out name. What is emitted goes
/// by the name: a builtin becomes its instruction; a storage write, a storage
/// read and the hash take their arguments limb by limb in the storage
/// argument registers and leave a result in registers that are fixed; any
/// other function is called with its arguments in the argument registers.
/// The result of a storage read, of a hash and of a call is copied out of its
/// fixed register only where some instruction uses it.
pub fn lower_call(ctx: &mut LoweringContext, id: InstructionId, tys: &[Type], args: &[ValueId]) -> (res:
    Result<(), LoweringError>)
    requires
        old(ctx).wf(),
        old(ctx)@.regs.has_instruction(id),
        spec_call_well_formed(old(ctx)@.env, tys@, args@),
    ensures
        final(ctx).wf(),
        final(ctx)@ == old(ctx)@.advance(
            spec_lower_call(old(ctx)@.env, old(ctx)@.regs, id, tys@, args@),
        ),
        plain_result_view(res) == spec_lower_call(old(ctx)@.env, old(ctx)@.regs, id, tys@, args@).res,
        res.is_ok() ==> (spec_callee_name(old(ctx)@.env, args@[0]) matches Some(name)
            && spec_ends_with_result(
            old(ctx)@.env,
            final(ctx)@.regs,
            id,
            spec_classify(name),
            final(ctx)@.insts,
        )),
{
    let ghost step = spec_lower_call(ctx@.env, ctx@.regs, id, tys@, args@);
    let name = match callee_name(ctx, args[0]) {
        Some(name) => name,
        None => {
            assert(ctx@ =~= old(ctx)@.advance(step));
            return Err(LoweringError::UnsupportedCallee(args[0]));
        },
    };
    let res = match classify(name.as_str()) {
        CalleeKind::BuiltinAssert => lower_assert(ctx, tys, args),
        CalleeKind::BuiltinRangeCheck => lower_range_check(ctx, tys, args),
        CalleeKind::UnknownBuiltin => {
            assert(ctx@ =~= old(ctx)@.advance(step));
            Err(LoweringError::UnrecognizedBuiltin(name))
        },
        CalleeKind::StorageWrite => lower_storage_write(ctx, tys, args),
        CalleeKind::StorageRead => lower_storage_read(ctx, id, tys, args, Opcode::SLOAD),
        CalleeKind::Hash => lower_storage_read(ctx, id, tys, args, Opcode::POSEIDON),
        CalleeKind::Prophet => lower_plain_call(ctx, id, tys, args, name, Opcode::PROPHET),
        CalleeKind::Plain => lower_plain_call(ctx, id, tys, args, name, Opcode::CALL),
    };
    proof {
        if res.is_ok() {
            lemma_unused_results_are_not_copied(old(ctx)@, id, tys@, args@);
        }
    }
    res
}

/// Lowers a return, with the type and the value that is returned where there
/// is one.
///
/// On success the instruction that returns is the last one emitted, whether
/// or not a value is returned.
pub fn lower_return(ctx: &mut LoweringContext, arg: Option<(Type, ValueId)>) -> (res: Result<
    (),
    LoweringError,
>)
    requires
        old(ctx).wf(),
    ensures
        final(ctx).wf(),
        final(ctx)@ == old(ctx)@.advance(spec_lower_return(old(ctx)@.env, old(ctx)@.regs, arg)),
        plain_result_view(res) == spec_lower_return(old(ctx)@.env, old(ctx)@.regs, arg).res,
        res.is_ok() ==> final(ctx)@.insts.len() > 0 && final(ctx)@.insts.last() == old(
            ctx,
        )@.env.inst(Opcode::RET, Seq::empty()),
{
    let ghost step = spec_lower_return(ctx@.env, ctx@.regs, arg);
    if let Some((ty, value)) = arg {
        let vreg = match get_vreg_for_val(ctx, ty, value) {
            Ok(vreg) => vreg,
            Err(error) => {
                return Err(error);
            },
        };
        let size: u64 = ctx.types().size_of(ty);
        if !(ctx.types().is_integer(ty) || ctx.types().is_pointer(ty)) {
            return Err(LoweringError::UnsupportedReturnType(ty));
        }
        if !(size == 4 || size == 8) {
            return Err(LoweringError::UnsupportedReturnWidth(size));
        }
        ctx.emit(move_data(Opcode::MOVrr, OperandData::Reg(return_reg()), OperandData::VReg(vreg)));
    }
    let operands: Vec<Operand> = Vec::new();
    assert(operands.deep_view() =~= Seq::<OperandView>::empty());
    emit_inst(ctx, Opcode::RET, operands);
    assert(ctx@ =~= old(ctx)@.advance(step));
    Ok(())
}

} // verus!
