//! The state of the lowering of one function: what it reads (the IR, the type
//! table, the calling convention, the current block), the virtual registers
//! it has handed out, and the instructions it has emitted.

use crate::error::LoweringErrorView;
use crate::instruction::{Instruction, InstructionData, InstructionView, MachBlockId, OperandView, Opcode};
use crate::ir::{BlockId, InstructionId, IrData, IrView};
use crate::register::{CallConv, CallConvView, VReg};
use crate::types::{spec_types_wf, Type, TypeKindView, Types};
use vstd::prelude::*;

verus! {

/// What lowering reads and never changes.
pub struct Env {
    /// The IR of the function.
    pub ir: IrView,
    /// The type table.
    pub types: Seq<TypeKindView>,
    /// The calling convention of the target.
    pub call_conv: CallConvView,
    /// For each block of the IR, by [`BlockId`], the machine block that takes
    /// its instructions.
    pub block_map: Seq<MachBlockId>,
    /// The block of the IR that is being lowered.
    pub cur_block: BlockId,
}

impl Env {
    /// Whether the current block has a machine block and the type table is
    /// well formed.
    pub open spec fn wf(self) -> bool {
        &&& self.cur_block.0 < self.block_map.len()
        &&& spec_types_wf(self.types)
    }

    /// The machine block that takes the instructions of the current block.
    pub open spec fn block(self) -> MachBlockId {
        self.block_map[self.cur_block.0 as int]
    }

    /// The instruction `opcode operands` in the current block.
    pub open spec fn inst(self, opcode: Opcode, operands: Seq<OperandView>) -> InstructionView {
        InstructionView { opcode, operands, parent: self.block() }
    }
}

/// The virtual registers handed out so far.
#[verifier::ext_equal]
pub struct RegState {
    /// The type of each virtual register, by its number.
    pub vregs: Seq<Type>,
    /// For each instruction of the IR, by [`InstructionId`], the virtual
    /// registers that hold its result, in limb order; none while the result
    /// has not been given any.
    pub outputs: Seq<Seq<VReg>>,
}

impl RegState {
    /// Whether `v` has been handed out.
    pub open spec fn has_vreg(self, v: VReg) -> bool {
        v.0 < self.vregs.len()
    }

    /// Whether `id` is an instruction that can be given registers.
    pub open spec fn has_instruction(self, id: InstructionId) -> bool {
        id.0 < self.outputs.len()
    }

    /// The registers that hold the result of `id`.
    pub open spec fn outputs_of(self, id: InstructionId) -> Seq<VReg> {
        self.outputs[id.0 as int]
    }

    /// The register that is handed out next.
    pub open spec fn fresh(self) -> VReg {
        VReg(self.vregs.len() as usize)
    }

    /// The state after a register of type `ty` was handed out.
    pub open spec fn with_vreg(self, ty: Type) -> RegState {
        RegState { vregs: self.vregs.push(ty), outputs: self.outputs }
    }

    /// The state after `v` was added to the registers that hold the result of
    /// `id`.
    pub open spec fn with_output(self, id: InstructionId, v: VReg) -> RegState {
        RegState {
            vregs: self.vregs,
            outputs: self.outputs.update(id.0 as int, self.outputs[id.0 as int].push(v)),
        }
    }

    /// Whether `v` holds the result, or a limb of the result, of some
    /// instruction.
    pub open spec fn is_output(self, v: VReg) -> bool {
        exists|i: int, k: int|
            0 <= i < self.outputs.len() && 0 <= k < self.outputs[i].len()
                && #[trigger] self.outputs[i][k] == v
    }

    /// Whether the registers can be numbered, there is a list of registers
    /// for each instruction of the IR, each register in these lists has been
    /// handed out, and none stands in these lists twice.
    pub open spec fn wf(self, env: Env) -> bool {
        &&& self.vregs.len() <= usize::MAX
        &&& self.outputs.len() == env.ir.users.len()
        &&& forall|i: int, k: int|
            0 <= i < self.outputs.len() && 0 <= k < self.outputs[i].len() ==> self.has_vreg(
                #[trigger] self.outputs[i][k],
            )
        &&& forall|i: int, k: int, j: int, l: int|
            0 <= i < self.outputs.len() && 0 <= k < self.outputs[i].len() && 0 <= j
                < self.outputs.len() && 0 <= l < self.outputs[j].len()
                && #[trigger] self.outputs[i][k] == #[trigger] self.outputs[j][l] ==> i == j && k
                == l
    }
}

/// What one piece of lowering does: the registers afterwards, the
/// instructions it emits, in order, and its result.
pub struct Step<T> {
    pub regs: RegState,
    pub emitted: Seq<InstructionView>,
    pub res: Result<T, LoweringErrorView>,
}

impl<T> Step<T> {
    /// A step that emits nothing, leaves the registers as they are and yields
    /// `value`.
    pub open spec fn done(regs: RegState, value: T) -> Step<T> {
        Step { regs, emitted: Seq::empty(), res: Ok(value) }
    }

    /// A step that emits nothing, leaves the registers as they are and fails.
    pub open spec fn fail(regs: RegState, error: LoweringErrorView) -> Step<T> {
        Step { regs, emitted: Seq::empty(), res: Err(error) }
    }

    /// This step followed by the instructions `insts`, which are emitted only
    /// where the step succeeds.
    pub open spec fn then_emit(self, insts: Seq<InstructionView>) -> Step<T> {
        match self.res {
            Ok(_) => Step { regs: self.regs, emitted: self.emitted + insts, res: self.res },
            Err(_) => self,
        }
    }

    /// This step, with the instructions `before` emitted before its own.
    pub open spec fn after(self, before: Seq<InstructionView>) -> Step<T> {
        Step { regs: self.regs, emitted: before + self.emitted, res: self.res }
    }
}

/// The model of a [`LoweringContext`].
#[verifier::ext_equal]
pub struct ContextView {
    /// What lowering reads.
    pub env: Env,
    /// The virtual registers handed out so far.
    pub regs: RegState,
    /// The instructions emitted so far, in order.
    pub insts: Seq<InstructionView>,
}

impl ContextView {
    /// Whether the parts of the context fit together.
    pub open spec fn wf(self) -> bool {
        self.env.wf() && self.regs.wf(self.env)
    }

    /// The context after `step`: the same environment, the registers of the
    /// step, and the instructions of the step behind those emitted before.
    pub open spec fn advance<T>(self, step: Step<T>) -> ContextView {
        ContextView { env: self.env, regs: step.regs, insts: self.insts + step.emitted }
    }
}

/// The state of the lowering of one function.
pub struct LoweringContext {
    ir: IrData,
    types: Types,
    call_conv: CallConv,
    block_map: Vec<MachBlockId>,
    cur_block: BlockId,
    vregs: Vec<Type>,
    inst_outputs: Vec<Vec<VReg>>,
    inst_seq: Vec<Instruction>,
}

impl View for LoweringContext {
    type V = ContextView;

    closed spec fn view(&self) -> ContextView {
        ContextView {
            env: Env {
                ir: self.ir@,
                types: self.types@,
                call_conv: self.call_conv@,
                block_map: self.block_map@,
                cur_block: self.cur_block,
            },
            regs: RegState {
                vregs: self.vregs@,
                outputs: Seq::new(self.inst_outputs@.len(), |i: int| self.inst_outputs@[i]@),
            },
            insts: self.inst_seq.deep_view(),
        }
    }
}

impl LoweringContext {
    /// Whether the parts of the context fit together.
    pub open spec fn wf(&self) -> bool {
        self@.wf()
    }

    /// A context for the lowering of the function `ir`, with nothing emitted
    /// and no register handed out. The function's first block is current, and
    /// its instructions go to the machine block `entry`.
    pub fn new(ir: IrData, types: Types, call_conv: CallConv, entry: MachBlockId) -> (ctx: Self)
        requires
            types.wf(),
        ensures
            ctx.wf(),
            ctx@.env == (Env {
                ir: ir@,
                types: types@,
                call_conv: call_conv@,
                block_map: seq![entry],
                cur_block: BlockId(0),
            }),
            ctx@.regs.vregs == Seq::<Type>::empty(),
            ctx@.regs.outputs == Seq::new(ir@.users.len(), |i: int| Seq::<VReg>::empty()),
            ctx@.insts == Seq::<InstructionView>::empty(),
    {
        let n: usize = ir.num_instructions();
        let mut inst_outputs: Vec<Vec<VReg>> = Vec::new();
        let mut i: usize = 0;
        while i < n
            invariant
                i <= n,
                inst_outputs@.len() == i,
                forall|j: int| 0 <= j < i ==> (#[trigger] inst_outputs@[j])@ == Seq::<VReg>::empty(),
            decreases n - i,
        {
            inst_outputs.push(Vec::new());
            i += 1;
        }
        let mut block_map: Vec<MachBlockId> = Vec::new();
        block_map.push(entry);
        let ctx = LoweringContext {
            ir,
            types,
            call_conv,
            block_map,
            cur_block: BlockId(0),
            vregs: Vec::new(),
            inst_outputs,
            inst_seq: Vec::new(),
        };
        assert(ctx@.env.block_map =~= seq![entry]);
        assert(ctx@.regs.outputs =~= Seq::new(ir@.users.len(), |i: int| Seq::<VReg>::empty()));
        assert(ctx@.insts =~= Seq::<InstructionView>::empty());
        ctx
    }

    /// Gives the next block of the IR the machine block `mach` and returns
    /// the block's name.
    pub fn map_block(&mut self, mach: MachBlockId) -> (block: BlockId)
        requires
            old(self).wf(),
        ensures
            final(self).wf(),
            block.0 == old(self)@.env.block_map.len(),
            final(self)@ == (ContextView {
                env: Env { block_map: old(self)@.env.block_map.push(mach), ..old(self)@.env },
                ..old(self)@
            }),
    {
        let block = BlockId(self.block_map.len());
        self.block_map.push(mach);
        assert(self@.regs =~= old(self)@.regs);
        block
    }

    /// Makes `block` the current block. Says whether `block` has a machine
    /// block; where it has none, nothing changes.
    pub fn set_cur_block(&mut self, block: BlockId) -> (known: bool)
        requires
            old(self).wf(),
        ensures
            final(self).wf(),
            known == (block.0 < old(self)@.env.block_map.len()),
            known ==> final(self)@ == (ContextView {
                env: Env { cur_block: block, ..old(self)@.env },
                ..old(self)@
            }),
            !known ==> final(self)@ == old(self)@,
    {
        if block.0 < self.block_map.len() {
            self.cur_block = block;
            assert(self@.regs =~= old(self)@.regs);
            true
        } else {
            false
        }
    }

    /// The IR of the function.
    pub fn ir(&self) -> (ir: &IrData)
        ensures
            ir@ == self@.env.ir,
    {
        &self.ir
    }

    /// The type table.
    pub fn types(&self) -> (types: &Types)
        ensures
            types@ == self@.env.types,
    {
        &self.types
    }

    /// The calling convention of the target.
    pub fn call_conv(&self) -> (cc: &CallConv)
        ensures
            cc@ == self@.env.call_conv,
    {
        &self.call_conv
    }

    /// The machine block that takes the instructions of the current block.
    pub fn cur_mach_block(&self) -> (block: MachBlockId)
        requires
            self.wf(),
        ensures
            block == self@.env.block(),
    {
        self.block_map[self.cur_block.0]
    }

    /// The number of virtual registers handed out.
    pub fn num_vregs(&self) -> (n: usize)
        ensures
            n == self@.regs.vregs.len(),
    {
        self.vregs.len()
    }

    /// The type of the virtual register `v`.
    pub fn vreg_type(&self, v: VReg) -> (ty: Type)
        requires
            self@.regs.has_vreg(v),
        ensures
            ty == self@.regs.vregs[v.0 as int],
    {
        self.vregs[v.0]
    }

    /// Whether `id` is an instruction that can be given registers.
    pub fn has_instruction(&self, id: InstructionId) -> (known: bool)
        ensures
            known == self@.regs.has_instruction(id),
    {
        id.0 < self.inst_outputs.len()
    }

    /// The virtual registers that hold the result of `id`, in limb order.
    pub fn inst_outputs(&self, id: InstructionId) -> (regs: Vec<VReg>)
        requires
            self@.regs.has_instruction(id),
        ensures
            regs@ == self@.regs.outputs_of(id),
    {
        self.inst_outputs[id.0].clone()
    }

    /// The instructions emitted so far, in order.
    pub fn inst_seq(&self) -> (insts: &Vec<Instruction>)
        ensures
            insts.deep_view() == self@.insts,
    {
        &self.inst_seq
    }

    /// Hands out a virtual register of type `ty`.
    pub fn new_vreg(&mut self, ty: Type) -> (v: VReg)
        requires
            old(self).wf(),
        ensures
            final(self).wf(),
            v == old(self)@.regs.fresh(),
            final(self)@ == (ContextView { regs: old(self)@.regs.with_vreg(ty), ..old(self)@ }),
    {
        let v = VReg(self.vregs.len());
        self.vregs.push(ty);
        assert(self@.regs =~= old(self)@.regs.with_vreg(ty));
        assert(self@.regs.vregs.len() == self.vregs.len());
        v
    }

    /// Adds `v`, which holds no result yet, to the registers that hold the
    /// result of `id`.
    pub(crate) fn add_inst_output(&mut self, id: InstructionId, v: VReg)
        requires
            old(self).wf(),
            old(self)@.regs.has_instruction(id),
            old(self)@.regs.has_vreg(v),
            !old(self)@.regs.is_output(v),
        ensures
            final(self).wf(),
            final(self)@ == (ContextView { regs: old(self)@.regs.with_output(id, v), ..old(self)@ }),
    {
        self.inst_outputs[id.0].push(v);
        assert(self@.regs =~= old(self)@.regs.with_output(id, v));
    }

    /// Appends the instruction `data` to the current block.
    pub fn emit(&mut self, data: InstructionData)
        requires
            old(self).wf(),
        ensures
            final(self).wf(),
            final(self)@ == (ContextView {
                insts: old(self)@.insts.push(
                    old(self)@.env.inst(data.opcode, data.operands.deep_view()),
                ),
                ..old(self)@
            }),
    {
        let parent = self.block_map[self.cur_block.0];
        self.inst_seq.push(Instruction::new(data, parent));
        assert(self@.insts =~= old(self)@.insts.push(
            old(self)@.env.inst(data.opcode, data.operands.deep_view()),
        ));
        assert(self@.regs =~= old(self)@.regs);
    }
}

} // verus!
