use ola_lower::callee::{classify, CalleeKind};
use ola_lower::context::LoweringContext;
use ola_lower::error::LoweringError;
use ola_lower::instruction::{
    Instruction, InstructionData, MachBlockId, Opcode, Operand, OperandData,
};
use ola_lower::ir::{ConstantValue, InstructionId, IrData, Name, Value, ValueId};
use ola_lower::lower::call::{
    call_well_formed, lower_call, lower_return, pass_args_to_regs, pass_str_args_to_regs,
};
use ola_lower::lower::extractv::lower_extractvalue;
use ola_lower::materialize::{get_operand_for_val, get_operands_for_val, get_vreg_for_val};
use ola_lower::register::{CallConv, Reg, VReg, GR};
use ola_lower::types::{Type, TypeKind, Types};

const BLOCK: MachBlockId = MachBlockId(10);

struct Tys {
    types: Types,
    void: Type,
    i8: Type,
    i32: Type,
    i64: Type,
    ptr: Type,
    arr4: Type,
    arr8: Type,
}

fn tys() -> Tys {
    let mut types = Types::new();
    let void = types.add(TypeKind::Void).unwrap();
    let i8 = types.add(TypeKind::Int(8)).unwrap();
    let i32 = types.add(TypeKind::Int(32)).unwrap();
    let i64 = types.add(TypeKind::Int(64)).unwrap();
    let ptr = types.add(TypeKind::Pointer(i64)).unwrap();
    let arr4 = types.add(TypeKind::Array(i64, 4)).unwrap();
    let arr8 = types.add(TypeKind::Array(i64, 8)).unwrap();
    Tys { types, void, i8, i32, i64, ptr, arr4, arr8 }
}

fn global(ir: &mut IrData, name: &str) -> ValueId {
    ir.create_value(Value::Constant(ConstantValue::GlobalRef(Name::Name(name.to_string()))))
}

fn konst(ir: &mut IrData, i: i32) -> ValueId {
    ir.create_value(Value::Constant(ConstantValue::Int32(i)))
}

fn inst(ir: &mut IrData) -> (InstructionId, ValueId) {
    let id = ir.create_instruction();
    let val = ir.create_value(Value::Instruction(id));
    (id, val)
}

fn ctx(ir: IrData, types: Types) -> LoweringContext {
    LoweringContext::new(ir, types, CallConv::ola(), BLOCK)
}

fn reg(r: GR) -> OperandData {
    OperandData::Reg(r.reg())
}

fn vreg(n: usize) -> OperandData {
    OperandData::VReg(VReg(n))
}

fn mk(opcode: Opcode, operands: Vec<Operand>) -> Instruction {
    Instruction::new(InstructionData { opcode, operands }, BLOCK)
}

fn mov(opcode: Opcode, dst: OperandData, src: OperandData) -> Instruction {
    mk(opcode, vec![Operand::output(dst), Operand::input(src)])
}

fn sload(opcode: Opcode) -> Instruction {
    mk(
        opcode,
        vec![
            Operand::implicit_output(reg(GR::R1)),
            Operand::implicit_output(reg(GR::R2)),
            Operand::implicit_output(reg(GR::R3)),
            Operand::implicit_output(reg(GR::R4)),
        ],
    )
}

fn call_inst(opcode: Opcode, name: &str) -> Instruction {
    mk(
        opcode,
        vec![
            Operand::implicit_output(reg(GR::R0)),
            Operand::new(OperandData::Label(name.to_string())),
        ],
    )
}

fn ret() -> Instruction {
    mk(Opcode::RET, vec![])
}

#[test]
fn codegen_extractv_var_test() {
    // %0 = call [4 x i64] @get_storage([4 x i64] zeroinitializer)
    // %1 = extractvalue [4 x i64] %0, 2
    // %2 = extractvalue [4 x i64] %0, 3
    // %3 = add i32 %1, %2
    // ret i64 %3
    let t = tys();
    let mut ir = IrData::new();
    let get_storage = global(&mut ir, "get_storage");
    let zero = ir.create_value(Value::Constant(ConstantValue::AggregateZero));
    let two = konst(&mut ir, 2);
    let three = konst(&mut ir, 3);
    let (i0, v0) = inst(&mut ir);
    let (i1, v1) = inst(&mut ir);
    let (i2, v2) = inst(&mut ir);
    let (i3, v3) = inst(&mut ir);
    let (i4, _) = inst(&mut ir);
    assert!(ir.add_user(i0, i1));
    assert!(ir.add_user(i0, i2));
    assert!(ir.add_user(i1, i3));
    assert!(ir.add_user(i2, i3));
    assert!(ir.add_user(i3, i4));
    let _ = (v1, v2);
    let mut c = ctx(ir, t.types);

    let tys0 = [t.arr4, t.arr4];
    let args0 = [get_storage, zero];
    assert!(call_well_formed(&c, &tys0, &args0));
    assert_eq!(lower_call(&mut c, i0, &tys0, &args0), Ok(()));
    assert_eq!(lower_extractvalue(&mut c, i1, &t.arr4, &[v0, two]), Ok(()));
    assert_eq!(lower_extractvalue(&mut c, i2, &t.arr4, &[v0, three]), Ok(()));
    // the addition is lowered elsewhere; its result is read by the return
    assert_eq!(lower_return(&mut c, Some((t.i64, v3))), Ok(()));

    let expected = vec![
        mov(Opcode::MOVri, reg(GR::R1), OperandData::Int32(0)),
        mov(Opcode::MOVri, reg(GR::R2), OperandData::Int32(0)),
        mov(Opcode::MOVri, reg(GR::R3), OperandData::Int32(0)),
        mov(Opcode::MOVri, reg(GR::R4), OperandData::Int32(0)),
        sload(Opcode::SLOAD),
        mov(Opcode::MOVrr, vreg(0), reg(GR::R1)),
        mov(Opcode::MOVrr, vreg(1), reg(GR::R2)),
        mov(Opcode::MOVrr, vreg(2), reg(GR::R3)),
        mov(Opcode::MOVrr, vreg(3), reg(GR::R4)),
        mov(Opcode::MOVrr, vreg(4), vreg(2)),
        mov(Opcode::MOVrr, vreg(5), vreg(3)),
        mov(Opcode::MOVrr, reg(GR::R0), vreg(6)),
        ret(),
    ];
    assert_eq!(c.inst_seq(), &expected);
    assert_eq!(c.inst_outputs(i0), vec![VReg(0), VReg(1), VReg(2), VReg(3)]);
    assert_eq!(c.inst_outputs(i1), vec![VReg(4)]);
    assert_eq!(c.inst_outputs(i2), vec![VReg(5)]);
    assert_eq!(c.inst_outputs(i3), vec![VReg(6)]);
    assert_eq!(c.num_vregs(), 7);
}

#[test]
fn codegen_extractv_imm_test() {
    // %1 = extractvalue [4 x i64] [i64 1, i64 2, i64 3, i64 4], 0
    // %2 = extractvalue [4 x i64] [i64 1, i64 2, i64 3, i64 4], 1
    // %3 = extractvalue [4 x i64] [i64 5, i64 6, i64 7, i64 8], 2
    // %4 = extractvalue [4 x i64] [i64 5, i64 6, i64 7, i64 8], 3
    // %5 = add i64 %1, %2
    // %6 = mul i64 %3, %4
    // %7 = add i64 %5, %6
    // ret i64 %7
    let t = tys();
    let mut ir = IrData::new();
    let low = ir.create_value(Value::Constant(ConstantValue::Array(vec![1, 2, 3, 4])));
    let high = ir.create_value(Value::Constant(ConstantValue::Array(vec![5, 6, 7, 8])));
    let idx: Vec<ValueId> = (0..4).map(|k| konst(&mut ir, k)).collect();
    let (i1, _) = inst(&mut ir);
    let (i2, _) = inst(&mut ir);
    let (i3, _) = inst(&mut ir);
    let (i4, _) = inst(&mut ir);
    let (i5, _) = inst(&mut ir);
    let (i6, _) = inst(&mut ir);
    let (i7, v7) = inst(&mut ir);
    let (i8, _) = inst(&mut ir);
    assert!(ir.add_user(i1, i5));
    assert!(ir.add_user(i2, i5));
    assert!(ir.add_user(i3, i6));
    assert!(ir.add_user(i4, i6));
    assert!(ir.add_user(i5, i7));
    assert!(ir.add_user(i6, i7));
    assert!(ir.add_user(i7, i8));
    let mut c = ctx(ir, t.types);

    assert_eq!(lower_extractvalue(&mut c, i1, &t.arr4, &[low, idx[0]]), Ok(()));
    assert_eq!(lower_extractvalue(&mut c, i2, &t.arr4, &[low, idx[1]]), Ok(()));
    assert_eq!(lower_extractvalue(&mut c, i3, &t.arr4, &[high, idx[2]]), Ok(()));
    assert_eq!(lower_extractvalue(&mut c, i4, &t.arr4, &[high, idx[3]]), Ok(()));
    assert_eq!(lower_return(&mut c, Some((t.i64, v7))), Ok(()));

    let mut expected = Vec::new();
    let picks = [(1, 0usize), (1, 1), (5, 2), (5, 3)];
    for (n, (first, k)) in picks.iter().enumerate() {
        let base = n * 5;
        for j in 0..4 {
            expected.push(mov(
                Opcode::MOVri,
                vreg(base + j),
                OperandData::Int32(first + j as i32),
            ));
        }
        expected.push(mov(Opcode::MOVrr, vreg(base + 4), vreg(base + k)));
    }
    expected.push(mov(Opcode::MOVrr, reg(GR::R0), vreg(20)));
    expected.push(ret());
    assert_eq!(c.inst_seq(), &expected);
    assert_eq!(c.inst_outputs(i1), vec![VReg(4)]);
    assert_eq!(c.inst_outputs(i4), vec![VReg(19)]);
    assert_eq!(c.inst_outputs(i7), vec![VReg(20)]);
}

#[test]
fn assert_builtin_is_one_instruction() {
    let t = tys();
    let mut ir = IrData::new();
    let callee = global(&mut ir, "builtin_assert");
    let a = konst(&mut ir, 7);
    let b = konst(&mut ir, 9);
    let (id, _) = inst(&mut ir);
    let mut c = ctx(ir, t.types);
    let tys = [t.void, t.i64, t.i64];
    let args = [callee, a, b];
    assert!(call_well_formed(&c, &tys, &args));
    assert_eq!(lower_call(&mut c, id, &tys, &args), Ok(()));
    let expected = vec![mk(
        Opcode::ASSERTri,
        vec![Operand::input(OperandData::Int32(7)), Operand::input(OperandData::Int32(9))],
    )];
    assert_eq!(c.inst_seq(), &expected);
    assert_eq!(c.num_vregs(), 0);
    assert_eq!(c.inst_outputs(id), vec![]);
}

#[test]
fn assert_builtin_reads_results_in_registers() {
    let t = tys();
    let mut ir = IrData::new();
    let callee = global(&mut ir, "builtin_assert");
    let (_, a) = inst(&mut ir);
    let (_, b) = inst(&mut ir);
    let (id, _) = inst(&mut ir);
    let mut c = ctx(ir, t.types);
    assert_eq!(lower_call(&mut c, id, &[t.void, t.i64, t.i64], &[callee, a, b]), Ok(()));
    let expected =
        vec![mk(Opcode::ASSERTri, vec![Operand::input(vreg(0)), Operand::input(vreg(1))])];
    assert_eq!(c.inst_seq(), &expected);
    assert_eq!(c.vreg_type(VReg(0)), t.i64);
}

#[test]
fn range_check_builtin_is_one_instruction() {
    let t = tys();
    let mut ir = IrData::new();
    let callee = global(&mut ir, "builtin_range_check");
    let a = konst(&mut ir, 5);
    let (id, _) = inst(&mut ir);
    let mut c = ctx(ir, t.types);
    assert_eq!(lower_call(&mut c, id, &[t.void, t.i64], &[callee, a]), Ok(()));
    let expected = vec![mk(Opcode::RANGECHECK, vec![Operand::input(OperandData::Int32(5))])];
    assert_eq!(c.inst_seq(), &expected);
}

#[test]
fn unknown_builtin_is_named_in_the_error() {
    let t = tys();
    let mut ir = IrData::new();
    let callee = global(&mut ir, "builtin_check_ecdsa");
    let (id, _) = inst(&mut ir);
    let mut c = ctx(ir, t.types);
    assert_eq!(
        lower_call(&mut c, id, &[t.void], &[callee]),
        Err(LoweringError::UnrecognizedBuiltin("builtin_check_ecdsa".to_string()))
    );
    assert!(c.inst_seq().is_empty());
}

#[test]
fn callee_must_be_a_named_global() {
    let t = tys();
    let mut ir = IrData::new();
    let numbered = ir.create_value(Value::Constant(ConstantValue::GlobalRef(Name::Number(3))));
    let (_, computed) = inst(&mut ir);
    let (id, _) = inst(&mut ir);
    let mut c = ctx(ir, t.types);
    assert_eq!(
        lower_call(&mut c, id, &[t.void], &[numbered]),
        Err(LoweringError::UnsupportedCallee(numbered))
    );
    assert_eq!(
        lower_call(&mut c, id, &[t.void], &[computed]),
        Err(LoweringError::UnsupportedCallee(computed))
    );
    assert_eq!(
        lower_call(&mut c, id, &[t.void], &[ValueId(99)]),
        Err(LoweringError::UnsupportedCallee(ValueId(99)))
    );
    assert!(c.inst_seq().is_empty());
}

#[test]
fn storage_write_binds_key_then_value() {
    let t = tys();
    let mut ir = IrData::new();
    let callee = global(&mut ir, "set_storage");
    let (key_id, key) = inst(&mut ir);
    let (value_id, value) = inst(&mut ir);
    let (id, _) = inst(&mut ir);
    ir.add_user(key_id, id);
    ir.add_user(value_id, id);
    let mut c = ctx(ir, t.types);
    let tys = [t.void, t.arr4, t.arr4];
    let args = [callee, key, value];
    assert!(call_well_formed(&c, &tys, &args));
    assert_eq!(lower_call(&mut c, id, &tys, &args), Ok(()));
    let regs = [GR::R1, GR::R2, GR::R3, GR::R4, GR::R5, GR::R6, GR::R7, GR::R8];
    let mut expected: Vec<Instruction> =
        (0..8).map(|k| mov(Opcode::MOVrr, reg(regs[k]), vreg(k))).collect();
    expected.push(mk(Opcode::SSTORE, vec![]));
    assert_eq!(c.inst_seq(), &expected);
    assert_eq!(c.inst_outputs(key_id), vec![VReg(0), VReg(1), VReg(2), VReg(3)]);
    assert_eq!(c.inst_outputs(value_id), vec![VReg(4), VReg(5), VReg(6), VReg(7)]);
    assert_eq!(c.inst_outputs(id), vec![]);
    assert_eq!(c.vreg_type(VReg(5)), t.i64);
}

#[test]
fn storage_read_without_users_copies_nothing() {
    let t = tys();
    let mut ir = IrData::new();
    let callee = global(&mut ir, "get_storage");
    let zero = ir.create_value(Value::Constant(ConstantValue::AggregateZero));
    let (id, _) = inst(&mut ir);
    let mut c = ctx(ir, t.types);
    assert_eq!(lower_call(&mut c, id, &[t.arr4, t.arr4], &[callee, zero]), Ok(()));
    let seq = c.inst_seq();
    assert_eq!(seq.len(), 5);
    assert_eq!(seq[4], sload(Opcode::SLOAD));
    assert_eq!(c.num_vregs(), 0);
    assert_eq!(c.inst_outputs(id), vec![]);
}

#[test]
fn hash_with_users_copies_four_limbs() {
    let t = tys();
    let mut ir = IrData::new();
    let callee = global(&mut ir, "poseidon_hash");
    let (input_id, input) = inst(&mut ir);
    let (id, _) = inst(&mut ir);
    let (user, _) = inst(&mut ir);
    ir.add_user(input_id, id);
    ir.add_user(id, user);
    let mut c = ctx(ir, t.types);
    assert_eq!(lower_call(&mut c, id, &[t.arr4, t.arr8], &[callee, input]), Ok(()));
    let regs = [GR::R1, GR::R2, GR::R3, GR::R4, GR::R5, GR::R6, GR::R7, GR::R8];
    let mut expected: Vec<Instruction> =
        (0..8).map(|k| mov(Opcode::MOVrr, reg(regs[k]), vreg(k))).collect();
    expected.push(sload(Opcode::POSEIDON));
    for k in 0..4 {
        expected.push(mov(Opcode::MOVrr, vreg(8 + k), reg(regs[k])));
    }
    assert_eq!(c.inst_seq(), &expected);
    assert_eq!(c.inst_outputs(id), vec![VReg(8), VReg(9), VReg(10), VReg(11)]);
}

#[test]
fn storage_read_keeps_registers_given_earlier() {
    // a use that was lowered before the read has given the result one
    // register: the copies fill the first four of the five it then has
    let t = tys();
    let mut ir = IrData::new();
    let callee = global(&mut ir, "get_storage");
    let zero = ir.create_value(Value::Constant(ConstantValue::AggregateZero));
    let (id, val) = inst(&mut ir);
    let (user, _) = inst(&mut ir);
    ir.add_user(id, user);
    let mut c = ctx(ir, t.types);
    assert_eq!(get_operand_for_val(&mut c, t.i64, val), Ok(vreg(0)));
    assert_eq!(lower_call(&mut c, id, &[t.arr4, t.arr4], &[callee, zero]), Ok(()));
    assert_eq!(c.inst_outputs(id), vec![VReg(0), VReg(1), VReg(2), VReg(3), VReg(4)]);
    let seq = c.inst_seq();
    assert_eq!(seq.len(), 9);
    assert_eq!(seq[5], mov(Opcode::MOVrr, vreg(0), reg(GR::R1)));
    assert_eq!(seq[8], mov(Opcode::MOVrr, vreg(3), reg(GR::R4)));
}

#[test]
fn plain_call_binds_arguments_and_copies_a_used_result() {
    let mut t = tys();
    let fn_ty = t.types.add(TypeKind::Function(t.i64, vec![t.i64, t.i64])).unwrap();
    let mut ir = IrData::new();
    let callee = global(&mut ir, "add_two");
    let a = konst(&mut ir, 3);
    let (_, b) = inst(&mut ir);
    let (id, _) = inst(&mut ir);
    let (user, _) = inst(&mut ir);
    ir.add_user(id, user);
    let mut c = ctx(ir, t.types);
    assert_eq!(lower_call(&mut c, id, &[fn_ty, t.i64, t.i64], &[callee, a, b]), Ok(()));
    let expected = vec![
        mov(Opcode::MOVri, reg(GR::R1), OperandData::Int32(3)),
        mov(Opcode::MOVrr, reg(GR::R2), vreg(1)),
        call_inst(Opcode::CALL, "add_two"),
        mov(Opcode::MOVrr, vreg(0), reg(GR::R0)),
    ];
    assert_eq!(c.inst_seq(), &expected);
    assert_eq!(c.inst_outputs(id), vec![VReg(0)]);
    // the result register has the return type of the function type
    assert_eq!(c.vreg_type(VReg(0)), t.i64);
}

#[test]
fn plain_call_without_users_copies_nothing() {
    let t = tys();
    let mut ir = IrData::new();
    let callee = global(&mut ir, "log_it");
    let (id, _) = inst(&mut ir);
    let mut c = ctx(ir, t.types);
    assert_eq!(lower_call(&mut c, id, &[t.void], &[callee]), Ok(()));
    assert_eq!(c.inst_seq(), &vec![call_inst(Opcode::CALL, "log_it")]);
    // the raw type slot types the result register where it is no function type
    assert_eq!(c.inst_outputs(id), vec![VReg(0)]);
    assert_eq!(c.vreg_type(VReg(0)), t.void);
}

#[test]
fn prophet_call_uses_its_own_opcode() {
    let t = tys();
    let mut ir = IrData::new();
    let callee = global(&mut ir, "prophet_u32_sqrt");
    let (_, a) = inst(&mut ir);
    let (id, _) = inst(&mut ir);
    let (user, _) = inst(&mut ir);
    ir.add_user(id, user);
    let mut c = ctx(ir, t.types);
    assert_eq!(lower_call(&mut c, id, &[t.i64, t.i64], &[callee, a]), Ok(()));
    let expected = vec![
        mov(Opcode::MOVrr, reg(GR::R1), vreg(1)),
        call_inst(Opcode::PROPHET, "prophet_u32_sqrt"),
        mov(Opcode::MOVrr, vreg(0), reg(GR::R0)),
    ];
    assert_eq!(c.inst_seq(), &expected);
}

#[test]
fn more_arguments_than_registers_fail_at_the_first_without_one() {
    let t = tys();
    let mut ir = IrData::new();
    let vals: Vec<ValueId> = (0..4).map(|k| konst(&mut ir, k)).collect();
    let mut c = ctx(ir, t.types);
    let tys = [t.i64; 4];
    assert_eq!(
        pass_args_to_regs(&mut c, &tys, &vals),
        Err(LoweringError::ArgumentSlotsExhausted { needed: 4, available: 3 })
    );
    // the three arguments that have a register are bound by then
    let expected = vec![
        mov(Opcode::MOVri, reg(GR::R1), OperandData::Int32(0)),
        mov(Opcode::MOVri, reg(GR::R2), OperandData::Int32(1)),
        mov(Opcode::MOVri, reg(GR::R3), OperandData::Int32(2)),
    ];
    assert_eq!(c.inst_seq(), &expected);
    // three arguments fit
    assert_eq!(pass_args_to_regs(&mut c, &tys[..3], &vals[..3]), Ok(()));
    assert_eq!(c.inst_seq().len(), 6);
    assert_eq!(c.inst_seq()[5], mov(Opcode::MOVri, reg(GR::R3), OperandData::Int32(2)));
}

#[test]
fn a_convention_without_registers_takes_no_argument() {
    let t = tys();
    let mut ir = IrData::new();
    let a = konst(&mut ir, 1);
    let mut c = LoweringContext::new(ir, t.types, CallConv::new(vec![], vec![]), BLOCK);
    assert_eq!(
        pass_args_to_regs(&mut c, &[t.i64], &[a]),
        Err(LoweringError::ArgumentSlotsExhausted { needed: 1, available: 0 })
    );
    assert_eq!(pass_args_to_regs(&mut c, &[], &[]), Ok(()));
    assert!(c.inst_seq().is_empty());
}

#[test]
fn more_limbs_than_registers_fail_at_the_first_without_one() {
    let t = tys();
    let mut ir = IrData::new();
    let (_, a) = inst(&mut ir);
    let (_, b) = inst(&mut ir);
    let mut c = ctx(ir, t.types);
    assert_eq!(
        pass_str_args_to_regs(&mut c, &[t.arr8, t.arr8], &[a, b]),
        Err(LoweringError::ArgumentSlotsExhausted { needed: 16, available: 8 })
    );
    // the eight limbs that have a register are bound by then
    let regs = [GR::R1, GR::R2, GR::R3, GR::R4, GR::R5, GR::R6, GR::R7, GR::R8];
    let expected: Vec<Instruction> =
        (0..8).map(|k| mov(Opcode::MOVrr, reg(regs[k]), vreg(k))).collect();
    assert_eq!(c.inst_seq(), &expected);
}

#[test]
fn argument_in_a_narrow_register_is_refused_with_its_size() {
    let t = tys();
    let mut ir = IrData::new();
    let (_, narrow) = inst(&mut ir);
    let (_, wide) = inst(&mut ir);
    let (_, word) = inst(&mut ir);
    let (_, pointer) = inst(&mut ir);
    let mut c = ctx(ir, t.types);
    assert_eq!(pass_args_to_regs(&mut c, &[t.i32, t.ptr], &[word, pointer]), Ok(()));
    assert_eq!(
        pass_args_to_regs(&mut c, &[t.i8], &[narrow]),
        Err(LoweringError::UnsupportedArgumentSize(1))
    );
    assert_eq!(
        pass_args_to_regs(&mut c, &[t.arr4], &[wide]),
        Err(LoweringError::UnsupportedArgumentSize(32))
    );
}

#[test]
fn label_is_no_argument() {
    let t = tys();
    let mut ir = IrData::new();
    let f = global(&mut ir, "helper");
    let mut c = ctx(ir, t.types);
    assert_eq!(
        pass_args_to_regs(&mut c, &[t.ptr], &[f]),
        Err(LoweringError::UnsupportedArgument(f))
    );
    assert_eq!(
        pass_str_args_to_regs(&mut c, &[t.arr4], &[f]),
        Err(LoweringError::UnsupportedStorageArgument(0))
    );
    assert!(c.inst_seq().is_empty());
}

#[test]
fn unsupported_values() {
    let t = tys();
    let mut ir = IrData::new();
    let undef = ir.create_value(Value::Constant(ConstantValue::Undef));
    let array = ir.create_value(Value::Constant(ConstantValue::Array(vec![1, 2])));
    let dangling = ir.create_value(Value::Instruction(InstructionId(40)));
    let mut c = ctx(ir, t.types);
    assert_eq!(get_operand_for_val(&mut c, t.i64, undef), Err(LoweringError::UnsupportedValue(undef)));
    assert_eq!(get_operand_for_val(&mut c, t.arr4, array), Err(LoweringError::UnsupportedValue(array)));
    assert_eq!(
        get_operand_for_val(&mut c, t.i64, dangling),
        Err(LoweringError::UnsupportedValue(dangling))
    );
    assert_eq!(
        get_operands_for_val(&mut c, t.arr4, dangling),
        Err(LoweringError::UnsupportedValue(dangling))
    );
    assert_eq!(
        get_operands_for_val(&mut c, t.arr4, undef),
        Err(LoweringError::UnsupportedValue(undef))
    );
    assert_eq!(
        get_operand_for_val(&mut c, t.i64, ValueId(1000)),
        Err(LoweringError::UnsupportedValue(ValueId(1000)))
    );
    assert!(c.inst_seq().is_empty());
    assert_eq!(c.num_vregs(), 0);
}

#[test]
fn same_value_gets_the_same_register() {
    let t = tys();
    let mut ir = IrData::new();
    let (id, val) = inst(&mut ir);
    let mut c = ctx(ir, t.types);
    assert_eq!(get_operand_for_val(&mut c, t.i64, val), Ok(vreg(0)));
    assert_eq!(get_operand_for_val(&mut c, t.i64, val), Ok(vreg(0)));
    assert_eq!(get_vreg_for_val(&mut c, t.i64, val), Ok(VReg(0)));
    assert_eq!(get_operands_for_val(&mut c, t.arr4, val), Ok(vec![vreg(0)]));
    assert_eq!(c.num_vregs(), 1);
    assert_eq!(c.inst_outputs(id), vec![VReg(0)]);
    assert!(c.inst_seq().is_empty());
}

#[test]
fn compound_materialization() {
    let t = tys();
    let mut ir = IrData::new();
    let (id, val) = inst(&mut ir);
    let zero = ir.create_value(Value::Constant(ConstantValue::AggregateZero));
    let seven = konst(&mut ir, 7);
    let array = ir.create_value(Value::Constant(ConstantValue::Array(vec![11, 12])));
    let mut c = ctx(ir, t.types);
    assert_eq!(
        get_operands_for_val(&mut c, t.arr4, val),
        Ok(vec![vreg(0), vreg(1), vreg(2), vreg(3)])
    );
    assert_eq!(c.inst_outputs(id).len(), 4);
    assert_eq!(c.vreg_type(VReg(3)), t.i64);
    assert_eq!(get_operands_for_val(&mut c, t.arr8, zero).unwrap().len(), 8);
    assert_eq!(get_operands_for_val(&mut c, t.i64, zero), Ok(vec![OperandData::Int32(0)]));
    assert_eq!(get_operands_for_val(&mut c, t.i64, seven), Ok(vec![OperandData::Int32(7)]));
    assert!(c.inst_seq().is_empty());
    assert_eq!(get_operands_for_val(&mut c, t.arr4, array), Ok(vec![vreg(4), vreg(5)]));
    let expected = vec![
        mov(Opcode::MOVri, vreg(4), OperandData::Int32(11)),
        mov(Opcode::MOVri, vreg(5), OperandData::Int32(12)),
    ];
    assert_eq!(c.inst_seq(), &expected);
}

#[test]
fn immediate_is_staged_into_a_register() {
    let t = tys();
    let mut ir = IrData::new();
    let seven = konst(&mut ir, 7);
    let f = global(&mut ir, "f");
    let mut c = ctx(ir, t.types);
    assert_eq!(get_vreg_for_val(&mut c, t.i64, seven), Ok(VReg(0)));
    assert_eq!(c.inst_seq(), &vec![mov(Opcode::MOVri, vreg(0), OperandData::Int32(7))]);
    assert_eq!(c.vreg_type(VReg(0)), t.i64);
    assert_eq!(get_vreg_for_val(&mut c, t.i64, f), Err(LoweringError::UnsupportedValue(f)));
}

#[test]
fn extract_selects_each_limb() {
    for k in 0..4 {
        let t = tys();
        let mut ir = IrData::new();
        let (_, compound) = inst(&mut ir);
        let index = konst(&mut ir, k);
        let (id, _) = inst(&mut ir);
        let mut c = ctx(ir, t.types);
        assert_eq!(lower_extractvalue(&mut c, id, &t.arr4, &[compound, index]), Ok(()));
        assert_eq!(c.inst_seq(), &vec![mov(Opcode::MOVrr, vreg(4), vreg(k as usize))]);
        assert_eq!(c.vreg_type(VReg(4)), t.i64);
    }
}

#[test]
fn extract_index_must_be_a_constant_in_range() {
    let t = tys();
    let mut ir = IrData::new();
    let (_, compound) = inst(&mut ir);
    let (_, computed) = inst(&mut ir);
    let four = konst(&mut ir, 4);
    let minus = konst(&mut ir, -1);
    let f = global(&mut ir, "f");
    let (id, _) = inst(&mut ir);
    let mut c = ctx(ir, t.types);
    assert_eq!(
        lower_extractvalue(&mut c, id, &t.arr4, &[compound, four]),
        Err(LoweringError::ExtractIndexOutOfRange { index: 4, limbs: 4 })
    );
    assert_eq!(
        lower_extractvalue(&mut c, id, &t.arr4, &[compound, minus]),
        Err(LoweringError::ExtractIndexOutOfRange { index: -1, limbs: 4 })
    );
    assert_eq!(
        lower_extractvalue(&mut c, id, &t.arr4, &[compound, computed]),
        Err(LoweringError::UnsupportedExtractIndex(computed))
    );
    assert_eq!(
        lower_extractvalue(&mut c, id, &t.arr4, &[compound, f]),
        Err(LoweringError::UnsupportedExtractIndex(f))
    );
    assert!(c.inst_seq().is_empty());
    assert_eq!(c.inst_outputs(id), vec![]);
}

#[test]
fn return_without_value_is_one_instruction() {
    let t = tys();
    let mut c = ctx(IrData::new(), t.types);
    assert_eq!(lower_return(&mut c, None), Ok(()));
    assert_eq!(c.inst_seq(), &vec![ret()]);
}

#[test]
fn return_copies_a_word_into_the_return_register() {
    let t = tys();
    let mut ir = IrData::new();
    let (_, a) = inst(&mut ir);
    let five = konst(&mut ir, 5);
    let (_, p) = inst(&mut ir);
    let mut c = ctx(ir, t.types);
    assert_eq!(lower_return(&mut c, Some((t.i32, a))), Ok(()));
    assert_eq!(lower_return(&mut c, Some((t.i64, five))), Ok(()));
    assert_eq!(lower_return(&mut c, Some((t.ptr, p))), Ok(()));
    let expected = vec![
        mov(Opcode::MOVrr, reg(GR::R0), vreg(0)),
        ret(),
        mov(Opcode::MOVri, vreg(1), OperandData::Int32(5)),
        mov(Opcode::MOVrr, reg(GR::R0), vreg(1)),
        ret(),
        mov(Opcode::MOVrr, reg(GR::R0), vreg(2)),
        ret(),
    ];
    assert_eq!(c.inst_seq(), &expected);
}

#[test]
fn return_refuses_other_types_and_widths() {
    let t = tys();
    let mut ir = IrData::new();
    let (_, a) = inst(&mut ir);
    let (_, b) = inst(&mut ir);
    let undef = ir.create_value(Value::Constant(ConstantValue::Undef));
    let mut c = ctx(ir, t.types);
    assert_eq!(
        lower_return(&mut c, Some((t.arr4, a))),
        Err(LoweringError::UnsupportedReturnType(t.arr4))
    );
    assert_eq!(
        lower_return(&mut c, Some((t.i8, b))),
        Err(LoweringError::UnsupportedReturnWidth(1))
    );
    assert_eq!(
        lower_return(&mut c, Some((t.i64, undef))),
        Err(LoweringError::UnsupportedValue(undef))
    );
    assert!(c.inst_seq().is_empty());
}

#[test]
fn lowering_twice_gives_the_same_stream() {
    let build = || {
        let t = tys();
        let mut ir = IrData::new();
        let callee = global(&mut ir, "poseidon_hash");
        let a = ir.create_value(Value::Constant(ConstantValue::Array(vec![1, 2, 3, 4])));
        let (_, b) = inst(&mut ir);
        let (id, val) = inst(&mut ir);
        let (user, _) = inst(&mut ir);
        ir.add_user(id, user);
        let one = konst(&mut ir, 1);
        let mut c = ctx(ir, t.types);
        assert_eq!(lower_call(&mut c, id, &[t.arr4, t.arr4, t.arr4], &[callee, a, b]), Ok(()));
        assert_eq!(lower_extractvalue(&mut c, user, &t.arr4, &[val, one]), Ok(()));
        assert_eq!(lower_return(&mut c, None), Ok(()));
        c
    };
    let first = build();
    let second = build();
    assert_eq!(first.inst_seq(), second.inst_seq());
    assert_eq!(first.num_vregs(), second.num_vregs());
    assert_eq!(first.inst_seq().len(), 4 + 8 + 1 + 4 + 1 + 1);
}

#[test]
fn instructions_go_to_the_current_block() {
    let t = tys();
    let mut c = ctx(IrData::new(), t.types);
    let second = c.map_block(MachBlockId(11));
    assert_eq!(lower_return(&mut c, None), Ok(()));
    assert!(c.set_cur_block(second));
    assert_eq!(lower_return(&mut c, None), Ok(()));
    assert!(!c.set_cur_block(ola_lower::ir::BlockId(2)));
    assert_eq!(c.cur_mach_block(), MachBlockId(11));
    assert_eq!(c.inst_seq()[0].parent, MachBlockId(10));
    assert_eq!(c.inst_seq()[1].parent, MachBlockId(11));
}

#[test]
fn callee_names() {
    assert_eq!(classify("builtin_assert"), CalleeKind::BuiltinAssert);
    assert_eq!(classify("builtin_range_check"), CalleeKind::BuiltinRangeCheck);
    assert_eq!(classify("builtin"), CalleeKind::UnknownBuiltin);
    assert_eq!(classify("builtin_assert2"), CalleeKind::UnknownBuiltin);
    assert_eq!(classify("set_storage"), CalleeKind::StorageWrite);
    assert_eq!(classify("get_storage"), CalleeKind::StorageRead);
    assert_eq!(classify("poseidon_hash"), CalleeKind::Hash);
    assert_eq!(classify("prophet_u32_mod"), CalleeKind::Prophet);
    assert_eq!(classify("prophet"), CalleeKind::Prophet);
    assert_eq!(classify("get_storage2"), CalleeKind::Plain);
    assert_eq!(classify("my_builtin"), CalleeKind::Plain);
    assert_eq!(classify(""), CalleeKind::Plain);
    assert_eq!(classify("vector_new"), CalleeKind::Plain);
}

#[test]
fn call_shape() {
    let t = tys();
    let mut ir = IrData::new();
    let assert_fn = global(&mut ir, "builtin_assert");
    let store = global(&mut ir, "set_storage");
    let plain = global(&mut ir, "f");
    let a = konst(&mut ir, 1);
    let c = ctx(ir, t.types);
    assert!(!call_well_formed(&c, &[], &[]));
    assert!(!call_well_formed(&c, &[t.void], &[assert_fn, a]));
    assert!(!call_well_formed(&c, &[t.void, t.i64], &[assert_fn, a]));
    assert!(call_well_formed(&c, &[t.void, t.i64, t.i64], &[assert_fn, a, a]));
    assert!(!call_well_formed(&c, &[t.void], &[store]));
    assert!(call_well_formed(&c, &[t.void, t.arr4], &[store, a]));
    assert!(call_well_formed(&c, &[t.void], &[plain]));
    assert!(call_well_formed(&c, &[t.void], &[ValueId(77)]));
}

#[test]
fn type_table() {
    let mut types = Types::new();
    assert_eq!(types.add(TypeKind::Pointer(Type(0))), None);
    assert_eq!(types.add(TypeKind::Array(Type(3), 2)), None);
    let i16 = types.add(TypeKind::Int(16)).unwrap();
    let i1 = types.add(TypeKind::Int(1)).unwrap();
    assert_eq!(types.add(TypeKind::Function(i16, vec![i1, Type(9)])), None);
    assert_eq!(types.add(TypeKind::Function(Type(9), vec![])), None);
    let f = types.add(TypeKind::Function(i16, vec![i1])).unwrap();
    let arr = types.add(TypeKind::Array(i16, 3)).unwrap();
    let nested = types.add(TypeKind::Array(arr, 5)).unwrap();
    let ptr = types.add(TypeKind::Pointer(nested)).unwrap();
    assert_eq!(types.len(), 6);
    assert_eq!(types.size_of(i16), 2);
    assert_eq!(types.size_of(i1), 1);
    assert_eq!(types.size_of(f), 0);
    assert_eq!(types.size_of(arr), 6);
    assert_eq!(types.size_of(nested), 30);
    assert_eq!(types.size_of(ptr), 8);
    assert_eq!(types.size_of(Type(100)), 0);
    assert_eq!(types.element(arr), Some(i16));
    assert_eq!(types.element(ptr), None);
    assert_eq!(types.limb_type(nested), arr);
    assert_eq!(types.limb_type(i16), i16);
    assert_eq!(types.limb_count(nested), 5);
    assert_eq!(types.limb_count(ptr), 1);
    assert_eq!(types.return_type(f), i16);
    assert_eq!(types.return_type(arr), arr);
    assert!(types.is_integer(i1) && !types.is_integer(ptr));
    assert!(types.is_pointer(ptr) && !types.is_pointer(arr));
}

#[test]
fn array_size_stops_at_the_largest_u64() {
    let mut types = Types::new();
    let mut ty = types.add(TypeKind::Int(64)).unwrap();
    for _ in 0..3 {
        ty = types.add(TypeKind::Array(ty, u32::MAX)).unwrap();
    }
    assert_eq!(types.size_of(ty), u64::MAX);
}

#[test]
fn registers() {
    assert_eq!(GR::R0.reg(), Reg { class: ola_lower::register::RegClass::GR, index: 0 });
    assert_eq!(GR::R9.index(), 9);
    assert_eq!(ola_lower::register::return_reg(), GR::R0.reg());
    assert_eq!(ola_lower::register::wide_result_reg(0), GR::R1.reg());
    assert_eq!(ola_lower::register::wide_result_reg(3), GR::R4.reg());
    let cc = CallConv::ola();
    assert_eq!(cc.arg_reg_list(), &vec![GR::R1.reg(), GR::R2.reg(), GR::R3.reg()]);
    assert_eq!(cc.str_arg_reg_list().len(), 8);
    assert_eq!(cc.str_arg_reg_list()[7], GR::R8.reg());
}

#[test]
fn storage_read_with_two_extracts() {
    let t = tys();
    let mut ir = IrData::new();
    let callee = global(&mut ir, "get_storage");
    let (key_id, key) = inst(&mut ir);
    let (read, result) = inst(&mut ir);
    let (first, _) = inst(&mut ir);
    let (second, _) = inst(&mut ir);
    let two = konst(&mut ir, 2);
    let three = konst(&mut ir, 3);
    ir.add_user(key_id, read);
    ir.add_user(read, first);
    ir.add_user(read, second);
    let mut c = ctx(ir, t.types);
    assert_eq!(lower_call(&mut c, read, &[t.arr4, t.arr4], &[callee, key]), Ok(()));
    assert_eq!(lower_extractvalue(&mut c, first, &t.arr4, &[result, two]), Ok(()));
    assert_eq!(lower_extractvalue(&mut c, second, &t.arr4, &[result, three]), Ok(()));
    let expected = vec![
        mov(Opcode::MOVrr, reg(GR::R1), vreg(0)),
        mov(Opcode::MOVrr, reg(GR::R2), vreg(1)),
        mov(Opcode::MOVrr, reg(GR::R3), vreg(2)),
        mov(Opcode::MOVrr, reg(GR::R4), vreg(3)),
        sload(Opcode::SLOAD),
        mov(Opcode::MOVrr, vreg(4), reg(GR::R1)),
        mov(Opcode::MOVrr, vreg(5), reg(GR::R2)),
        mov(Opcode::MOVrr, vreg(6), reg(GR::R3)),
        mov(Opcode::MOVrr, vreg(7), reg(GR::R4)),
        mov(Opcode::MOVrr, vreg(8), vreg(6)),
        mov(Opcode::MOVrr, vreg(9), vreg(7)),
    ];
    assert_eq!(c.inst_seq(), &expected);
}

#[test]
fn second_reading_changes_nothing() {
    let t = tys();
    let mut ir = IrData::new();
    let (_, val) = inst(&mut ir);
    let mut c = ctx(ir, t.types);
    let first = get_operands_for_val(&mut c, t.arr8, val);
    let vregs = c.num_vregs();
    let second = get_operands_for_val(&mut c, t.arr8, val);
    assert_eq!(first, second);
    assert_eq!(first.unwrap().len(), 8);
    assert_eq!(c.num_vregs(), vregs);
    assert!(c.inst_seq().is_empty());
}

#[test]
fn registers_keep_their_types() {
    let t = tys();
    let mut ir = IrData::new();
    let callee = global(&mut ir, "f");
    let (_, a) = inst(&mut ir);
    let (id, _) = inst(&mut ir);
    let mut c = ctx(ir, t.types);
    assert_eq!(get_operand_for_val(&mut c, t.i32, a), Ok(vreg(0)));
    assert_eq!(lower_call(&mut c, id, &[t.ptr, t.i64], &[callee, a]), Ok(()));
    assert_eq!(c.vreg_type(VReg(0)), t.i32);
    assert_eq!(c.vreg_type(VReg(1)), t.ptr);
    assert_eq!(c.num_vregs(), 2);
}

#[test]
fn each_virtual_register_is_written_once() {
    let t = tys();
    let mut ir = IrData::new();
    let get_storage = global(&mut ir, "get_storage");
    let hash = global(&mut ir, "poseidon_hash");
    let plain = global(&mut ir, "f");
    let key = ir.create_value(Value::Constant(ConstantValue::Array(vec![1, 2, 3, 4])));
    let one = konst(&mut ir, 1);
    let (read, read_val) = inst(&mut ir);
    let (hashed, hashed_val) = inst(&mut ir);
    let (limb, limb_val) = inst(&mut ir);
    let (called, called_val) = inst(&mut ir);
    ir.add_user(read, hashed);
    ir.add_user(hashed, limb);
    ir.add_user(limb, called);
    ir.add_user(called, called);
    let mut c = ctx(ir, t.types);
    assert_eq!(lower_call(&mut c, read, &[t.arr4, t.arr4], &[get_storage, key]), Ok(()));
    assert_eq!(
        lower_call(&mut c, hashed, &[t.arr4, t.arr4, t.arr4], &[hash, read_val, key]),
        Ok(())
    );
    assert_eq!(lower_extractvalue(&mut c, limb, &t.arr4, &[hashed_val, one]), Ok(()));
    assert_eq!(lower_call(&mut c, called, &[t.i64, t.i64, t.i64], &[plain, limb_val, one]), Ok(()));
    assert_eq!(lower_return(&mut c, Some((t.i64, called_val))), Ok(()));
    assert_eq!(lower_return(&mut c, Some((t.i64, one))), Ok(()));

    let mut writers = vec![0usize; c.num_vregs()];
    for inst in c.inst_seq() {
        for operand in &inst.data.operands {
            if let (true, OperandData::VReg(v)) = (operand.output, &operand.data) {
                writers[v.0] += 1;
            }
        }
    }
    assert_eq!(c.num_vregs(), 4 + 4 + 4 + 4 + 1 + 1 + 1);
    assert!(writers.iter().all(|&n| n == 1), "{writers:?}");
}

#[test]
fn the_first_argument_that_fails_decides() {
    // four arguments for three registers: the failure of an argument that
    // stands before the one without a register is the failure of the binding
    let t = tys();
    let mut ir = IrData::new();
    let (_, narrow) = inst(&mut ir);
    let f = global(&mut ir, "helper");
    let undef = ir.create_value(Value::Constant(ConstantValue::Undef));
    let one = konst(&mut ir, 1);
    let mut c = ctx(ir, t.types);
    assert_eq!(
        pass_args_to_regs(&mut c, &[t.i8, t.i64, t.i64, t.i64], &[narrow, one, one, one]),
        Err(LoweringError::UnsupportedArgumentSize(1))
    );
    assert!(c.inst_seq().is_empty());
    assert_eq!(
        pass_args_to_regs(&mut c, &[t.i64, t.ptr, t.i64, t.i64], &[one, f, one, one]),
        Err(LoweringError::UnsupportedArgument(f))
    );
    assert_eq!(c.inst_seq(), &vec![mov(Opcode::MOVri, reg(GR::R1), OperandData::Int32(1))]);
    // the argument without a register is read before its register is missed
    assert_eq!(
        pass_args_to_regs(&mut c, &[t.i64, t.i64, t.i64, t.i64], &[one, one, one, undef]),
        Err(LoweringError::UnsupportedValue(undef))
    );
    assert_eq!(c.inst_seq().len(), 4);
    // and its register is missed before its move is chosen
    assert_eq!(
        pass_args_to_regs(&mut c, &[t.i64, t.i64, t.i64, t.ptr], &[one, one, one, f]),
        Err(LoweringError::ArgumentSlotsExhausted { needed: 4, available: 3 })
    );
    assert_eq!(c.inst_seq().len(), 7);
}

#[test]
fn the_first_limb_that_fails_decides() {
    let t = tys();
    let mut ir = IrData::new();
    let f = global(&mut ir, "helper");
    let (_, wide) = inst(&mut ir);
    let mut c = ctx(ir, t.types);
    // a label as the first of nine limbs
    assert_eq!(
        pass_str_args_to_regs(&mut c, &[t.ptr, t.arr8], &[f, wide]),
        Err(LoweringError::UnsupportedStorageArgument(0))
    );
    assert!(c.inst_seq().is_empty());
    // a label as the ninth limb has no register
    assert_eq!(
        pass_str_args_to_regs(&mut c, &[t.arr8, t.ptr], &[wide, f]),
        Err(LoweringError::ArgumentSlotsExhausted { needed: 9, available: 8 })
    );
    assert_eq!(c.inst_seq().len(), 8);
}

#[test]
fn limb_in_a_narrow_register_is_refused_with_its_size() {
    let mut t = tys();
    let bytes = t.types.add(TypeKind::Array(t.i8, 4)).unwrap();
    let mut ir = IrData::new();
    let callee = global(&mut ir, "get_storage");
    let (_, key) = inst(&mut ir);
    let (_, words) = inst(&mut ir);
    let (_, halves) = inst(&mut ir);
    let (id, _) = inst(&mut ir);
    let mut c = ctx(ir, t.types);
    assert_eq!(
        pass_str_args_to_regs(&mut c, &[bytes], &[key]),
        Err(LoweringError::UnsupportedArgumentSize(1))
    );
    assert!(c.inst_seq().is_empty());
    assert_eq!(c.inst_outputs(InstructionId(0)).len(), 4);
    // a limb of four bytes is a word
    assert_eq!(pass_str_args_to_regs(&mut c, &[t.i32], &[halves]), Ok(()));
    assert_eq!(c.inst_seq().len(), 1);
    // the narrow limb of a second argument stops the call
    assert_eq!(
        lower_call(&mut c, id, &[t.arr4, t.arr4, bytes], &[callee, words, key]),
        Err(LoweringError::UnsupportedArgumentSize(1))
    );
    assert_eq!(c.inst_seq().len(), 1 + 4);
}

#[test]
fn each_storage_argument_is_read_at_its_own_type() {
    let t = tys();
    let mut ir = IrData::new();
    let zero = ir.create_value(Value::Constant(ConstantValue::AggregateZero));
    let (first, a) = inst(&mut ir);
    let (second, b) = inst(&mut ir);
    let mut c = ctx(ir, t.types);
    // four and eight limbs are twelve for eight registers
    assert_eq!(
        pass_str_args_to_regs(&mut c, &[t.arr4, t.arr8], &[zero, zero]),
        Err(LoweringError::ArgumentSlotsExhausted { needed: 12, available: 8 })
    );
    assert_eq!(c.inst_seq().len(), 8);
    // one limb and four limbs
    assert_eq!(pass_str_args_to_regs(&mut c, &[t.i64, t.arr4], &[a, b]), Ok(()));
    assert_eq!(c.inst_seq().len(), 8 + 5);
    assert_eq!(c.inst_outputs(first), vec![VReg(0)]);
    assert_eq!(c.inst_outputs(second), vec![VReg(1), VReg(2), VReg(3), VReg(4)]);
    assert_eq!(c.vreg_type(VReg(0)), t.i64);
    assert_eq!(c.vreg_type(VReg(4)), t.i64);
}

#[test]
fn call_without_a_named_callee_needs_no_types() {
    let t = tys();
    let mut ir = IrData::new();
    let numbered = ir.create_value(Value::Constant(ConstantValue::GlobalRef(Name::Number(3))));
    let one = konst(&mut ir, 1);
    let (id, _) = inst(&mut ir);
    let mut c = ctx(ir, t.types);
    assert!(call_well_formed(&c, &[], &[numbered, one]));
    assert_eq!(
        lower_call(&mut c, id, &[], &[numbered, one]),
        Err(LoweringError::UnsupportedCallee(numbered))
    );
    assert_eq!(ola_lower::lower::call::callee_name(&c, numbered), None);
    assert!(c.inst_seq().is_empty());
}
