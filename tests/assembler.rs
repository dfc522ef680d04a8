use simple_vm::cpu::instructions::{
    BinArithOp, DataOp, FlowOp, Instruction, OtherOp, RegOrImm, Register, StackOp, TestOp,
};
use simple_vm::operating_system::assembler::{assemble, extract_data, gen_symbol_table};

#[test]
fn test_simple_program() {
    let program = "
    MOV R1 3
    ADD R1 R2 R3
    TSTE R1 R2
    PUSH R2
    HALT
    ";
    let exec = assemble(program).unwrap();
    let isntructions = &exec.code;
    if let Instruction::Data {
        ref op,
        ref dst,
        ref src,
    } = isntructions[0]
    {
        assert!(*op == DataOp::MOV);
        assert!(*dst == Register::R1);
        assert!(*src == RegOrImm::Val(3));
    } else {
        panic!();
    }
    if let Instruction::BinArith {
        ref op,
        ref dst,
        ref arg1,
        ref arg2,
    } = isntructions[1]
    {
        assert!(*op == BinArithOp::ADD);
        assert!(*dst == Register::R1);
        assert!(*arg1 == Register::R2);
        assert!(*arg2 == RegOrImm::Reg(Register::R3));
    } else {
        panic!();
    }
    if let Instruction::Test {
        ref op,
        ref arg1,
        ref arg2,
    } = isntructions[2]
    {
        assert!(*op == TestOp::TSTE);
        assert!(*arg1 == Register::R1);
        assert!(*arg2 == RegOrImm::Reg(Register::R2));
    } else {
        panic!();
    }
    if let Instruction::Stack { ref op, ref dst } = isntructions[3] {
        assert!(*op == StackOp::PUSH);
        assert!(*dst == Register::R2);
    } else {
        panic!();
    }
    if let Instruction::Other { ref op } = isntructions[4] {
        assert!(*op == OtherOp::HALT);
    } else {
        panic!();
    }
}
#[test]
fn test_symbol_table() {
    let program = "
    L1:
    MUL R1 R2 5
    JUMP L2
    L3:
    ADD R1 R1 1
    HALT
    L2:
    SUB R2 R2 R1
    TJMP L3
    ";
    let exec = assemble(program).unwrap();

    // println!("{:?}", symbol_table);
    assert_eq!(*exec.symbol_table.get("L1").unwrap(), 0);
    assert_eq!(*exec.symbol_table.get("L3").unwrap(), 2);
    assert_eq!(*exec.symbol_table.get("L2").unwrap(), 4);
    if let Instruction::Flow { ref op, ref offset } = exec.code[1] {
        assert_eq!(*op, FlowOp::JUMP);
        assert_eq!(*offset, 3);
    }
    if let Instruction::Flow { ref op, ref offset } = exec.code[5] {
        assert_eq!(*op, FlowOp::TJMP);
        assert_eq!(*offset, -3);
    }
}
#[test]
fn test_data() {
    let program = "
    .stringz s1 hello
    .stringz s2 world
    LEA R1 s1
    ADD R1 R1 1
    LOAD R1 R1
    LEA R2 s2
    ADD R2 R2 2
    LOAD R2 R2
    ";
    let exec = assemble(program).unwrap();
    assert_eq!(exec.data.len(), 12);
    assert_eq!(*exec.data_table.get("s1").unwrap(), 0);
    assert_eq!(*exec.data_table.get("s2").unwrap(), 6);
    assert_eq!(exec.data[0] , 'h' as i32);
    assert_eq!(exec.data[5] , 0);
    assert_eq!(exec.data[6] , 'w' as i32);
    assert_eq!(exec.data[11] , 0);
}

#[test]
fn per_unit_symbols_and_data() {
    let program = "
        .stringz s1 hi
        L1:
        MOV R1 1
        L2:
        HALT
        ";
    let (symbols, n) = gen_symbol_table(program).unwrap();
    assert_eq!(n, 2);
    assert_eq!(*symbols.get("L1").unwrap(), 0);
    assert_eq!(*symbols.get("L2").unwrap(), 1);
    let (data, table) = extract_data(program).unwrap();
    assert_eq!(data, vec!['h' as i32, 'i' as i32, 0]);
    assert_eq!(*table.get("s1").unwrap(), 0);
}
