use simple_vm::cpu::instructions::{
    BinArithOp, DataOp, FlowOp, Instruction, OtherOp, RegOrImm, Register, StackOp, TestOp,
    UnaryArithOp,
};

#[test]
fn neg_from_str(){
    assert_eq!(Instruction::from_str("NEG R1").unwrap(), Instruction::UnaryArith{op: UnaryArithOp::NEG, arg: Register::R1});
}
#[test]
fn mul_from_str_reg(){
    assert_eq!(Instruction::from_str("MUL R1 R1 R2").unwrap(), Instruction::BinArith{op: BinArithOp::MUL, dst: Register::R1, arg1: Register::R1, arg2: RegOrImm::Reg(Register::R2)})
}
#[test]
fn mul_from_str_imm(){
    assert_eq!(Instruction::from_str("MUL R1 R1 3").unwrap(), Instruction::BinArith{op: BinArithOp::MUL, dst: Register::R1, arg1: Register::R1, arg2: RegOrImm::Val(3)})
}
#[test]
fn  mov_from_str_reg(){
    assert_eq!(Instruction::from_str("MOV R1 R2").unwrap(), Instruction::Data{op: DataOp::MOV, dst: Register::R1, src:RegOrImm::Reg(Register::R2)})
}
#[test]
fn  mov_from_str_imm(){
    assert_eq!(Instruction::from_str("MOV R1 3").unwrap(), Instruction::Data{op: DataOp::MOV, dst: Register::R1, src:RegOrImm::Val(3)})
}
#[test]
fn  push_from_str(){
    assert_eq!(Instruction::from_str("PUSH R1").unwrap(), Instruction::Stack{op: StackOp::PUSH, dst: Register::R1})
}
#[test]
fn  tstg_from_str_reg(){
    assert_eq!(Instruction::from_str("TSTG R1 R2").unwrap(), Instruction::Test{op: TestOp::TSTG, arg1:Register::R1, arg2:RegOrImm::Reg(Register::R2)})
}
#[test]
fn  tstg_from_str_imm(){
    assert_eq!(Instruction::from_str("TSTG R1 3").unwrap(), Instruction::Test{op: TestOp::TSTG, arg1:Register::R1, arg2:RegOrImm::Val(3)})
}
#[test]
fn  tjmp_from_str(){
    assert_eq!(Instruction::from_str("TJMP 10").unwrap(), Instruction::Flow{op: FlowOp::TJMP, offset: 10})
}
#[test]
fn  halt_from_str(){
    assert_eq!(Instruction::from_str("HALT").unwrap(), Instruction::Other{op: OtherOp::HALT})
}
#[test]
fn  ret_from_str(){
    assert_eq!(Instruction::from_str("RET").unwrap(), Instruction::Other{op: OtherOp::RET})
}
