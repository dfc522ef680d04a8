//! The simulated CPU: registers, sparse word memory, and the
//! fetch-execute-advance step.
use vstd::prelude::*;

pub mod instructions;

use std::collections::HashMap;
use self::instructions::{
    BinArithOp, DataOp, FlowOp, Instruction, OtherOp, RegOrImm, Register, StackOp, TestOp,
    UnaryArithOp,
};

verus! {

broadcast use vstd::std_specs::hash::group_hash_axioms;

/// A fatal condition met while executing.
#[derive(Debug, PartialEq, Eq, Structural, Clone, Copy)]
pub enum RuntimeError {
    /// The address holds nothing.
    InvalidAddress(u32),
    /// A number was wanted and the cell holds an instruction.
    NotNumeric(u32),
    /// An instruction was fetched and the cell holds a number.
    NotInstruction(u32),
    DivideByZero,
}

impl BinArithOp {
    /// Wrapping 32-bit arithmetic; `None` on a zero divisor.
    pub open spec fn apply(self, x: i32, y: i32) -> Option<i32> {
        match self {
            BinArithOp::ADD => Some(x.wrapping_add(y)),
            BinArithOp::SUB => Some(x.wrapping_sub(y)),
            BinArithOp::MUL => Some(x.wrapping_mul(y)),
            BinArithOp::DIV => if y == 0 {
                None
            } else if x == i32::MIN && y == -1 {
                Some(i32::MIN)
            } else {
                x.checked_div(y)
            },
            BinArithOp::MOD => if y == 0 {
                None
            } else if x == i32::MIN && y == -1 {
                Some(0)
            } else {
                x.checked_rem(y)
            },
            BinArithOp::AND => Some(x & y),
            BinArithOp::OR => Some(x | y),
            BinArithOp::SHL => Some(x.wrapping_shl(y as u32)),
            BinArithOp::SHR => Some(x.wrapping_shr(y as u32)),
            BinArithOp::XOR => Some(x ^ y),
        }
    }

    pub fn eval(&self, x: i32, y: i32) -> (r: Option<i32>)
        ensures
            r == self.apply(x, y),
    {
        match self {
            BinArithOp::ADD => Some(x.wrapping_add(y)),
            BinArithOp::SUB => Some(x.wrapping_sub(y)),
            BinArithOp::MUL => Some(x.wrapping_mul(y)),
            BinArithOp::DIV => if y == 0 {
                None
            } else if x == i32::MIN && y == -1 {
                Some(i32::MIN)
            } else {
                x.checked_div(y)
            },
            BinArithOp::MOD => if y == 0 {
                None
            } else if x == i32::MIN && y == -1 {
                Some(0)
            } else {
                x.checked_rem(y)
            },
            BinArithOp::AND => Some(x & y),
            BinArithOp::OR => Some(x | y),
            BinArithOp::SHL => Some(x.wrapping_shl(y as u32)),
            BinArithOp::SHR => Some(x.wrapping_shr(y as u32)),
            BinArithOp::XOR => Some(x ^ y),
        }
    }
}

impl UnaryArithOp {
    pub open spec fn apply(self, x: i32) -> i32 {
        match self {
            UnaryArithOp::NEG => 0i32.wrapping_sub(x),
        }
    }

    pub fn eval(&self, x: i32) -> (r: i32)
        ensures
            r == self.apply(x),
    {
        match self {
            UnaryArithOp::NEG => 0i32.wrapping_sub(x),
        }
    }
}

impl TestOp {
    pub open spec fn holds(self, a: i32, b: i32) -> bool {
        match self {
            TestOp::TSTE => a == b,
            TestOp::TSTN => a != b,
            TestOp::TSTG => a > b,
            TestOp::TSTL => a < b,
        }
    }

    pub fn test(&self, arg1: i32, arg2: i32) -> (r: bool)
        ensures
            r == self.holds(arg1, arg2),
    {
        match self {
            TestOp::TSTE => arg1 == arg2,
            TestOp::TSTN => arg1 != arg2,
            TestOp::TSTG => arg1 > arg2,
            TestOp::TSTL => arg1 < arg2,
        }
    }
}

impl FlowOp {
    /// Whether the branch is taken, given the value of `ZR`.
    pub open spec fn taken(self, zr: i32) -> bool {
        match self {
            FlowOp::JUMP => true,
            FlowOp::TJMP => zr != 0,
            FlowOp::FJMP => zr == 0,
            FlowOp::CALL => true,
        }
    }

    pub fn should_take(&self, arg: i32) -> (r: bool)
        ensures
            r == self.taken(arg),
    {
        match self {
            FlowOp::JUMP => true,
            FlowOp::TJMP => arg != 0,
            FlowOp::FJMP => arg == 0,
            FlowOp::CALL => true,
        }
    }
}

/// The register file. Every register always holds a value.
#[derive(Debug, Clone, Copy)]
pub struct Registers {
    r1: i32,
    r2: i32,
    r3: i32,
    r4: i32,
    sp: i32,
    bp: i32,
    ir: i32,
    zr: i32,
}

impl Registers {
    pub closed spec fn reg(self, r: Register) -> i32 {
        match r {
            Register::R1 => self.r1,
            Register::R2 => self.r2,
            Register::R3 => self.r3,
            Register::R4 => self.r4,
            Register::SP => self.sp,
            Register::BP => self.bp,
            Register::IR => self.ir,
            Register::ZR => self.zr,
        }
    }

    /// The same registers with `r` set to `v`.
    pub closed spec fn with(self, r: Register, v: i32) -> Registers {
        match r {
            Register::R1 => Registers { r1: v, ..self },
            Register::R2 => Registers { r2: v, ..self },
            Register::R3 => Registers { r3: v, ..self },
            Register::R4 => Registers { r4: v, ..self },
            Register::SP => Registers { sp: v, ..self },
            Register::BP => Registers { bp: v, ..self },
            Register::IR => Registers { ir: v, ..self },
            Register::ZR => Registers { zr: v, ..self },
        }
    }

    pub closed spec fn zeroed() -> Registers {
        Registers { r1: 0, r2: 0, r3: 0, r4: 0, sp: 0, bp: 0, ir: 0, zr: 0 }
    }

    pub broadcast proof fn lemma_with(self, r: Register, v: i32, q: Register)
        ensures
            #[trigger] self.with(r, v).reg(q) == if q == r {
                v
            } else {
                self.reg(q)
            },
    {
    }

    pub broadcast proof fn lemma_zeroed(q: Register)
        ensures
            #[trigger] Registers::zeroed().reg(q) == 0,
    {
    }

    /// The value of an operand.
    pub open spec fn operand(self, a: RegOrImm) -> i32 {
        match a {
            RegOrImm::Reg(r) => self.reg(r),
            RegOrImm::Val(v) => v,
        }
    }

    pub fn new() -> (r: Registers)
        ensures
            r == Registers::zeroed(),
    {
        Registers { r1: 0, r2: 0, r3: 0, r4: 0, sp: 0, bp: 0, ir: 0, zr: 0 }
    }

    pub fn get(&self, reg: &Register) -> (r: i32)
        ensures
            r == self.reg(*reg),
    {
        match reg {
            Register::R1 => self.r1,
            Register::R2 => self.r2,
            Register::R3 => self.r3,
            Register::R4 => self.r4,
            Register::SP => self.sp,
            Register::BP => self.bp,
            Register::IR => self.ir,
            Register::ZR => self.zr,
        }
    }

    pub fn set(&mut self, reg: &Register, val: i32)
        ensures
            *final(self) == old(self).with(*reg, val),
    {
        match reg {
            Register::R1 => self.r1 = val,
            Register::R2 => self.r2 = val,
            Register::R3 => self.r3 = val,
            Register::R4 => self.r4 = val,
            Register::SP => self.sp = val,
            Register::BP => self.bp = val,
            Register::IR => self.ir = val,
            Register::ZR => self.zr = val,
        }
    }

    pub fn get_reg_or_imm(&self, arg: &RegOrImm) -> (r: i32)
        ensures
            r == self.operand(*arg),
    {
        match arg {
            RegOrImm::Reg(reg) => self.get(reg),
            RegOrImm::Val(val) => *val,
        }
    }
}

/// A memory cell: a number or a decoded instruction.
#[derive(Debug, PartialEq, Eq, Structural, Clone, Copy)]
pub enum MemEntry {
    Num(i32),
    Instruction(Instruction),
}

/// The number at `address`, or why there is none.
pub open spec fn read_num(mem: Map<u32, MemEntry>, address: u32) -> Result<i32, RuntimeError> {
    if !mem.contains_key(address) {
        Err(RuntimeError::InvalidAddress(address))
    } else {
        match mem[address] {
            MemEntry::Num(x) => Ok(x),
            MemEntry::Instruction(_) => Err(RuntimeError::NotNumeric(address)),
        }
    }
}

/// Sparse memory indexed by 32-bit addresses.
pub struct Memory {
    data: HashMap<u32, MemEntry>,
}

impl View for Memory {
    type V = Map<u32, MemEntry>;

    closed spec fn view(&self) -> Map<u32, MemEntry> {
        self.data@
    }
}

impl Memory {
    pub fn new() -> (r: Memory)
        ensures
            r@ == Map::<u32, MemEntry>::empty(),
    {
        Memory { data: HashMap::new() }
    }

    pub fn get(&self, address: u32) -> (r: &MemEntry)
        requires
            self@.contains_key(address),
        ensures
            *r == self@[address],
    {
        self.data.get(&address).unwrap()
    }

    /// The cell at `address`, if it holds anything.
    pub fn read(&self, address: u32) -> (r: Option<MemEntry>)
        ensures
            r == (if self@.contains_key(address) {
                Some(self@[address])
            } else {
                None
            }),
    {
        match self.data.get(&address) {
            Some(e) => Some(*e),
            None => None,
        }
    }

    pub fn set(&mut self, address: u32, val: MemEntry)
        ensures
            final(self)@ == old(self)@.insert(address, val),
    {
        self.data.insert(address, val);
    }

    pub fn get_num(&self, address: u32) -> (r: i32)
        requires
            read_num(self@, address).is_ok(),
        ensures
            Ok::<i32, RuntimeError>(r) == read_num(self@, address),
    {
        match self.get(address) {
            MemEntry::Num(x) => *x,
            MemEntry::Instruction(_) => 0,
        }
    }

    pub fn read_num(&self, address: u32) -> (r: Result<i32, RuntimeError>)
        ensures
            r == read_num(self@, address),
    {
        match self.read(address) {
            None => Err(RuntimeError::InvalidAddress(address)),
            Some(MemEntry::Num(x)) => Ok(x),
            Some(MemEntry::Instruction(_)) => Err(RuntimeError::NotNumeric(address)),
        }
    }
}

/// The machine as a value: registers and memory.
pub struct Machine {
    pub regs: Registers,
    pub mem: Map<u32, MemEntry>,
}

pub open spec fn machine(regs: Registers, mem: Map<u32, MemEntry>) -> Machine {
    Machine { regs, mem }
}

/// The instruction at `IR`.
pub open spec fn fetch(m: Machine) -> Result<Instruction, RuntimeError> {
    let a = m.regs.reg(Register::IR) as u32;
    if !m.mem.contains_key(a) {
        Err(RuntimeError::InvalidAddress(a))
    } else {
        match m.mem[a] {
            MemEntry::Instruction(i) => Ok(i),
            MemEntry::Num(_) => Err(RuntimeError::NotInstruction(a)),
        }
    }
}

/// The effect of one instruction, before `IR` advances.
pub open spec fn execute(m: Machine, i: Instruction) -> Result<Machine, RuntimeError> {
    let regs = m.regs;
    let mem = m.mem;
    match i {
        Instruction::UnaryArith { op, arg } => Ok(
            machine(regs.with(arg, op.apply(regs.reg(arg))), mem),
        ),
        Instruction::BinArith { op, dst, arg1, arg2 } => match op.apply(
            regs.reg(arg1),
            regs.operand(arg2),
        ) {
            Some(v) => Ok(machine(regs.with(dst, v), mem)),
            None => Err(RuntimeError::DivideByZero),
        },
        Instruction::Data { op, dst, src } => {
            let v = regs.operand(src);
            match op {
                DataOp::LOAD => match read_num(mem, v as u32) {
                    Ok(x) => Ok(machine(regs.with(dst, x), mem)),
                    Err(e) => Err(e),
                },
                DataOp::STR => Ok(machine(regs, mem.insert(regs.reg(dst) as u32, MemEntry::Num(v)))),
                DataOp::MOV => Ok(machine(regs.with(dst, v), mem)),
                DataOp::LEA => Ok(machine(regs.with(dst, v), mem)),
            }
        },
        Instruction::Stack { op, dst } => {
            let sp = regs.reg(Register::SP);
            match op {
                StackOp::PUSH => Ok(
                    machine(
                        regs.with(Register::SP, sp.wrapping_sub(1)),
                        mem.insert(sp as u32, MemEntry::Num(regs.reg(dst))),
                    ),
                ),
                StackOp::POP => match read_num(mem, sp.wrapping_add(1) as u32) {
                    Ok(x) => Ok(
                        machine(regs.with(dst, x).with(Register::SP, sp.wrapping_add(1)), mem),
                    ),
                    Err(e) => Err(e),
                },
            }
        },
        Instruction::Test { op, arg1, arg2 } => Ok(
            machine(
                regs.with(
                    Register::ZR,
                    if op.holds(regs.reg(arg1), regs.operand(arg2)) {
                        1
                    } else {
                        0
                    },
                ),
                mem,
            ),
        ),
        Instruction::Flow { op, offset } => {
            let ir = regs.reg(Register::IR);
            if !op.taken(regs.reg(Register::ZR)) {
                Ok(m)
            } else if op == FlowOp::CALL {
                let sp = regs.reg(Register::SP);
                let mem2 = mem.insert(sp as u32, MemEntry::Num(ir.wrapping_add(1))).insert(
                    sp.wrapping_sub(1) as u32,
                    MemEntry::Num(regs.reg(Register::BP)),
                );
                let regs2 = regs.with(Register::BP, sp.wrapping_sub(1)).with(
                    Register::SP,
                    sp.wrapping_sub(2),
                );
                Ok(
                    machine(
                        regs2.with(Register::IR, ir.wrapping_add(offset).wrapping_sub(1)),
                        mem2,
                    ),
                )
            } else {
                Ok(machine(regs.with(Register::IR, ir.wrapping_add(offset).wrapping_sub(1)), mem))
            }
        },
        Instruction::Other { op } => match op {
            OtherOp::HALT => Ok(m),
            OtherOp::RET => {
                let bp = regs.reg(Register::BP);
                match read_num(mem, bp.wrapping_add(1) as u32) {
                    Err(e) => Err(e),
                    Ok(ret_addr) => match read_num(mem, bp as u32) {
                        Err(e) => Err(e),
                        Ok(prev_bp) => Ok(
                            machine(
                                regs.with(Register::SP, bp.wrapping_add(1)).with(
                                    Register::BP,
                                    prev_bp,
                                ).with(Register::IR, ret_addr.wrapping_sub(1)),
                                mem,
                            ),
                        ),
                    },
                }
            },
        },
    }
}

/// One fetch-execute-advance step: the next machine, and whether to go on
/// (`false` after `HALT`, which leaves `IR` where it is).
pub open spec fn step(m: Machine) -> Result<(Machine, bool), RuntimeError> {
    match fetch(m) {
        Err(e) => Err(e),
        Ok(i) => match execute(m, i) {
            Err(e) => Err(e),
            Ok(m2) => if i == (Instruction::Other { op: OtherOp::HALT }) {
                Ok((m2, false))
            } else {
                Ok(
                    (
                        machine(
                            m2.regs.with(
                                Register::IR,
                                m2.regs.reg(Register::IR).wrapping_add(1),
                            ),
                            m2.mem,
                        ),
                        true,
                    ),
                )
            },
        },
    }
}

/// The CPU: memory and registers.
pub struct Cpu {
    pub mem: Memory,
    pub regs: Registers,
}

impl View for Cpu {
    type V = Machine;

    open spec fn view(&self) -> Machine {
        machine(self.regs, self.mem@)
    }
}

impl Cpu {
    pub fn new() -> (r: Cpu)
        ensures
            r.regs == Registers::zeroed(),
            r.mem@ == Map::<u32, MemEntry>::empty(),
    {
        Cpu { mem: Memory::new(), regs: Registers::new() }
    }

    pub fn fetch(&self) -> (r: Result<Instruction, RuntimeError>)
        ensures
            r == fetch(self@),
    {
        let a = self.regs.get(&Register::IR) as u32;
        match self.mem.read(a) {
            None => Err(RuntimeError::InvalidAddress(a)),
            Some(MemEntry::Instruction(i)) => Ok(i),
            Some(MemEntry::Num(_)) => Err(RuntimeError::NotInstruction(a)),
        }
    }

    fn execute_unary_arith(&mut self, op: &UnaryArithOp, arg: &Register)
        ensures
            Ok::<Machine, RuntimeError>(final(self)@) == execute(
                old(self)@,
                Instruction::UnaryArith { op: *op, arg: *arg },
            ),
    {
        let reg_val = self.regs.get(arg);
        let res = op.eval(reg_val);
        self.regs.set(arg, res);
    }

    fn execute_bin_arith(&mut self, op: &BinArithOp, dst: &Register, arg1: &Register, arg2: &RegOrImm) -> (r: Result<(), RuntimeError>)
        ensures
            match execute(old(self)@, Instruction::BinArith { op: *op, dst: *dst, arg1: *arg1, arg2: *arg2 }) {
                Ok(m) => r.is_ok() && final(self)@ == m,
                Err(e) => r == Err::<(), RuntimeError>(e) && final(self)@ == old(self)@,
            },
    {
        let arg1_val = self.regs.get(arg1);
        let arg2_val = self.regs.get_reg_or_imm(arg2);
        match op.eval(arg1_val, arg2_val) {
            Some(res) => {
                self.regs.set(dst, res);
                Ok(())
            },
            None => Err(RuntimeError::DivideByZero),
        }
    }

    fn execute_data(&mut self, op: &DataOp, dst: &Register, src: &RegOrImm) -> (r: Result<(), RuntimeError>)
        ensures
            match execute(old(self)@, Instruction::Data { op: *op, dst: *dst, src: *src }) {
                Ok(m) => r.is_ok() && final(self)@ == m,
                Err(e) => r == Err::<(), RuntimeError>(e) && final(self)@ == old(self)@,
            },
    {
        let src_val = self.regs.get_reg_or_imm(src);
        match op {
            DataOp::LOAD => {
                let v = self.mem.read_num(src_val as u32)?;
                self.regs.set(dst, v);
            },
            DataOp::STR => {
                let a = self.regs.get(dst) as u32;
                self.mem.set(a, MemEntry::Num(src_val));
            },
            DataOp::MOV => {
                self.regs.set(dst, src_val);
            },
            DataOp::LEA => {
                self.regs.set(dst, src_val);
            },
        }
        Ok(())
    }

    fn execute_stack(&mut self, op: &StackOp, dst: &Register) -> (r: Result<(), RuntimeError>)
        ensures
            match execute(old(self)@, Instruction::Stack { op: *op, dst: *dst }) {
                Ok(m) => r.is_ok() && final(self)@ == m,
                Err(e) => r == Err::<(), RuntimeError>(e) && final(self)@ == old(self)@,
            },
    {
        let sp = self.regs.get(&Register::SP);
        match op {
            StackOp::PUSH => {
                let dst_val = self.regs.get(dst);
                self.mem.set(sp as u32, MemEntry::Num(dst_val));
                self.regs.set(&Register::SP, sp.wrapping_sub(1));
            },
            StackOp::POP => {
                let v = self.mem.read_num(sp.wrapping_add(1) as u32)?;
                self.regs.set(dst, v);
                self.regs.set(&Register::SP, sp.wrapping_add(1));
            },
        }
        Ok(())
    }

    fn execute_test(&mut self, op: &TestOp, arg1: &Register, arg2: &RegOrImm)
        ensures
            Ok::<Machine, RuntimeError>(final(self)@) == execute(
                old(self)@,
                Instruction::Test { op: *op, arg1: *arg1, arg2: *arg2 },
            ),
    {
        let arg1_val = self.regs.get(arg1);
        let arg2_val = self.regs.get_reg_or_imm(arg2);
        let res = op.test(arg1_val, arg2_val);
        self.regs.set(
            &Register::ZR,
            if res {
                1
            } else {
                0
            },
        );
    }

    fn execute_flow(&mut self, op: &FlowOp, offset: i32)
        ensures
            Ok::<Machine, RuntimeError>(final(self)@) == execute(
                old(self)@,
                Instruction::Flow { op: *op, offset },
            ),
    {
        if op.should_take(self.regs.get(&Register::ZR)) {
            if let FlowOp::CALL = op {
                let sp = self.regs.get(&Register::SP);
                let ir = self.regs.get(&Register::IR);
                let bp = self.regs.get(&Register::BP);
                self.mem.set(sp as u32, MemEntry::Num(ir.wrapping_add(1)));
                self.mem.set(sp.wrapping_sub(1) as u32, MemEntry::Num(bp));
                self.regs.set(&Register::BP, sp.wrapping_sub(1));
                self.regs.set(&Register::SP, sp.wrapping_sub(2));
            }
            let ir = self.regs.get(&Register::IR);
            self.regs.set(&Register::IR, ir.wrapping_add(offset).wrapping_sub(1));
        }
    }

    fn execute_other(&mut self, op: &OtherOp) -> (r: Result<(), RuntimeError>)
        ensures
            match execute(old(self)@, Instruction::Other { op: *op }) {
                Ok(m) => r.is_ok() && final(self)@ == m,
                Err(e) => r == Err::<(), RuntimeError>(e) && final(self)@ == old(self)@,
            },
    {
        match op {
            OtherOp::HALT => {},
            OtherOp::RET => {
                let bp = self.regs.get(&Register::BP);
                let ret_addr = self.mem.read_num(bp.wrapping_add(1) as u32)?;
                let prev_bp = self.mem.read_num(bp as u32)?;
                self.regs.set(&Register::SP, bp.wrapping_add(1));
                self.regs.set(&Register::BP, prev_bp);
                self.regs.set(&Register::IR, ret_addr.wrapping_sub(1));
            },
        }
        Ok(())
    }

    /// Executes one instruction; `IR` is not advanced here.
    pub fn execute(&mut self, instr: &Instruction) -> (r: Result<(), RuntimeError>)
        ensures
            match execute(old(self)@, *instr) {
                Ok(m) => r.is_ok() && final(self)@ == m,
                Err(e) => r == Err::<(), RuntimeError>(e) && final(self)@ == old(self)@,
            },
    {
        match instr {
            Instruction::UnaryArith { op, arg } => {
                self.execute_unary_arith(op, arg);
                Ok(())
            },
            Instruction::BinArith { op, dst, arg1, arg2 } => self.execute_bin_arith(
                op,
                dst,
                arg1,
                arg2,
            ),
            Instruction::Data { op, dst, src } => self.execute_data(op, dst, src),
            Instruction::Stack { op, dst } => self.execute_stack(op, dst),
            Instruction::Test { op, arg1, arg2 } => {
                self.execute_test(op, arg1, arg2);
                Ok(())
            },
            Instruction::Flow { op, offset } => {
                self.execute_flow(op, *offset);
                Ok(())
            },
            Instruction::Other { op } => self.execute_other(op),
        }
    }

    /// Fetch, execute, advance. Returns whether the machine keeps running.
    pub fn step(&mut self) -> (r: Result<bool, RuntimeError>)
        ensures
            match step(old(self)@) {
                Ok((m, k)) => r == Ok::<bool, RuntimeError>(k) && final(self)@ == m,
                Err(e) => r == Err::<bool, RuntimeError>(e) && final(self)@ == old(self)@,
            },
    {
        let instr = self.fetch()?;
        self.execute(&instr)?;
        if let Instruction::Other { op: OtherOp::HALT } = instr {
            return Ok(false);
        }
        let ir = self.regs.get(&Register::IR);
        self.regs.set(&Register::IR, ir.wrapping_add(1));
        Ok(true)
    }
}

proof fn lemma_below_differs(a: i32)
    ensures
        a as u32 != a.wrapping_sub(1) as u32,
{
    let b = a.wrapping_sub(1);
    if a == i32::MIN {
        assert(b == i32::MAX);
        assert(i32::MIN as u32 != i32::MAX as u32) by (bit_vector);
    } else {
        assert(b == a - 1);
        assert(a != i32::MIN ==> a as u32 != (a - 1) as u32) by (bit_vector);
    }
}

/// A `CALL` and the `RET` that leaves the frame it built. When the callee
/// reaches `RET` with `BP` back at that frame and the two words that `CALL`
/// saved still in place, the step that executes `RET` restores `SP` and `BP`
/// to their values before the call, resumes at the instruction after the
/// `CALL`, and changes no other register.
pub proof fn lemma_call_ret(m0: Machine, offset: i32, m2: Machine)
    requires
        fetch(m0) == Ok::<Instruction, RuntimeError>(Instruction::Flow { op: FlowOp::CALL, offset }),
        ({
            let m1 = step(m0).unwrap().0;
            let bp = m1.regs.reg(Register::BP);
            &&& m2.regs.reg(Register::BP) == bp
            &&& m2.mem.contains_key(bp as u32)
            &&& m2.mem.contains_key(bp.wrapping_add(1) as u32)
            &&& m2.mem[bp as u32] == m1.mem[bp as u32]
            &&& m2.mem[bp.wrapping_add(1) as u32] == m1.mem[bp.wrapping_add(1) as u32]
        }),
        fetch(m2) == Ok::<Instruction, RuntimeError>(Instruction::Other { op: OtherOp::RET }),
    ensures
        step(m0).is_ok(),
        step(m2).is_ok(),
        step(m2).unwrap().0.regs.reg(Register::SP) == m0.regs.reg(Register::SP),
        step(m2).unwrap().0.regs.reg(Register::BP) == m0.regs.reg(Register::BP),
        step(m2).unwrap().0.regs.reg(Register::IR) == m0.regs.reg(Register::IR).wrapping_add(1),
        forall|r: Register|
            r != Register::SP && r != Register::BP && r != Register::IR ==> #[trigger] step(
                m2,
            ).unwrap().0.regs.reg(r) == m2.regs.reg(r),
{
    broadcast use Registers::lemma_with;

    let sp = m0.regs.reg(Register::SP);
    let ir = m0.regs.reg(Register::IR);
    let bp = sp.wrapping_sub(1);
    assert(bp.wrapping_add(1) == sp);
    lemma_below_differs(sp);
    assert(ir.wrapping_add(1).wrapping_sub(1).wrapping_add(1) == ir.wrapping_add(1));
    let m1 = step(m0).unwrap().0;
    assert(m1.mem[bp as u32] == MemEntry::Num(m0.regs.reg(Register::BP)));
    assert(m1.mem[sp as u32] == MemEntry::Num(ir.wrapping_add(1)));
}

/// A taken jump moves `IR` by its offset: a `JUMP o` fetched at address `a`
/// leaves the machine at address `a + o`, where the next step fetches.
pub proof fn lemma_jump(m: Machine, offset: i32)
    requires
        fetch(m) == Ok::<Instruction, RuntimeError>(Instruction::Flow { op: FlowOp::JUMP, offset }),
        i32::MIN <= m.regs.reg(Register::IR) + offset <= i32::MAX,
        i32::MIN <= m.regs.reg(Register::IR) + offset - 1,
    ensures
        step(m).is_ok(),
        step(m).unwrap().1,
        step(m).unwrap().0.regs.reg(Register::IR) == m.regs.reg(Register::IR) + offset,
        step(m).unwrap().0.mem == m.mem,
{
    broadcast use Registers::lemma_with;

}

} // verus!
