//! The operating system around the CPU: memory layout, loading, the run
//! loop, and memory-mapped character I/O.
use vstd::prelude::*;

pub mod assembler;
pub mod compiler;
pub mod debugger;

use self::assembler::{
    all_lines, assemble_and_link, link, str_views, AsmError, Executable, DATA_INIT_ADDRESS,
};
use crate::cpu::{machine, read_num, step, Cpu, Machine, MemEntry, Registers, RuntimeError};
use crate::cpu::instructions::{Instruction, OtherOp, Register};

verus! {

broadcast use Registers::lemma_with;

/// Where the code segment starts in memory.
pub const PROGRAM_INIT_ADDRESS: u32 = 1000;

/// The top of the stack.
pub const INIT_SP_ADDRESS: u32 = 9999;

/// Character out status: a program sets it to print the character in `COD`.
pub const COS: u32 = 200;

/// Character out data.
pub const COD: u32 = 201;

/// Character in status: a program sets it to have a character read into `CID`.
pub const CIS: u32 = 202;

/// Character in data.
pub const CID: u32 = 203;

/// How many steps a run may take before it is stopped.
pub const MAX_STEPS: u64 = 100_000_000;

/// Why a run did not produce an exit code.
#[derive(Debug, PartialEq, Eq, Structural, Clone, Copy)]
pub enum VmError {
    Assemble(AsmError),
    Runtime(RuntimeError),
    /// The program asked for a character and none was left.
    InputExhausted,
    /// The run took more than `MAX_STEPS` steps.
    StepLimit,
    /// The code or data does not fit in the address space.
    TooLarge,
}

/// The OS as a value: the machine and the two character streams.
pub struct OsState {
    pub m: Machine,
    pub out: Seq<char>,
    pub inp: Seq<char>,
}

/// The character that a word written to `COD` stands for: its low byte.
pub open spec fn out_char(c: i32) -> char {
    (c as u8) as char
}

/// The memory of a fresh machine: `HALT` at 0 and the I/O cells cleared.
pub open spec fn base_mem() -> Map<u32, MemEntry> {
    Map::empty().insert(0, MemEntry::Instruction(Instruction::Other { op: OtherOp::HALT })).insert(
        COS,
        MemEntry::Num(0),
    ).insert(COD, MemEntry::Num(0)).insert(CIS, MemEntry::Num(0)).insert(CID, MemEntry::Num(0))
}

/// `mem` with `words` written one after another from `base`.
pub open spec fn load_seq(mem: Map<u32, MemEntry>, words: Seq<MemEntry>, base: int) -> Map<
    u32,
    MemEntry,
>
    decreases words.len(),
{
    if words.len() == 0 {
        mem
    } else {
        load_seq(mem, words.drop_last(), base).insert(
            (base + words.len() - 1) as u32,
            words.last(),
        )
    }
}

pub open spec fn code_words(code: Seq<Instruction>) -> Seq<MemEntry> {
    code.map_values(|i: Instruction| MemEntry::Instruction(i))
}

pub open spec fn data_words(data: Seq<i32>) -> Seq<MemEntry> {
    data.map_values(|d: i32| MemEntry::Num(d))
}

/// The machine ready to run `code` with `data`: code from
/// `PROGRAM_INIT_ADDRESS`, data from `DATA_INIT_ADDRESS`, and a first stack
/// frame whose return address leads to the `HALT` at 0 and whose return
/// value slot holds -1.
pub open spec fn boot(code: Seq<Instruction>, data: Seq<i32>) -> Machine {
    let mem = load_seq(
        load_seq(base_mem(), code_words(code), PROGRAM_INIT_ADDRESS as int),
        data_words(data),
        DATA_INIT_ADDRESS as int,
    );
    machine(
        Registers::zeroed().with(Register::IR, PROGRAM_INIT_ADDRESS as i32).with(
            Register::SP,
            (INIT_SP_ADDRESS - 3) as i32,
        ).with(Register::BP, (INIT_SP_ADDRESS - 2) as i32),
        mem.insert((INIT_SP_ADDRESS - 1) as u32, MemEntry::Num(0)).insert(
            (INIT_SP_ADDRESS - 2) as u32,
            MemEntry::Num((INIT_SP_ADDRESS - 2) as i32),
        ).insert(INIT_SP_ADDRESS, MemEntry::Num(-1i32)),
    )
}

/// Output side of the I/O step.
pub open spec fn io_out(s: OsState) -> Result<OsState, VmError> {
    match read_num(s.m.mem, COS) {
        Err(e) => Err(VmError::Runtime(e)),
        Ok(status) => if status == 0 {
            Ok(s)
        } else {
            match read_num(s.m.mem, COD) {
                Err(e) => Err(VmError::Runtime(e)),
                Ok(c) => Ok(
                    OsState {
                        m: machine(s.m.regs, s.m.mem.insert(COS, MemEntry::Num(0))),
                        out: s.out.push(out_char(c)),
                        inp: s.inp,
                    },
                ),
            }
        },
    }
}

/// Input side of the I/O step.
pub open spec fn io_in(s: OsState) -> Result<OsState, VmError> {
    match read_num(s.m.mem, CIS) {
        Err(e) => Err(VmError::Runtime(e)),
        Ok(status) => if status == 0 {
            Ok(s)
        } else if s.inp.len() == 0 {
            Err(VmError::InputExhausted)
        } else {
            Ok(
                OsState {
                    m: machine(
                        s.m.regs,
                        s.m.mem.insert(CID, MemEntry::Num(s.inp[0] as u32 as i32)).insert(
                            CIS,
                            MemEntry::Num(0),
                        ),
                    ),
                    out: s.out,
                    inp: s.inp.skip(1),
                },
            )
        },
    }
}

/// One CPU step followed by one I/O step.
pub open spec fn os_step(s: OsState) -> Result<(OsState, bool), VmError> {
    match step(s.m) {
        Err(e) => Err(VmError::Runtime(e)),
        Ok((m2, keep)) => match io_out(OsState { m: m2, out: s.out, inp: s.inp }) {
            Err(e) => Err(e),
            Ok(s1) => match io_in(s1) {
                Err(e) => Err(e),
                Ok(s2) => Ok((s2, keep)),
            },
        },
    }
}

/// Steps until `HALT`, within `fuel` steps.
pub open spec fn run(s: OsState, fuel: nat) -> Result<OsState, VmError>
    decreases fuel,
{
    if fuel == 0 {
        Err(VmError::StepLimit)
    } else {
        match os_step(s) {
            Err(e) => Err(e),
            Ok((s2, keep)) => if keep {
                run(s2, (fuel - 1) as nat)
            } else {
                Ok(s2)
            },
        }
    }
}

/// The exit code of a halted machine: the word at `BP + 2`.
pub open spec fn exit_code(m: Machine) -> Result<i32, VmError> {
    match read_num(m.mem, m.regs.reg(Register::BP).wrapping_add(2) as u32) {
        Ok(v) => Ok(v),
        Err(e) => Err(VmError::Runtime(e)),
    }
}

/// Running `code` with `data` from boot, on the input `inp`: the final state.
pub open spec fn run_program(code: Seq<Instruction>, data: Seq<i32>, out: Seq<char>, inp: Seq<char>) -> Result<
    OsState,
    VmError,
> {
    run(OsState { m: boot(code, data), out, inp }, MAX_STEPS as nat)
}

/// The result of running `code` with `data`: the exit code on success.
pub open spec fn run_result(code: Seq<Instruction>, data: Seq<i32>, out: Seq<char>, inp: Seq<char>) -> Result<
    i32,
    VmError,
> {
    match run_program(code, data, out, inp) {
        Ok(s) => exit_code(s.m),
        Err(e) => Err(e),
    }
}

pub open spec fn string_views(v: Seq<String>) -> Seq<Seq<char>> {
    v.map_values(|s: String| s@)
}

/// The OS: a CPU, the characters written and still to be read, and the
/// library units linked after every program.
pub struct OS {
    pub cpu: Cpu,
    pub out_chars: Vec<char>,
    pub inp_chars: Vec<char>,
    /// Library units linked after every program.
    pub std_programs: Vec<String>,
}

impl View for OS {
    type V = OsState;

    open spec fn view(&self) -> OsState {
        OsState { m: self.cpu@, out: self.out_chars@, inp: self.inp_chars@ }
    }
}

impl OS {
    pub open spec fn std_units(&self) -> Seq<Seq<char>> {
        string_views(self.std_programs@)
    }

    /// An OS with no library units.
    pub fn new() -> (r: OS)
        ensures
            r.std_units() == Seq::<Seq<char>>::empty(),
            r.out_chars@ == Seq::<char>::empty(),
            r.inp_chars@ == Seq::<char>::empty(),
            r.cpu.mem@ == base_mem(),
            r.cpu.regs == Registers::zeroed(),
    {
        OS::with_std(Vec::new())
    }

    /// An OS that links `std_programs` after every program it assembles.
    pub fn with_std(std_programs: Vec<String>) -> (r: OS)
        ensures
            r.std_units() == string_views(std_programs@),
            r.out_chars@ == Seq::<char>::empty(),
            r.inp_chars@ == Seq::<char>::empty(),
            r.cpu.mem@ == base_mem(),
            r.cpu.regs == Registers::zeroed(),
    {
        let mut instance = OS {
            cpu: Cpu::new(),
            out_chars: Vec::new(),
            inp_chars: Vec::new(),
            std_programs,
        };
        instance.initialize_memory();
        instance
    }

    fn initialize_memory(&mut self)
        requires
            old(self).cpu.mem@ == Map::<u32, MemEntry>::empty(),
        ensures
            final(self).cpu.mem@ == base_mem(),
            final(self).cpu.regs == old(self).cpu.regs,
            final(self).out_chars == old(self).out_chars,
            final(self).inp_chars == old(self).inp_chars,
            final(self).std_programs == old(self).std_programs,
    {
        self.cpu.mem.set(0, MemEntry::Instruction(Instruction::Other { op: OtherOp::HALT }));
        self.cpu.mem.set(COS, MemEntry::Num(0));
        self.cpu.mem.set(COD, MemEntry::Num(0));
        self.cpu.mem.set(CIS, MemEntry::Num(0));
        self.cpu.mem.set(CID, MemEntry::Num(0));
    }

    fn reset_cpu_state(&mut self)
        ensures
            final(self).cpu.mem@ == base_mem(),
            final(self).cpu.regs == Registers::zeroed(),
            final(self).out_chars == old(self).out_chars,
            final(self).inp_chars == old(self).inp_chars,
            final(self).std_programs == old(self).std_programs,
    {
        self.cpu = Cpu::new();
        self.initialize_memory();
    }

    fn initialize_stackframe(&mut self)
        ensures
            final(self).cpu.regs == old(self).cpu.regs.with(
                Register::SP,
                (INIT_SP_ADDRESS - 3) as i32,
            ).with(Register::BP, (INIT_SP_ADDRESS - 2) as i32),
            final(self).cpu.mem@ == old(self).cpu.mem@.insert(
                (INIT_SP_ADDRESS - 1) as u32,
                MemEntry::Num(0),
            ).insert((INIT_SP_ADDRESS - 2) as u32, MemEntry::Num((INIT_SP_ADDRESS - 2) as i32)).insert(
                INIT_SP_ADDRESS,
                MemEntry::Num(-1i32),
            ),
            final(self).out_chars == old(self).out_chars,
            final(self).inp_chars == old(self).inp_chars,
            final(self).std_programs == old(self).std_programs,
    {
        self.cpu.regs.set(&Register::SP, (INIT_SP_ADDRESS - 3) as i32);
        self.cpu.regs.set(&Register::BP, (INIT_SP_ADDRESS - 2) as i32);
        self.cpu.mem.set(INIT_SP_ADDRESS - 1, MemEntry::Num(0));
        self.cpu.mem.set(INIT_SP_ADDRESS - 2, MemEntry::Num((INIT_SP_ADDRESS - 2) as i32));
        self.cpu.mem.set(INIT_SP_ADDRESS, MemEntry::Num(-1i32));
    }

    /// Writes `instructions` one after another from `init_addr`.
    fn load_program(&mut self, instructions: &Vec<Instruction>, init_addr: u32)
        requires
            init_addr as int + instructions@.len() <= u32::MAX,
        ensures
            final(self).cpu.mem@ == load_seq(
                old(self).cpu.mem@,
                code_words(instructions@),
                init_addr as int,
            ),
            final(self).cpu.regs == old(self).cpu.regs,
            final(self).out_chars == old(self).out_chars,
            final(self).inp_chars == old(self).inp_chars,
            final(self).std_programs == old(self).std_programs,
    {
        let mut i: usize = 0;
        while i < instructions.len()
            invariant
                0 <= i <= instructions@.len(),
                init_addr as int + instructions@.len() <= u32::MAX,
                self.cpu.mem@ == load_seq(
                    old(self).cpu.mem@,
                    code_words(instructions@.subrange(0, i as int)),
                    init_addr as int,
                ),
                self.cpu.regs == old(self).cpu.regs,
                self.out_chars == old(self).out_chars,
                self.inp_chars == old(self).inp_chars,
                self.std_programs == old(self).std_programs,
            decreases instructions@.len() - i,
        {
            self.cpu.mem.set(init_addr + i as u32, MemEntry::Instruction(instructions[i]));
            i += 1;
            proof {
                let w = code_words(instructions@.subrange(0, i as int));
                assert(w.drop_last() =~= code_words(instructions@.subrange(0, i - 1)));
            }
        }
        proof {
            assert(instructions@.subrange(0, instructions@.len() as int) =~= instructions@);
        }
    }

    /// Writes `data` one word after another from `init_addr`.
    fn load_data(&mut self, data: &Vec<i32>, init_addr: u32)
        requires
            init_addr as int + data@.len() <= u32::MAX,
        ensures
            final(self).cpu.mem@ == load_seq(old(self).cpu.mem@, data_words(data@), init_addr as int),
            final(self).cpu.regs == old(self).cpu.regs,
            final(self).out_chars == old(self).out_chars,
            final(self).inp_chars == old(self).inp_chars,
            final(self).std_programs == old(self).std_programs,
    {
        let mut i: usize = 0;
        while i < data.len()
            invariant
                0 <= i <= data@.len(),
                init_addr as int + data@.len() <= u32::MAX,
                self.cpu.mem@ == load_seq(
                    old(self).cpu.mem@,
                    data_words(data@.subrange(0, i as int)),
                    init_addr as int,
                ),
                self.cpu.regs == old(self).cpu.regs,
                self.out_chars == old(self).out_chars,
                self.inp_chars == old(self).inp_chars,
                self.std_programs == old(self).std_programs,
            decreases data@.len() - i,
        {
            self.cpu.mem.set(init_addr + i as u32, MemEntry::Num(data[i]));
            i += 1;
            proof {
                let w = data_words(data@.subrange(0, i as int));
                assert(w.drop_last() =~= data_words(data@.subrange(0, i - 1)));
            }
        }
        proof {
            assert(data@.subrange(0, data@.len() as int) =~= data@);
        }
    }

    fn io_step(&mut self) -> (r: Result<(), VmError>)
        ensures
            match io_out(old(self)@) {
                Err(e) => r == Err::<(), VmError>(e),
                Ok(s1) => match io_in(s1) {
                    Err(e) => r == Err::<(), VmError>(e),
                    Ok(s2) => r.is_ok() && final(self)@ == s2,
                },
            },
            final(self).std_programs == old(self).std_programs,
    {
        let status = match self.cpu.mem.read_num(COS) {
            Ok(v) => v,
            Err(e) => return Err(VmError::Runtime(e)),
        };
        if status != 0 {
            let c = match self.cpu.mem.read_num(COD) {
                Ok(v) => v,
                Err(e) => return Err(VmError::Runtime(e)),
            };
            self.out_chars.push((c as u8) as char);
            self.cpu.mem.set(COS, MemEntry::Num(0));
        }
        let status = match self.cpu.mem.read_num(CIS) {
            Ok(v) => v,
            Err(e) => return Err(VmError::Runtime(e)),
        };
        if status != 0 {
            if self.inp_chars.len() == 0 {
                return Err(VmError::InputExhausted);
            }
            let c = self.inp_chars.remove(0);
            self.cpu.mem.set(CID, MemEntry::Num(c as u32 as i32));
            self.cpu.mem.set(CIS, MemEntry::Num(0));
            proof {
                assert(old(self).inp_chars@.skip(1) =~= self.inp_chars@) by {
                    if io_out(old(self)@) is Ok {
                        assert(io_out(old(self)@).unwrap().inp == old(self).inp_chars@);
                    }
                }
            }
        }
        Ok(())
    }

    /// One CPU step followed by one I/O step. Returns whether to go on.
    pub fn step_once(&mut self) -> (r: Result<bool, VmError>)
        ensures
            match os_step(old(self)@) {
                Err(e) => r == Err::<bool, VmError>(e),
                Ok((s, keep)) => r == Ok::<bool, VmError>(keep) && final(self)@ == s,
            },
            final(self).std_programs == old(self).std_programs,
    {
        let keep_running = match self.cpu.step() {
            Ok(k) => k,
            Err(e) => return Err(VmError::Runtime(e)),
        };
        self.io_step()?;
        Ok(keep_running)
    }

    /// Steps until `HALT`, for at most `MAX_STEPS` steps.
    fn run(&mut self) -> (r: Result<(), VmError>)
        ensures
            match run(old(self)@, MAX_STEPS as nat) {
                Err(e) => r == Err::<(), VmError>(e),
                Ok(s) => r.is_ok() && final(self)@ == s,
            },
            final(self).std_programs == old(self).std_programs,
    {
        let ghost goal = run(self@, MAX_STEPS as nat);
        let mut fuel: u64 = MAX_STEPS;
        loop
            invariant
                fuel <= MAX_STEPS,
                goal == run(old(self)@, MAX_STEPS as nat),
                goal == run(self@, fuel as nat),
                self.std_programs == old(self).std_programs,
            decreases fuel,
        {
            if fuel == 0 {
                return Err(VmError::StepLimit);
            }
            let keep_running = self.step_once()?;
            fuel = fuel - 1;
            if !keep_running {
                return Ok(());
            }
        }
    }

    /// Resets the machine and loads `code` and `data` ready to run from boot.
    pub fn boot_image(&mut self, code: &Vec<Instruction>, data: &Vec<i32>) -> (r: Result<(), VmError>)
        ensures
            code@.len() > 3000 || data@.len() > 500 ==> r == Err::<(), VmError>(VmError::TooLarge),
            code@.len() <= 3000 && data@.len() <= 500 ==> r.is_ok() && final(self).cpu@ == boot(
                code@,
                data@,
            ) && final(self).out_chars == old(self).out_chars && final(self).inp_chars
                == old(self).inp_chars,
            final(self).std_programs == old(self).std_programs,
    {
        if code.len() > 3000 || data.len() > 500 {
            return Err(VmError::TooLarge);
        }
        self.reset_cpu_state();
        self.load_program(code, PROGRAM_INIT_ADDRESS);
        self.load_data(data, DATA_INIT_ADDRESS);
        self.cpu.regs.set(&Register::IR, PROGRAM_INIT_ADDRESS as i32);
        self.initialize_stackframe();
        proof {
            assert(self.cpu@ == boot(code@, data@));
        }
        Ok(())
    }

    /// The exit code: the word at `BP + 2`.
    pub fn exit_code(&self) -> (r: Result<i32, VmError>)
        ensures
            r == exit_code(self.cpu@),
    {
        let bp = self.cpu.regs.get(&Register::BP);
        match self.cpu.mem.read_num(bp.wrapping_add(2) as u32) {
            Ok(v) => Ok(v),
            Err(e) => Err(VmError::Runtime(e)),
        }
    }

    /// Loads `code` and `data`, runs from boot, and returns the exit code.
    pub fn run_image(&mut self, code: &Vec<Instruction>, data: &Vec<i32>) -> (r: Result<i32, VmError>)
        ensures
            code@.len() > 3000 || data@.len() > 500 ==> r == Err::<i32, VmError>(VmError::TooLarge),
            code@.len() <= 3000 && data@.len() <= 500 ==> r == run_result(
                code@,
                data@,
                old(self).out_chars@,
                old(self).inp_chars@,
            ),
            code@.len() <= 3000 && data@.len() <= 500 ==> match run_program(
                code@,
                data@,
                old(self).out_chars@,
                old(self).inp_chars@,
            ) {
                Ok(s) => final(self)@ == s,
                Err(_) => true,
            },
    {
        if code.len() > 3000 || data.len() > 500 {
            return Err(VmError::TooLarge);
        }
        self.reset_cpu_state();
        self.load_program(code, PROGRAM_INIT_ADDRESS);
        self.load_data(data, DATA_INIT_ADDRESS);
        self.cpu.regs.set(&Register::IR, PROGRAM_INIT_ADDRESS as i32);
        self.initialize_stackframe();
        proof {
            assert(self.cpu@ == boot(code@, data@));
        }
        self.run()?;
        let bp = self.cpu.regs.get(&Register::BP);
        match self.cpu.mem.read_num(bp.wrapping_add(2) as u32) {
            Ok(v) => Ok(v),
            Err(e) => Err(VmError::Runtime(e)),
        }
    }

    /// Runs `instructions` from boot and returns the program's exit value,
    /// the word at `BP + 2` when it halts.
    pub fn load_and_run(&mut self, instructions: Vec<Instruction>) -> (r: Result<i32, VmError>)
        ensures
            instructions@.len() > 3000 ==> r == Err::<i32, VmError>(VmError::TooLarge),
            instructions@.len() <= 3000 ==> r == run_result(
                instructions@,
                Seq::empty(),
                old(self).out_chars@,
                old(self).inp_chars@,
            ),
            r.is_ok() ==> final(self)@ == run_program(
                instructions@,
                Seq::empty(),
                old(self).out_chars@,
                old(self).inp_chars@,
            ).unwrap(),
    {
        let data: Vec<i32> = Vec::new();
        proof {
            assert(data@ =~= Seq::<i32>::empty());
        }
        self.run_image(&instructions, &data)
    }

    /// Loads and runs an assembled program, data included.
    pub fn run_executable(&mut self, exe: &Executable) -> (r: Result<i32, VmError>)
        ensures
            exe.code@.len() > 3000 || exe.data@.len() > 500 ==> r == Err::<i32, VmError>(
                VmError::TooLarge,
            ),
            exe.code@.len() <= 3000 && exe.data@.len() <= 500 ==> r == run_result(
                exe.code@,
                exe.data@,
                old(self).out_chars@,
                old(self).inp_chars@,
            ),
            r.is_ok() ==> final(self)@ == run_program(
                exe.code@,
                exe.data@,
                old(self).out_chars@,
                old(self).inp_chars@,
            ).unwrap(),
    {
        self.run_image(&exe.code, &exe.data)
    }

    /// Assembles `programs` followed by the library units, links them, and
    /// runs the result.
    pub fn assemble_link_and_run(&mut self, programs: Vec<&str>) -> (r: Result<i32, VmError>)
        ensures
            match link(all_lines(str_views(programs@) + old(self).std_units())) {
                Err(e) => r == Err::<i32, VmError>(VmError::Assemble(e)),
                Ok(img) => if img.code.len() > 3000 || img.data.len() > 500 {
                    r == Err::<i32, VmError>(VmError::TooLarge)
                } else {
                    r == run_result(img.code, img.data, old(self).out_chars@, old(self).inp_chars@)
                        && (r.is_ok() ==> final(self)@ == run_program(
                        img.code,
                        img.data,
                        old(self).out_chars@,
                        old(self).inp_chars@,
                    ).unwrap())
                },
            },
    {
        let mut all = programs;
        let mut i: usize = 0;
        let ghost first = str_views(all@);
        while i < self.std_programs.len()
            invariant
                0 <= i <= self.std_programs@.len(),
                str_views(all@) == first + self.std_units().subrange(0, i as int),
            decreases self.std_programs@.len() - i,
        {
            let ghost before = all@;
            let unit = self.std_programs[i].as_str();
            all.push(unit);
            i += 1;
            proof {
                assert(unit@ == self.std_units()[i - 1]);
                assert(str_views(all@) =~= str_views(before).push(unit@));
                assert(self.std_units().subrange(0, i as int) =~= self.std_units().subrange(
                    0,
                    i - 1,
                ).push(self.std_units()[i - 1]));
                assert(str_views(all@) =~= first + self.std_units().subrange(0, i as int));
            }
        }
        proof {
            assert(self.std_units().subrange(0, self.std_programs@.len() as int) =~= self.std_units());
        }
        let exe = match assemble_and_link(all) {
            Ok(e) => e,
            Err(e) => return Err(VmError::Assemble(e)),
        };
        self.run_executable(&exe)
    }

    /// Assembles `program` with the library units and runs it.
    pub fn assemble_and_run(&mut self, program: &str) -> (r: Result<i32, VmError>)
        ensures
            match link(all_lines(seq![program@] + old(self).std_units())) {
                Err(e) => r == Err::<i32, VmError>(VmError::Assemble(e)),
                Ok(img) => if img.code.len() > 3000 || img.data.len() > 500 {
                    r == Err::<i32, VmError>(VmError::TooLarge)
                } else {
                    r == run_result(img.code, img.data, old(self).out_chars@, old(self).inp_chars@)
                        && (r.is_ok() ==> final(self)@ == run_program(
                        img.code,
                        img.data,
                        old(self).out_chars@,
                        old(self).inp_chars@,
                    ).unwrap())
                },
            },
    {
        let programs = vec![program];
        proof {
            assert(str_views(programs@) =~= seq![program@]);
        }
        self.assemble_link_and_run(programs)
    }

    /// Assembles `program` alone and runs it.
    pub fn assemble_and_run_no_std(&mut self, program: &str) -> (r: Result<i32, VmError>)
        ensures
            match link(all_lines(seq![program@])) {
                Err(e) => r == Err::<i32, VmError>(VmError::Assemble(e)),
                Ok(img) => if img.code.len() > 3000 || img.data.len() > 500 {
                    r == Err::<i32, VmError>(VmError::TooLarge)
                } else {
                    r == run_result(img.code, img.data, old(self).out_chars@, old(self).inp_chars@)
                        && (r.is_ok() ==> final(self)@ == run_program(
                        img.code,
                        img.data,
                        old(self).out_chars@,
                        old(self).inp_chars@,
                    ).unwrap())
                },
            },
    {
        let programs = vec![program];
        proof {
            assert(str_views(programs@) =~= seq![program@]);
        }
        let exe = match assemble_and_link(programs) {
            Ok(e) => e,
            Err(e) => return Err(VmError::Assemble(e)),
        };
        self.run_executable(&exe)
    }
}

} // verus!
