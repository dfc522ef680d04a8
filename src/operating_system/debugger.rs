//! Decisions of the interactive debugger: which command a line names, and
//! what each command does to the session. Reading lines and printing stay
//! with the caller.
use vstd::prelude::*;
use crate::cpu::instructions::Register;
use crate::cpu::Registers;
use crate::operating_system::assembler::Executable;
use crate::operating_system::PROGRAM_INIT_ADDRESS;
use crate::text::{chars_eq, parse_int, split_whitespace, split_ws, str_chars, views, int_of};

verus! {

/// A debugger command.
#[derive(Debug, PartialEq, Eq, Structural, Clone, Copy)]
pub enum DebugCmd {
    /// Resume until the next breakpoint or `HALT`.
    Continue,
    /// Take one step.
    Step,
    /// Show a register.
    Reg(Register),
    /// Set a breakpoint at a source line.
    Break(u32),
}

/// What the caller does next.
#[derive(Debug, PartialEq, Eq, Structural, Clone, Copy)]
pub enum DebugAction {
    /// Run without prompting.
    Resume,
    /// Take one step, then prompt again.
    StepOnce,
    /// Print this register value.
    Print(i32),
    /// A breakpoint was set at this instruction index.
    Added(u32),
    /// The line given to `break` is not in the program.
    BadLine,
}

/// The session: whether it runs without prompting, and the instruction
/// indices that stop it.
pub struct DebugState {
    pub running: bool,
    pub breakpoints: Vec<u32>,
}

/// The command that a line's tokens name.
pub open spec fn debug_cmd_of(t: Seq<Seq<char>>) -> Option<DebugCmd> {
    if t.len() == 0 {
        None
    } else if t[0] == seq!['c', 'o', 'n', 't', 'i', 'n', 'u', 'e'] {
        Some(DebugCmd::Continue)
    } else if t[0] == seq!['s', 't', 'e', 'p'] {
        Some(DebugCmd::Step)
    } else if t[0] == seq!['r', 'e', 'g'] {
        if t.len() >= 2 && Register::parse(t[1]).is_some() {
            Some(DebugCmd::Reg(Register::parse(t[1]).unwrap()))
        } else {
            None
        }
    } else if t[0] == seq!['b', 'r', 'e', 'a', 'k'] {
        if t.len() >= 2 && int_of(t[1]).is_some() && int_of(t[1]).unwrap() >= 0 {
            Some(DebugCmd::Break(int_of(t[1]).unwrap() as u32))
        } else {
            None
        }
    } else {
        None
    }
}

/// Reads a debugger command line.
pub fn parse_debug_cmd(line: &str) -> (r: Option<DebugCmd>)
    ensures
        r == debug_cmd_of(split_ws(line@)),
{
    let chars = str_chars(line);
    let t = split_whitespace(&chars);
    let ghost v = views(t@);
    if t.len() == 0 {
        return None;
    }
    proof {
        assert(v[0] == t@[0]@);
    }
    if chars_eq(&t[0], &['c', 'o', 'n', 't', 'i', 'n', 'u', 'e']) {
        Some(DebugCmd::Continue)
    } else if chars_eq(&t[0], &['s', 't', 'e', 'p']) {
        Some(DebugCmd::Step)
    } else if chars_eq(&t[0], &['r', 'e', 'g']) {
        if t.len() < 2 {
            return None;
        }
        proof {
            assert(v[1] == t@[1]@);
        }
        match Register::from_chars(&t[1]) {
            Some(r) => Some(DebugCmd::Reg(r)),
            None => None,
        }
    } else if chars_eq(&t[0], &['b', 'r', 'e', 'a', 'k']) {
        if t.len() < 2 {
            return None;
        }
        proof {
            assert(v[1] == t@[1]@);
        }
        match parse_int(&t[1]) {
            Some(n) => if n >= 0 {
                Some(DebugCmd::Break(n as u32))
            } else {
                None
            },
            None => None,
        }
    } else {
        None
    }
}

impl DebugState {
    /// A session that prompts before the first instruction, with no breakpoints.
    pub fn new() -> (r: DebugState)
        ensures
            !r.running,
            r.breakpoints@ == Seq::<u32>::empty(),
    {
        DebugState { running: false, breakpoints: Vec::new() }
    }

    /// Whether instruction index `idx` has a breakpoint.
    pub fn has_breakpoint(&self, idx: u32) -> (r: bool)
        ensures
            r == self.breakpoints@.contains(idx),
    {
        let mut i: usize = 0;
        while i < self.breakpoints.len()
            invariant
                0 <= i <= self.breakpoints@.len(),
                forall|k: int| 0 <= k < i ==> self.breakpoints@[k] != idx,
            decreases self.breakpoints@.len() - i,
        {
            if self.breakpoints[i] == idx {
                return true;
            }
            i += 1;
        }
        false
    }

    /// Before each instruction: reaching a breakpoint at `IR - 1000` pauses
    /// the session.
    pub fn check_breakpoint(&mut self, ir: i32)
        ensures
            final(self).breakpoints == old(self).breakpoints,
            final(self).running == (old(self).running && !(ir >= PROGRAM_INIT_ADDRESS
                && old(self).breakpoints@.contains((ir - PROGRAM_INIT_ADDRESS) as u32))),
    {
        if ir >= PROGRAM_INIT_ADDRESS as i32 && self.has_breakpoint((ir - PROGRAM_INIT_ADDRESS as i32) as u32) {
            self.running = false;
        }
    }
}

/// What a command does: `continue` resumes running, `step` takes one step,
/// `reg N` shows register `N`, `break L` adds the instruction index of
/// source line `L` to the breakpoints.
pub fn debug_step(st: &mut DebugState, regs: &Registers, exe: &Executable, cmd: DebugCmd) -> (r: DebugAction)
    ensures
        match cmd {
            DebugCmd::Continue => r == DebugAction::Resume && final(st).running
                && final(st).breakpoints == old(st).breakpoints,
            DebugCmd::Step => r == DebugAction::StepOnce && final(st).running == old(st).running
                && final(st).breakpoints == old(st).breakpoints,
            DebugCmd::Reg(n) => r == DebugAction::Print(regs.reg(n)) && final(st).running
                == old(st).running && final(st).breakpoints == old(st).breakpoints,
            DebugCmd::Break(l) => if (l as int) < exe.line_table@.len() {
                r == DebugAction::Added(exe.line_table@[l as int]) && final(st).running
                    == old(st).running && final(st).breakpoints@ == old(st).breakpoints@.push(
                    exe.line_table@[l as int],
                )
            } else {
                r == DebugAction::BadLine && final(st).running == old(st).running
                    && final(st).breakpoints == old(st).breakpoints
            },
        },
{
    match cmd {
        DebugCmd::Continue => {
            st.running = true;
            DebugAction::Resume
        },
        DebugCmd::Step => DebugAction::StepOnce,
        DebugCmd::Reg(n) => DebugAction::Print(regs.get(&n)),
        DebugCmd::Break(l) => {
            if (l as usize) < exe.line_table.len() {
                let idx = exe.line_table[l as usize];
                st.breakpoints.push(idx);
                DebugAction::Added(idx)
            } else {
                DebugAction::BadLine
            }
        },
    }
}

} // verus!
