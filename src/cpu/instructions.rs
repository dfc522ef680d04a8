//! The machine's instruction set: registers, operations, the tagged
//! instruction type, and its textual form (one mnemonic and its operands on a
//! line, separated by whitespace).
use vstd::prelude::*;
use crate::text::{
    chars_eq, int_of, int_text, is_digit, is_word, lemma_int_text, lemma_scan_single, lemma_scan_sp,
    no_ws, parse_int, push_int_text, sp, split_whitespace, split_ws, str_chars, tok_scan, views,
};

verus! {

pub open spec fn w2(t: Seq<char>, a: char, b: char) -> bool {
    t.len() == 2 && t[0] == a && t[1] == b
}

pub open spec fn w3(t: Seq<char>, a: char, b: char, c: char) -> bool {
    t.len() == 3 && t[0] == a && t[1] == b && t[2] == c
}

pub open spec fn w4(t: Seq<char>, a: char, b: char, c: char, d: char) -> bool {
    t.len() == 4 && t[0] == a && t[1] == b && t[2] == c && t[3] == d
}

pub(crate) fn is_w2(t: &Vec<char>, a: char, b: char) -> (r: bool)
    ensures
        r == w2(t@, a, b),
{
    t.len() == 2 && t[0] == a && t[1] == b
}

pub(crate) fn is_w3(t: &Vec<char>, a: char, b: char, c: char) -> (r: bool)
    ensures
        r == w3(t@, a, b, c),
{
    t.len() == 3 && t[0] == a && t[1] == b && t[2] == c
}

pub(crate) fn is_w4(t: &Vec<char>, a: char, b: char, c: char, d: char) -> (r: bool)
    ensures
        r == w4(t@, a, b, c, d),
{
    t.len() == 4 && t[0] == a && t[1] == b && t[2] == c && t[3] == d
}

fn push2(out: &mut Vec<char>, a: char, b: char)
    ensures
        final(out)@ == old(out)@ + seq![a, b],
{
    out.push(a);
    out.push(b);
    proof {
        assert(final(out)@ =~= old(out)@ + seq![a, b]);
    }
}

fn push3(out: &mut Vec<char>, a: char, b: char, c: char)
    ensures
        final(out)@ == old(out)@ + seq![a, b, c],
{
    out.push(a);
    out.push(b);
    out.push(c);
    proof {
        assert(final(out)@ =~= old(out)@ + seq![a, b, c]);
    }
}

fn push4(out: &mut Vec<char>, a: char, b: char, c: char, d: char)
    ensures
        final(out)@ == old(out)@ + seq![a, b, c, d],
{
    out.push(a);
    out.push(b);
    out.push(c);
    out.push(d);
    proof {
        assert(final(out)@ =~= old(out)@ + seq![a, b, c, d]);
    }
}

/// A machine register.
#[derive(Debug, PartialEq, Eq, Structural, Hash, Clone, Copy)]
pub enum Register {
    R1,
    R2,
    R3,
    R4,
    SP,
    BP,
    IR,
    ZR,
}

impl Register {
    /// The mnemonic in assembly text.
    pub open spec fn name(self) -> Seq<char> {
        match self {
            Register::R1 => seq!['R', '1'],
            Register::R2 => seq!['R', '2'],
            Register::R3 => seq!['R', '3'],
            Register::R4 => seq!['R', '4'],
            Register::SP => seq!['S', 'P'],
            Register::BP => seq!['B', 'P'],
            Register::IR => seq!['I', 'R'],
            Register::ZR => seq!['Z', 'R'],
        }
    }

    /// The value that a token names, if any.
    pub open spec fn parse(t: Seq<char>) -> Option<Register> {
        if w2(t, 'R', '1') {
            Some(Register::R1)
        } else if w2(t, 'R', '2') {
            Some(Register::R2)
        } else if w2(t, 'R', '3') {
            Some(Register::R3)
        } else if w2(t, 'R', '4') {
            Some(Register::R4)
        } else if w2(t, 'S', 'P') {
            Some(Register::SP)
        } else if w2(t, 'B', 'P') {
            Some(Register::BP)
        } else if w2(t, 'I', 'R') {
            Some(Register::IR)
        } else if w2(t, 'Z', 'R') {
            Some(Register::ZR)
        } else {
            None
        }
    }

    pub fn from_chars(t: &Vec<char>) -> (r: Option<Register>)
        ensures
            r == Register::parse(t@),
    {
        if is_w2(t, 'R', '1') {
            Some(Register::R1)
        } else if is_w2(t, 'R', '2') {
            Some(Register::R2)
        } else if is_w2(t, 'R', '3') {
            Some(Register::R3)
        } else if is_w2(t, 'R', '4') {
            Some(Register::R4)
        } else if is_w2(t, 'S', 'P') {
            Some(Register::SP)
        } else if is_w2(t, 'B', 'P') {
            Some(Register::BP)
        } else if is_w2(t, 'I', 'R') {
            Some(Register::IR)
        } else if is_w2(t, 'Z', 'R') {
            Some(Register::ZR)
        } else {
            None
        }
    }

    /// Appends the mnemonic.
    pub fn push_name(&self, out: &mut Vec<char>)
        ensures
            final(out)@ == old(out)@ + self.name(),
    {
        match self {
            Register::R1 => push2(out, 'R', '1'),
            Register::R2 => push2(out, 'R', '2'),
            Register::R3 => push2(out, 'R', '3'),
            Register::R4 => push2(out, 'R', '4'),
            Register::SP => push2(out, 'S', 'P'),
            Register::BP => push2(out, 'B', 'P'),
            Register::IR => push2(out, 'I', 'R'),
            Register::ZR => push2(out, 'Z', 'R'),
        }
    }

    pub proof fn lemma_name(self)
        ensures
            Register::parse(self.name()) == Some(self),
            is_word(self.name()),
    {
    }
}

/// Arithmetic on one register, in place.
#[derive(Debug, PartialEq, Eq, Structural, Hash, Clone, Copy)]
pub enum UnaryArithOp {
    NEG,
}

impl UnaryArithOp {
    /// The mnemonic in assembly text.
    pub open spec fn name(self) -> Seq<char> {
        match self {
            UnaryArithOp::NEG => seq!['N', 'E', 'G'],
        }
    }

    /// The value that a token names, if any.
    pub open spec fn parse(t: Seq<char>) -> Option<UnaryArithOp> {
        if w3(t, 'N', 'E', 'G') {
            Some(UnaryArithOp::NEG)
        } else {
            None
        }
    }

    pub fn from_chars(t: &Vec<char>) -> (r: Option<UnaryArithOp>)
        ensures
            r == UnaryArithOp::parse(t@),
    {
        if is_w3(t, 'N', 'E', 'G') {
            Some(UnaryArithOp::NEG)
        } else {
            None
        }
    }

    /// Appends the mnemonic.
    pub fn push_name(&self, out: &mut Vec<char>)
        ensures
            final(out)@ == old(out)@ + self.name(),
    {
        match self {
            UnaryArithOp::NEG => push3(out, 'N', 'E', 'G'),
        }
    }

    pub proof fn lemma_name(self)
        ensures
            UnaryArithOp::parse(self.name()) == Some(self),
            is_word(self.name()),
    {
    }
}

/// Arithmetic on two operands.
#[derive(Debug, PartialEq, Eq, Structural, Hash, Clone, Copy)]
pub enum BinArithOp {
    ADD,
    SUB,
    MUL,
    DIV,
    MOD,
    AND,
    OR,
    SHL,
    SHR,
    XOR,
}

impl BinArithOp {
    /// The mnemonic in assembly text.
    pub open spec fn name(self) -> Seq<char> {
        match self {
            BinArithOp::ADD => seq!['A', 'D', 'D'],
            BinArithOp::SUB => seq!['S', 'U', 'B'],
            BinArithOp::MUL => seq!['M', 'U', 'L'],
            BinArithOp::DIV => seq!['D', 'I', 'V'],
            BinArithOp::MOD => seq!['M', 'O', 'D'],
            BinArithOp::AND => seq!['A', 'N', 'D'],
            BinArithOp::OR => seq!['O', 'R'],
            BinArithOp::SHL => seq!['S', 'H', 'L'],
            BinArithOp::SHR => seq!['S', 'H', 'R'],
            BinArithOp::XOR => seq!['X', 'O', 'R'],
        }
    }

    /// The value that a token names, if any.
    pub open spec fn parse(t: Seq<char>) -> Option<BinArithOp> {
        if w3(t, 'A', 'D', 'D') {
            Some(BinArithOp::ADD)
        } else if w3(t, 'S', 'U', 'B') {
            Some(BinArithOp::SUB)
        } else if w3(t, 'M', 'U', 'L') {
            Some(BinArithOp::MUL)
        } else if w3(t, 'D', 'I', 'V') {
            Some(BinArithOp::DIV)
        } else if w3(t, 'M', 'O', 'D') {
            Some(BinArithOp::MOD)
        } else if w3(t, 'A', 'N', 'D') {
            Some(BinArithOp::AND)
        } else if w2(t, 'O', 'R') {
            Some(BinArithOp::OR)
        } else if w3(t, 'S', 'H', 'L') {
            Some(BinArithOp::SHL)
        } else if w3(t, 'S', 'H', 'R') {
            Some(BinArithOp::SHR)
        } else if w3(t, 'X', 'O', 'R') {
            Some(BinArithOp::XOR)
        } else {
            None
        }
    }

    pub fn from_chars(t: &Vec<char>) -> (r: Option<BinArithOp>)
        ensures
            r == BinArithOp::parse(t@),
    {
        if is_w3(t, 'A', 'D', 'D') {
            Some(BinArithOp::ADD)
        } else if is_w3(t, 'S', 'U', 'B') {
            Some(BinArithOp::SUB)
        } else if is_w3(t, 'M', 'U', 'L') {
            Some(BinArithOp::MUL)
        } else if is_w3(t, 'D', 'I', 'V') {
            Some(BinArithOp::DIV)
        } else if is_w3(t, 'M', 'O', 'D') {
            Some(BinArithOp::MOD)
        } else if is_w3(t, 'A', 'N', 'D') {
            Some(BinArithOp::AND)
        } else if is_w2(t, 'O', 'R') {
            Some(BinArithOp::OR)
        } else if is_w3(t, 'S', 'H', 'L') {
            Some(BinArithOp::SHL)
        } else if is_w3(t, 'S', 'H', 'R') {
            Some(BinArithOp::SHR)
        } else if is_w3(t, 'X', 'O', 'R') {
            Some(BinArithOp::XOR)
        } else {
            None
        }
    }

    /// Appends the mnemonic.
    pub fn push_name(&self, out: &mut Vec<char>)
        ensures
            final(out)@ == old(out)@ + self.name(),
    {
        match self {
            BinArithOp::ADD => push3(out, 'A', 'D', 'D'),
            BinArithOp::SUB => push3(out, 'S', 'U', 'B'),
            BinArithOp::MUL => push3(out, 'M', 'U', 'L'),
            BinArithOp::DIV => push3(out, 'D', 'I', 'V'),
            BinArithOp::MOD => push3(out, 'M', 'O', 'D'),
            BinArithOp::AND => push3(out, 'A', 'N', 'D'),
            BinArithOp::OR => push2(out, 'O', 'R'),
            BinArithOp::SHL => push3(out, 'S', 'H', 'L'),
            BinArithOp::SHR => push3(out, 'S', 'H', 'R'),
            BinArithOp::XOR => push3(out, 'X', 'O', 'R'),
        }
    }

    pub proof fn lemma_name(self)
        ensures
            BinArithOp::parse(self.name()) == Some(self),
            is_word(self.name()),
    {
    }
}

/// Moves between registers, immediates and memory.
#[derive(Debug, PartialEq, Eq, Structural, Hash, Clone, Copy)]
pub enum DataOp {
    LOAD,
    STR,
    MOV,
    LEA,
}

impl DataOp {
    /// The mnemonic in assembly text.
    pub open spec fn name(self) -> Seq<char> {
        match self {
            DataOp::LOAD => seq!['L', 'O', 'A', 'D'],
            DataOp::STR => seq!['S', 'T', 'R'],
            DataOp::MOV => seq!['M', 'O', 'V'],
            DataOp::LEA => seq!['L', 'E', 'A'],
        }
    }

    /// The value that a token names, if any.
    pub open spec fn parse(t: Seq<char>) -> Option<DataOp> {
        if w4(t, 'L', 'O', 'A', 'D') {
            Some(DataOp::LOAD)
        } else if w3(t, 'S', 'T', 'R') {
            Some(DataOp::STR)
        } else if w3(t, 'M', 'O', 'V') {
            Some(DataOp::MOV)
        } else if w3(t, 'L', 'E', 'A') {
            Some(DataOp::LEA)
        } else {
            None
        }
    }

    pub fn from_chars(t: &Vec<char>) -> (r: Option<DataOp>)
        ensures
            r == DataOp::parse(t@),
    {
        if is_w4(t, 'L', 'O', 'A', 'D') {
            Some(DataOp::LOAD)
        } else if is_w3(t, 'S', 'T', 'R') {
            Some(DataOp::STR)
        } else if is_w3(t, 'M', 'O', 'V') {
            Some(DataOp::MOV)
        } else if is_w3(t, 'L', 'E', 'A') {
            Some(DataOp::LEA)
        } else {
            None
        }
    }

    /// Appends the mnemonic.
    pub fn push_name(&self, out: &mut Vec<char>)
        ensures
            final(out)@ == old(out)@ + self.name(),
    {
        match self {
            DataOp::LOAD => push4(out, 'L', 'O', 'A', 'D'),
            DataOp::STR => push3(out, 'S', 'T', 'R'),
            DataOp::MOV => push3(out, 'M', 'O', 'V'),
            DataOp::LEA => push3(out, 'L', 'E', 'A'),
        }
    }

    pub proof fn lemma_name(self)
        ensures
            DataOp::parse(self.name()) == Some(self),
            is_word(self.name()),
    {
    }
}

/// Stack pushes and pops.
#[derive(Debug, PartialEq, Eq, Structural, Hash, Clone, Copy)]
pub enum StackOp {
    PUSH,
    POP,
}

impl StackOp {
    /// The mnemonic in assembly text.
    pub open spec fn name(self) -> Seq<char> {
        match self {
            StackOp::PUSH => seq!['P', 'U', 'S', 'H'],
            StackOp::POP => seq!['P', 'O', 'P'],
        }
    }

    /// The value that a token names, if any.
    pub open spec fn parse(t: Seq<char>) -> Option<StackOp> {
        if w4(t, 'P', 'U', 'S', 'H') {
            Some(StackOp::PUSH)
        } else if w3(t, 'P', 'O', 'P') {
            Some(StackOp::POP)
        } else {
            None
        }
    }

    pub fn from_chars(t: &Vec<char>) -> (r: Option<StackOp>)
        ensures
            r == StackOp::parse(t@),
    {
        if is_w4(t, 'P', 'U', 'S', 'H') {
            Some(StackOp::PUSH)
        } else if is_w3(t, 'P', 'O', 'P') {
            Some(StackOp::POP)
        } else {
            None
        }
    }

    /// Appends the mnemonic.
    pub fn push_name(&self, out: &mut Vec<char>)
        ensures
            final(out)@ == old(out)@ + self.name(),
    {
        match self {
            StackOp::PUSH => push4(out, 'P', 'U', 'S', 'H'),
            StackOp::POP => push3(out, 'P', 'O', 'P'),
        }
    }

    pub proof fn lemma_name(self)
        ensures
            StackOp::parse(self.name()) == Some(self),
            is_word(self.name()),
    {
    }
}

/// Comparisons that set `ZR` to 1 or 0.
#[derive(Debug, PartialEq, Eq, Structural, Hash, Clone, Copy)]
pub enum TestOp {
    TSTE,
    TSTN,
    TSTG,
    TSTL,
}

impl TestOp {
    /// The mnemonic in assembly text.
    pub open spec fn name(self) -> Seq<char> {
        match self {
            TestOp::TSTE => seq!['T', 'S', 'T', 'E'],
            TestOp::TSTN => seq!['T', 'S', 'T', 'N'],
            TestOp::TSTG => seq!['T', 'S', 'T', 'G'],
            TestOp::TSTL => seq!['T', 'S', 'T', 'L'],
        }
    }

    /// The value that a token names, if any.
    pub open spec fn parse(t: Seq<char>) -> Option<TestOp> {
        if w4(t, 'T', 'S', 'T', 'E') {
            Some(TestOp::TSTE)
        } else if w4(t, 'T', 'S', 'T', 'N') {
            Some(TestOp::TSTN)
        } else if w4(t, 'T', 'S', 'T', 'G') {
            Some(TestOp::TSTG)
        } else if w4(t, 'T', 'S', 'T', 'L') {
            Some(TestOp::TSTL)
        } else {
            None
        }
    }

    pub fn from_chars(t: &Vec<char>) -> (r: Option<TestOp>)
        ensures
            r == TestOp::parse(t@),
    {
        if is_w4(t, 'T', 'S', 'T', 'E') {
            Some(TestOp::TSTE)
        } else if is_w4(t, 'T', 'S', 'T', 'N') {
            Some(TestOp::TSTN)
        } else if is_w4(t, 'T', 'S', 'T', 'G') {
            Some(TestOp::TSTG)
        } else if is_w4(t, 'T', 'S', 'T', 'L') {
            Some(TestOp::TSTL)
        } else {
            None
        }
    }

    /// Appends the mnemonic.
    pub fn push_name(&self, out: &mut Vec<char>)
        ensures
            final(out)@ == old(out)@ + self.name(),
    {
        match self {
            TestOp::TSTE => push4(out, 'T', 'S', 'T', 'E'),
            TestOp::TSTN => push4(out, 'T', 'S', 'T', 'N'),
            TestOp::TSTG => push4(out, 'T', 'S', 'T', 'G'),
            TestOp::TSTL => push4(out, 'T', 'S', 'T', 'L'),
        }
    }

    pub proof fn lemma_name(self)
        ensures
            TestOp::parse(self.name()) == Some(self),
            is_word(self.name()),
    {
    }
}

/// Relative jumps and calls.
#[derive(Debug, PartialEq, Eq, Structural, Hash, Clone, Copy)]
pub enum FlowOp {
    JUMP,
    TJMP,
    FJMP,
    CALL,
}

impl FlowOp {
    /// The mnemonic in assembly text.
    pub open spec fn name(self) -> Seq<char> {
        match self {
            FlowOp::JUMP => seq!['J', 'U', 'M', 'P'],
            FlowOp::TJMP => seq!['T', 'J', 'M', 'P'],
            FlowOp::FJMP => seq!['F', 'J', 'M', 'P'],
            FlowOp::CALL => seq!['C', 'A', 'L', 'L'],
        }
    }

    /// The value that a token names, if any.
    pub open spec fn parse(t: Seq<char>) -> Option<FlowOp> {
        if w4(t, 'J', 'U', 'M', 'P') {
            Some(FlowOp::JUMP)
        } else if w4(t, 'T', 'J', 'M', 'P') {
            Some(FlowOp::TJMP)
        } else if w4(t, 'F', 'J', 'M', 'P') {
            Some(FlowOp::FJMP)
        } else if w4(t, 'C', 'A', 'L', 'L') {
            Some(FlowOp::CALL)
        } else {
            None
        }
    }

    pub fn from_chars(t: &Vec<char>) -> (r: Option<FlowOp>)
        ensures
            r == FlowOp::parse(t@),
    {
        if is_w4(t, 'J', 'U', 'M', 'P') {
            Some(FlowOp::JUMP)
        } else if is_w4(t, 'T', 'J', 'M', 'P') {
            Some(FlowOp::TJMP)
        } else if is_w4(t, 'F', 'J', 'M', 'P') {
            Some(FlowOp::FJMP)
        } else if is_w4(t, 'C', 'A', 'L', 'L') {
            Some(FlowOp::CALL)
        } else {
            None
        }
    }

    /// Appends the mnemonic.
    pub fn push_name(&self, out: &mut Vec<char>)
        ensures
            final(out)@ == old(out)@ + self.name(),
    {
        match self {
            FlowOp::JUMP => push4(out, 'J', 'U', 'M', 'P'),
            FlowOp::TJMP => push4(out, 'T', 'J', 'M', 'P'),
            FlowOp::FJMP => push4(out, 'F', 'J', 'M', 'P'),
            FlowOp::CALL => push4(out, 'C', 'A', 'L', 'L'),
        }
    }

    pub proof fn lemma_name(self)
        ensures
            FlowOp::parse(self.name()) == Some(self),
            is_word(self.name()),
    {
    }
}

/// Halting and returning.
#[derive(Debug, PartialEq, Eq, Structural, Hash, Clone, Copy)]
pub enum OtherOp {
    HALT,
    RET,
}

impl OtherOp {
    /// The mnemonic in assembly text.
    pub open spec fn name(self) -> Seq<char> {
        match self {
            OtherOp::HALT => seq!['H', 'A', 'L', 'T'],
            OtherOp::RET => seq!['R', 'E', 'T'],
        }
    }

    /// The value that a token names, if any.
    pub open spec fn parse(t: Seq<char>) -> Option<OtherOp> {
        if w4(t, 'H', 'A', 'L', 'T') {
            Some(OtherOp::HALT)
        } else if w3(t, 'R', 'E', 'T') {
            Some(OtherOp::RET)
        } else {
            None
        }
    }

    pub fn from_chars(t: &Vec<char>) -> (r: Option<OtherOp>)
        ensures
            r == OtherOp::parse(t@),
    {
        if is_w4(t, 'H', 'A', 'L', 'T') {
            Some(OtherOp::HALT)
        } else if is_w3(t, 'R', 'E', 'T') {
            Some(OtherOp::RET)
        } else {
            None
        }
    }

    /// Appends the mnemonic.
    pub fn push_name(&self, out: &mut Vec<char>)
        ensures
            final(out)@ == old(out)@ + self.name(),
    {
        match self {
            OtherOp::HALT => push4(out, 'H', 'A', 'L', 'T'),
            OtherOp::RET => push3(out, 'R', 'E', 'T'),
        }
    }

    pub proof fn lemma_name(self)
        ensures
            OtherOp::parse(self.name()) == Some(self),
            is_word(self.name()),
    {
    }
}

/// An operand that is either a register or an immediate value.
#[derive(Debug, PartialEq, Eq, Structural, Clone, Copy)]
pub enum RegOrImm {
    Reg(Register),
    Val(i32),
}

impl RegOrImm {
    pub open spec fn text(self) -> Seq<char> {
        match self {
            RegOrImm::Reg(r) => r.name(),
            RegOrImm::Val(v) => int_text(v as int),
        }
    }

    /// A register name, else a decimal integer.
    pub open spec fn parse(t: Seq<char>) -> Option<RegOrImm> {
        match Register::parse(t) {
            Some(r) => Some(RegOrImm::Reg(r)),
            None => match int_of(t) {
                Some(v) => Some(RegOrImm::Val(v)),
                None => None,
            },
        }
    }

    pub fn from_chars(t: &Vec<char>) -> (r: Option<RegOrImm>)
        ensures
            r == RegOrImm::parse(t@),
    {
        match Register::from_chars(t) {
            Some(reg) => Some(RegOrImm::Reg(reg)),
            None => match parse_int(t) {
                Some(v) => Some(RegOrImm::Val(v)),
                None => None,
            },
        }
    }

    pub fn from_str(s: &str) -> (r: Result<RegOrImm, ()>)
        ensures
            r == (match RegOrImm::parse(s@) {
                Some(x) => Ok(x),
                None => Err(()),
            }),
    {
        let t = str_chars(s);
        match RegOrImm::from_chars(&t) {
            Some(x) => Ok(x),
            None => Err(()),
        }
    }

    pub fn push_text(&self, out: &mut Vec<char>)
        ensures
            final(out)@ == old(out)@ + self.text(),
    {
        match self {
            RegOrImm::Reg(r) => r.push_name(out),
            RegOrImm::Val(v) => push_int_text(*v, out),
        }
    }

    pub proof fn lemma_text(self)
        ensures
            RegOrImm::parse(self.text()) == Some(self),
            is_word(self.text()),
    {
        match self {
            RegOrImm::Reg(r) => r.lemma_name(),
            RegOrImm::Val(v) => {
                lemma_int_text(v);
                let t = int_text(v as int);
                assert(t[0] == '-' || is_digit(t[0]));
                assert(Register::parse(t) == None::<Register>);
            },
        }
    }
}

/// One machine instruction.
#[derive(Debug, PartialEq, Eq, Structural, Clone, Copy)]
pub enum Instruction {
    UnaryArith { op: UnaryArithOp, arg: Register },
    BinArith { op: BinArithOp, dst: Register, arg1: Register, arg2: RegOrImm },
    Data { op: DataOp, dst: Register, src: RegOrImm },
    Stack { op: StackOp, dst: Register },
    Test { op: TestOp, arg1: Register, arg2: RegOrImm },
    Flow { op: FlowOp, offset: i32 },
    Other { op: OtherOp },
}

impl Instruction {
    /// The tokens of the instruction's textual form.
    pub open spec fn tokens(self) -> Seq<Seq<char>> {
        match self {
            Instruction::UnaryArith { op, arg } => seq![op.name(), arg.name()],
            Instruction::BinArith { op, dst, arg1, arg2 } => seq![
                op.name(),
                dst.name(),
                arg1.name(),
                arg2.text(),
            ],
            Instruction::Data { op, dst, src } => seq![op.name(), dst.name(), src.text()],
            Instruction::Stack { op, dst } => seq![op.name(), dst.name()],
            Instruction::Test { op, arg1, arg2 } => seq![op.name(), arg1.name(), arg2.text()],
            Instruction::Flow { op, offset } => seq![op.name(), int_text(offset as int)],
            Instruction::Other { op } => seq![op.name()],
        }
    }

    /// The canonical textual form: the tokens joined by single spaces.
    pub open spec fn text(self) -> Seq<char> {
        match self {
            Instruction::UnaryArith { op, arg } => sp(op.name(), arg.name()),
            Instruction::BinArith { op, dst, arg1, arg2 } => sp(
                sp(sp(op.name(), dst.name()), arg1.name()),
                arg2.text(),
            ),
            Instruction::Data { op, dst, src } => sp(sp(op.name(), dst.name()), src.text()),
            Instruction::Stack { op, dst } => sp(op.name(), dst.name()),
            Instruction::Test { op, arg1, arg2 } => sp(sp(op.name(), arg1.name()), arg2.text()),
            Instruction::Flow { op, offset } => sp(op.name(), int_text(offset as int)),
            Instruction::Other { op } => op.name(),
        }
    }

    /// The instruction that a line's tokens spell: the first token selects
    /// the shape, the others are typed by position.
    pub open spec fn parse_tokens(t: Seq<Seq<char>>) -> Option<Instruction> {
        if t.len() == 0 {
            None
        } else if UnaryArithOp::parse(t[0]).is_some() {
            if t.len() == 2 && Register::parse(t[1]).is_some() {
                Some(
                    Instruction::UnaryArith {
                        op: UnaryArithOp::parse(t[0]).unwrap(),
                        arg: Register::parse(t[1]).unwrap(),
                    },
                )
            } else {
                None
            }
        } else if BinArithOp::parse(t[0]).is_some() {
            if t.len() == 4 && Register::parse(t[1]).is_some() && Register::parse(t[2]).is_some()
                && RegOrImm::parse(t[3]).is_some() {
                Some(
                    Instruction::BinArith {
                        op: BinArithOp::parse(t[0]).unwrap(),
                        dst: Register::parse(t[1]).unwrap(),
                        arg1: Register::parse(t[2]).unwrap(),
                        arg2: RegOrImm::parse(t[3]).unwrap(),
                    },
                )
            } else {
                None
            }
        } else if DataOp::parse(t[0]).is_some() {
            if t.len() == 3 && Register::parse(t[1]).is_some() && RegOrImm::parse(t[2]).is_some() {
                Some(
                    Instruction::Data {
                        op: DataOp::parse(t[0]).unwrap(),
                        dst: Register::parse(t[1]).unwrap(),
                        src: RegOrImm::parse(t[2]).unwrap(),
                    },
                )
            } else {
                None
            }
        } else if StackOp::parse(t[0]).is_some() {
            if t.len() == 2 && Register::parse(t[1]).is_some() {
                Some(
                    Instruction::Stack {
                        op: StackOp::parse(t[0]).unwrap(),
                        dst: Register::parse(t[1]).unwrap(),
                    },
                )
            } else {
                None
            }
        } else if TestOp::parse(t[0]).is_some() {
            if t.len() == 3 && Register::parse(t[1]).is_some() && RegOrImm::parse(t[2]).is_some() {
                Some(
                    Instruction::Test {
                        op: TestOp::parse(t[0]).unwrap(),
                        arg1: Register::parse(t[1]).unwrap(),
                        arg2: RegOrImm::parse(t[2]).unwrap(),
                    },
                )
            } else {
                None
            }
        } else if FlowOp::parse(t[0]).is_some() {
            if t.len() == 2 && int_of(t[1]).is_some() {
                Some(
                    Instruction::Flow {
                        op: FlowOp::parse(t[0]).unwrap(),
                        offset: int_of(t[1]).unwrap(),
                    },
                )
            } else {
                None
            }
        } else if OtherOp::parse(t[0]).is_some() {
            if t.len() == 1 {
                Some(Instruction::Other { op: OtherOp::parse(t[0]).unwrap() })
            } else {
                None
            }
        } else {
            None
        }
    }

    /// The instruction that a line of assembly text spells, if any.
    pub open spec fn parse(s: Seq<char>) -> Option<Instruction> {
        Instruction::parse_tokens(split_ws(s))
    }

    pub fn from_tokens(t: &Vec<Vec<char>>) -> (r: Option<Instruction>)
        ensures
            r == Instruction::parse_tokens(views(t@)),
    {
        let ghost v = views(t@);
        if t.len() == 0 {
            return None;
        }
        assert(v[0] == t@[0]@);
        if let Some(op) = UnaryArithOp::from_chars(&t[0]) {
            if t.len() == 2 {
                assert(v[1] == t@[1]@);
                if let Some(arg) = Register::from_chars(&t[1]) {
                    return Some(Instruction::UnaryArith { op, arg });
                }
            }
            None
        } else if let Some(op) = BinArithOp::from_chars(&t[0]) {
            if t.len() == 4 {
                assert(v[1] == t@[1]@ && v[2] == t@[2]@ && v[3] == t@[3]@);
                if let (Some(dst), Some(arg1), Some(arg2)) = (
                    Register::from_chars(&t[1]),
                    Register::from_chars(&t[2]),
                    RegOrImm::from_chars(&t[3]),
                ) {
                    return Some(Instruction::BinArith { op, dst, arg1, arg2 });
                }
            }
            None
        } else if let Some(op) = DataOp::from_chars(&t[0]) {
            if t.len() == 3 {
                assert(v[1] == t@[1]@ && v[2] == t@[2]@);
                if let (Some(dst), Some(src)) = (
                    Register::from_chars(&t[1]),
                    RegOrImm::from_chars(&t[2]),
                ) {
                    return Some(Instruction::Data { op, dst, src });
                }
            }
            None
        } else if let Some(op) = StackOp::from_chars(&t[0]) {
            if t.len() == 2 {
                assert(v[1] == t@[1]@);
                if let Some(dst) = Register::from_chars(&t[1]) {
                    return Some(Instruction::Stack { op, dst });
                }
            }
            None
        } else if let Some(op) = TestOp::from_chars(&t[0]) {
            if t.len() == 3 {
                assert(v[1] == t@[1]@ && v[2] == t@[2]@);
                if let (Some(arg1), Some(arg2)) = (
                    Register::from_chars(&t[1]),
                    RegOrImm::from_chars(&t[2]),
                ) {
                    return Some(Instruction::Test { op, arg1, arg2 });
                }
            }
            None
        } else if let Some(op) = FlowOp::from_chars(&t[0]) {
            if t.len() == 2 {
                assert(v[1] == t@[1]@);
                if let Some(offset) = parse_int(&t[1]) {
                    return Some(Instruction::Flow { op, offset });
                }
            }
            None
        } else if let Some(op) = OtherOp::from_chars(&t[0]) {
            if t.len() == 1 {
                return Some(Instruction::Other { op });
            }
            None
        } else {
            None
        }
    }

    pub fn from_chars(line: &Vec<char>) -> (r: Option<Instruction>)
        ensures
            r == Instruction::parse(line@),
    {
        let t = split_whitespace(line);
        Instruction::from_tokens(&t)
    }

    /// Parses one line of assembly text.
    pub fn from_str(instruction_str: &str) -> (r: Result<Instruction, ()>)
        ensures
            r == (match Instruction::parse(instruction_str@) {
                Some(i) => Ok(i),
                None => Err(()),
            }),
    {
        let line = str_chars(instruction_str);
        match Instruction::from_chars(&line) {
            Some(i) => Ok(i),
            None => Err(()),
        }
    }

    /// The canonical textual form, as characters.
    pub fn to_chars(&self) -> (r: Vec<char>)
        ensures
            r@ == self.text(),
    {
        let mut out: Vec<char> = Vec::new();
        match self {
            Instruction::UnaryArith { op, arg } => {
                op.push_name(&mut out);
                out.push(' ');
                arg.push_name(&mut out);
            },
            Instruction::BinArith { op, dst, arg1, arg2 } => {
                op.push_name(&mut out);
                out.push(' ');
                dst.push_name(&mut out);
                out.push(' ');
                arg1.push_name(&mut out);
                out.push(' ');
                arg2.push_text(&mut out);
            },
            Instruction::Data { op, dst, src } => {
                op.push_name(&mut out);
                out.push(' ');
                dst.push_name(&mut out);
                out.push(' ');
                src.push_text(&mut out);
            },
            Instruction::Stack { op, dst } => {
                op.push_name(&mut out);
                out.push(' ');
                dst.push_name(&mut out);
            },
            Instruction::Test { op, arg1, arg2 } => {
                op.push_name(&mut out);
                out.push(' ');
                arg1.push_name(&mut out);
                out.push(' ');
                arg2.push_text(&mut out);
            },
            Instruction::Flow { op, offset } => {
                op.push_name(&mut out);
                out.push(' ');
                push_int_text(*offset, &mut out);
            },
            Instruction::Other { op } => {
                op.push_name(&mut out);
            },
        }
        proof {
            assert(out@ =~= self.text());
        }
        out
    }

    /// The canonical textual form.
    pub fn to_str(&self) -> (r: String)
        ensures
            r@ == self.text(),
    {
        let chars = self.to_chars();
        string_from_chars(&chars)
    }
}

/// Relies on std's `FromIterator<char>` for `String`: the string holds the
/// characters in order.
#[verifier::external_body]
pub(crate) fn string_from_chars(chars: &Vec<char>) -> (r: String)
    ensures
        r@ == chars@,
{
    chars.iter().collect()
}

/// The tokens of the canonical text are the instruction's tokens.
#[verifier::rlimit(80)]
pub proof fn lemma_split_text(i: Instruction)
    ensures
        split_ws(i.text()) == i.tokens(),
{
    match i {
        Instruction::UnaryArith { op, arg } => {
            op.lemma_name();
            arg.lemma_name();
            lemma_scan_single(op.name());
            lemma_scan_sp(op.name(), arg.name());
        },
        Instruction::BinArith { op, dst, arg1, arg2 } => {
            op.lemma_name();
            dst.lemma_name();
            arg1.lemma_name();
            arg2.lemma_text();
            lemma_scan_single(op.name());
            lemma_scan_sp(op.name(), dst.name());
            lemma_scan_sp(sp(op.name(), dst.name()), arg1.name());
            lemma_scan_sp(sp(sp(op.name(), dst.name()), arg1.name()), arg2.text());
        },
        Instruction::Data { op, dst, src } => {
            op.lemma_name();
            dst.lemma_name();
            src.lemma_text();
            lemma_scan_single(op.name());
            lemma_scan_sp(op.name(), dst.name());
            lemma_scan_sp(sp(op.name(), dst.name()), src.text());
        },
        Instruction::Stack { op, dst } => {
            op.lemma_name();
            dst.lemma_name();
            lemma_scan_single(op.name());
            lemma_scan_sp(op.name(), dst.name());
        },
        Instruction::Test { op, arg1, arg2 } => {
            op.lemma_name();
            arg1.lemma_name();
            arg2.lemma_text();
            lemma_scan_single(op.name());
            lemma_scan_sp(op.name(), arg1.name());
            lemma_scan_sp(sp(op.name(), arg1.name()), arg2.text());
        },
        Instruction::Flow { op, offset } => {
            op.lemma_name();
            lemma_int_text(offset);
            lemma_scan_single(op.name());
            lemma_scan_sp(op.name(), int_text(offset as int));
        },
        Instruction::Other { op } => {
            op.lemma_name();
            lemma_scan_single(op.name());
        },
    }
}

/// Encoding an instruction as text and decoding that text gives the
/// instruction back; so every string that decodes to an instruction
/// re-encodes to one that decodes to the same instruction.
#[verifier::rlimit(80)]
pub proof fn lemma_round_trip(i: Instruction)
    ensures
        Instruction::parse(i.text()) == Some(i),
{
    lemma_split_text(i);
    match i {
        Instruction::UnaryArith { op, arg } => {
            op.lemma_name();
            arg.lemma_name();
        },
        Instruction::BinArith { op, dst, arg1, arg2 } => {
            op.lemma_name();
            dst.lemma_name();
            arg1.lemma_name();
            arg2.lemma_text();
        },
        Instruction::Data { op, dst, src } => {
            op.lemma_name();
            dst.lemma_name();
            src.lemma_text();
        },
        Instruction::Stack { op, dst } => {
            op.lemma_name();
            dst.lemma_name();
        },
        Instruction::Test { op, arg1, arg2 } => {
            op.lemma_name();
            arg1.lemma_name();
            arg2.lemma_text();
        },
        Instruction::Flow { op, offset } => {
            op.lemma_name();
            lemma_int_text(offset);
        },
        Instruction::Other { op } => {
            op.lemma_name();
        },
    }
}

/// A decoded line re-encodes to text that decodes to the same instruction.
pub proof fn lemma_decode_encode(s: Seq<char>)
    requires
        Instruction::parse(s).is_some(),
    ensures
        Instruction::parse(Instruction::parse(s).unwrap().text()) == Instruction::parse(s),
{
    lemma_round_trip(Instruction::parse(s).unwrap());
}

/// A line in canonical form (the text of some instruction: tokens joined by
/// single spaces, numbers in plain decimal) decodes to that instruction, and
/// re-encoding what it decodes to gives the line back.
pub proof fn lemma_canonical_text(s: Seq<char>, j: Instruction)
    requires
        s == j.text(),
    ensures
        Instruction::parse(s) == Some(j),
        Instruction::parse(s).unwrap().text() == s,
{
    lemma_round_trip(j);
}

} // verus!
