//! The compiler back-end: lowers the syntax tree to assembly text that
//! follows the machine's calling convention.
use vstd::prelude::*;

pub mod ast;

use self::ast::{
    External, FuncDef, FuncDecl, RootAstNode, StructDecl, ArrayDecl, ArrayRef, Assignment, BinaryOp, BinaryopType, Compound, Constant, Decl,
    DoWhileLoop, Expression, ForLoop, FuncCall, If, Return, Statement, StructRef, TernaryOp, Type,
    UnaryOp, UnaryopType, VarDecl, WhileLoop,
};
use crate::cpu::instructions::{
    string_from_chars, BinArithOp, DataOp, FlowOp, Instruction, OtherOp, RegOrImm, Register,
    StackOp, TestOp, UnaryArithOp,
};
use crate::text::{int_of, nat_text, parse_int, push_all, push_nat_text, sp, str_chars};

verus! {

/// Why a syntax tree could not be compiled.
#[derive(Debug, PartialEq, Eq, Structural, Clone, Copy)]
pub enum CompileError {
    UnknownVariable,
    UnknownFunction,
    UnknownStruct,
    UnknownField,
    UnknownScope,
    /// An expression that has no address stands where one is needed.
    NotAnLvalue,
    NotAnArray,
    NotAStruct,
    /// A constant that is not a 32-bit integer or a character.
    BadConstant,
    /// A type with no size (`string`).
    InvalidType,
    BreakOutsideLoop,
    /// A size, offset or count beyond what the machine's words hold.
    TooLarge,
}

#[derive(Debug, PartialEq, Eq, Structural, Clone, Copy)]
pub enum LocalOrArg {
    Local,
    Arg,
}

/// What code generation needs to know of a variable's type.
pub enum Shape {
    /// A one-word value: an integer, a character or a pointer.
    Scalar,
    /// A struct, by name.
    Struct(String),
    /// An array with the size of one item and its dimensions, outermost first.
    Array { item_size: u32, dims: Vec<u32> },
}

pub struct VariableData {
    pub name: String,
    pub local_or_arg: LocalOrArg,
    /// The declared type; for an array, the type of its items.
    pub var_type: Type,
    pub shape: Shape,
    /// For a local, the offset of its last word below the saved registers;
    /// for an argument, its offset above the return value.
    pub offset: u32,
    pub size: u32,
}

pub struct ScopeData {
    pub name: String,
    pub parent_scope: String,
    pub parent_func: String,
    pub variables: Vec<VariableData>,
}

pub struct FieldData {
    pub name: String,
    /// The declared type; for an array, the type of its items.
    pub var_type: Type,
    pub offset: u32,
    pub size: u32,
    pub shape: Shape,
}

pub struct StructData {
    pub name: String,
    pub size: u32,
    pub items: Vec<FieldData>,
}

pub struct FuncData {
    pub name: String,
    pub ret_type: Type,
    /// The declared type of each argument; for an array, of its items.
    pub arg_types: Vec<Type>,
    pub ret_size: u32,
    pub n_args: usize,
    /// The words of locals, once the body is registered.
    pub local_vars_size: Option<u32>,
}

/// Scopes, functions and structs, by name.
pub struct Tables {
    pub scopes: Vec<ScopeData>,
    pub funcs: Vec<FuncData>,
    pub structs: Vec<StructData>,
}

/// The compiler's tables and its counter for fresh labels.
pub struct Compiler {
    pub tables: Tables,
    /// Variables declared so far during emission: (scope, name).
    pub declared: Vec<(String, String)>,
    /// Loops entered so far: (scope, break label, continue label).
    pub loop_labels: Vec<(String, String, String)>,
    pub tmp_label_count: u64,
}

/// Declared variables as text.
pub type Declared = Seq<(Seq<char>, Seq<char>)>;

pub open spec fn decl_view(v: Seq<(String, String)>) -> Declared {
    v.map_values(|p: (String, String)| (p.0@, p.1@))
}

pub open spec fn loops_view(v: Seq<(String, String, String)>) -> Seq<(Seq<char>, Seq<char>, Seq<char>)> {
    v.map_values(|p: (String, String, String)| (p.0@, p.1@, p.2@))
}

/// Registers that every function saves on entry; the code uses only these
/// as working registers.
pub const REGS_USED: u32 = 2;

pub open spec fn global_name() -> Seq<char> {
    seq!['_', 'G', 'L', 'O', 'B', 'A', 'L']
}

// ---------------------------------------------------------------- lookups

/// The last scope registered under `id`.
pub open spec fn find_scope(scopes: Seq<ScopeData>, id: Seq<char>) -> Option<ScopeData>
    decreases scopes.len(),
{
    if scopes.len() == 0 {
        None
    } else if scopes.last().name@ == id {
        Some(scopes.last())
    } else {
        find_scope(scopes.drop_last(), id)
    }
}

pub open spec fn find_func(funcs: Seq<FuncData>, name: Seq<char>) -> Option<FuncData>
    decreases funcs.len(),
{
    if funcs.len() == 0 {
        None
    } else if funcs.last().name@ == name {
        Some(funcs.last())
    } else {
        find_func(funcs.drop_last(), name)
    }
}

pub open spec fn find_struct(structs: Seq<StructData>, name: Seq<char>) -> Option<StructData>
    decreases structs.len(),
{
    if structs.len() == 0 {
        None
    } else if structs.last().name@ == name {
        Some(structs.last())
    } else {
        find_struct(structs.drop_last(), name)
    }
}

pub open spec fn find_field(items: Seq<FieldData>, name: Seq<char>) -> Option<FieldData>
    decreases items.len(),
{
    if items.len() == 0 {
        None
    } else if items.last().name@ == name {
        Some(items.last())
    } else {
        find_field(items.drop_last(), name)
    }
}

pub open spec fn find_var_in(vars: Seq<VariableData>, name: Seq<char>) -> Option<VariableData>
    decreases vars.len(),
{
    if vars.len() == 0 {
        None
    } else if vars.last().name@ == name {
        Some(vars.last())
    } else {
        find_var_in(vars.drop_last(), name)
    }
}

pub open spec fn is_declared(d: Declared, scope: Seq<char>, name: Seq<char>) -> bool {
    exists|i: int| 0 <= i < d.len() && (#[trigger] d[i]) == (scope, name)
}

/// The binding of `name` seen from scope `id`: the first scope on the chain
/// toward `_GLOBAL` that has declared it. The walk takes at most `fuel` steps.
pub open spec fn resolve(scopes: Seq<ScopeData>, d: Declared, id: Seq<char>, name: Seq<char>, fuel: nat) -> Option<
    VariableData,
>
    decreases fuel,
{
    if fuel == 0 {
        None
    } else {
        match find_scope(scopes, id) {
            None => None,
            Some(s) => if is_declared(d, id, name) && find_var_in(s.variables@, name).is_some() {
                find_var_in(s.variables@, name)
            } else if id == global_name() {
                None
            } else {
                resolve(scopes, d, s.parent_scope@, name, (fuel - 1) as nat)
            },
        }
    }
}

/// Lines of emitted code, as text.
pub open spec fn lines(code: Seq<String>) -> Seq<Seq<char>> {
    code.map_values(|s: String| s@)
}

pub open spec fn ins(i: Instruction) -> Seq<Seq<char>> {
    seq![i.text()]
}

pub open spec fn branch(op: FlowOp, label: Seq<char>) -> Seq<Seq<char>> {
    seq![sp(op.name(), label)]
}

pub open spec fn label_line(label: Seq<char>) -> Seq<Seq<char>> {
    seq![label.push(':')]
}

pub open spec fn bin(op: BinArithOp, dst: Register, a: Register, b: RegOrImm) -> Seq<Seq<char>> {
    ins(Instruction::BinArith { op, dst, arg1: a, arg2: b })
}

pub open spec fn data(op: DataOp, dst: Register, src: RegOrImm) -> Seq<Seq<char>> {
    ins(Instruction::Data { op, dst, src })
}

pub open spec fn stack(op: StackOp, r: Register) -> Seq<Seq<char>> {
    ins(Instruction::Stack { op, dst: r })
}

pub open spec fn test(op: TestOp, a: Register, b: RegOrImm) -> Seq<Seq<char>> {
    ins(Instruction::Test { op, arg1: a, arg2: b })
}

pub open spec fn reg(r: Register) -> RegOrImm {
    RegOrImm::Reg(r)
}

pub open spec fn imm(v: i32) -> RegOrImm {
    RegOrImm::Val(v)
}

/// `n` copies of `line`.
pub open spec fn repeat(line: Seq<Seq<char>>, n: nat) -> Seq<Seq<char>>
    decreases n,
{
    if n == 0 {
        Seq::empty()
    } else {
        repeat(line, (n - 1) as nat) + line
    }
}

/// A fresh label: `prefix`, the counter, `suffix`.
pub open spec fn tmp_label(prefix: Seq<char>, n: nat, suffix: Seq<char>) -> Seq<char> {
    prefix + nat_text(n) + suffix
}

impl Tables {
    /// Enough steps to walk any chain of distinct scopes.
    pub open spec fn n_scopes(&self) -> nat {
        self.scopes@.len()
    }

    /// The variable `name` as seen from scope `scope`.
    pub open spec fn var_of(&self, d: Declared, scope: Seq<char>, name: Seq<char>) -> Option<VariableData> {
        resolve(self.scopes@, d, scope, name, self.n_scopes())
    }

    /// The offset from `BP` of the variable's first word.
    pub open spec fn var_offset(&self, scope: Seq<char>, v: VariableData) -> Result<i32, CompileError> {
        match find_scope(self.scopes@, scope) {
            None => Err(CompileError::UnknownScope),
            Some(s) => match find_func(self.funcs@, s.parent_func@) {
                None => Err(CompileError::UnknownFunction),
                Some(f) => match v.local_or_arg {
                    LocalOrArg::Local => if 1 + REGS_USED + v.offset <= i32::MAX {
                        Ok((-(1 + REGS_USED + v.offset)) as i32)
                    } else {
                        Err(CompileError::TooLarge)
                    },
                    LocalOrArg::Arg => if 2 + f.ret_size + v.offset <= i32::MAX {
                        Ok((2 + f.ret_size + v.offset) as i32)
                    } else {
                        Err(CompileError::TooLarge)
                    },
                },
            },
        }
    }

    /// Code that leaves the address of variable `name` in `R1`.
    pub open spec fn addr_gen(&self, d: Declared, scope: Seq<char>, name: Seq<char>) -> Result<Seq<Seq<char>>, CompileError> {
        match self.var_of(d, scope, name) {
            None => Err(CompileError::UnknownVariable),
            Some(v) => match self.var_offset(scope, v) {
                Err(e) => Err(e),
                Ok(k) => Ok(bin(BinArithOp::ADD, Register::R1, Register::BP, imm(k))),
            },
        }
    }
}


/// The value of a constant's source text: a decimal integer or a character.
pub open spec fn const_value(val: Seq<char>) -> Option<i32> {
    if val.len() == 3 && val[0] == '\'' && val[2] == '\'' {
        Some(val[1] as u32 as i32)
    } else if val.len() == 4 && val[0] == '\'' && val[1] == '\\' && val[3] == '\'' {
        escape_value(val[2])
    } else {
        int_of(val)
    }
}

pub open spec fn escape_value(c: char) -> Option<i32> {
    if c == 'n' {
        Some(10)
    } else if c == 't' {
        Some(9)
    } else if c == '0' {
        Some(0)
    } else if c == '\\' {
        Some(92)
    } else if c == '\'' {
        Some(39)
    } else {
        None
    }
}

/// What follows the two operands of a binary operator: left in `R2`,
/// right in `R1`, result to `R1`.
pub open spec fn binop_tail(op: BinaryopType) -> Seq<Seq<char>> {
    let mov = data(DataOp::MOV, Register::R1, reg(Register::ZR));
    match op.machine_op() {
        Some(m) => bin(m, Register::R1, Register::R2, reg(Register::R1)),
        None => match op {
            BinaryopType::EQ => test(TestOp::TSTE, Register::R1, reg(Register::R2)) + mov,
            BinaryopType::NEQ => test(TestOp::TSTN, Register::R1, reg(Register::R2)) + mov,
            BinaryopType::LogicalAnd => test(TestOp::TSTN, Register::R1, imm(0)) + mov + test(
                TestOp::TSTN,
                Register::R2,
                imm(0),
            ) + bin(BinArithOp::AND, Register::R1, Register::R1, reg(Register::ZR)),
            BinaryopType::LogicalOr => test(TestOp::TSTN, Register::R1, imm(0)) + mov + test(
                TestOp::TSTN,
                Register::R2,
                imm(0),
            ) + bin(BinArithOp::OR, Register::R1, Register::R1, reg(Register::ZR)),
            BinaryopType::LT => test(TestOp::TSTL, Register::R2, reg(Register::R1)) + mov,
            BinaryopType::LTEQ => test(TestOp::TSTG, Register::R2, reg(Register::R1)) + test(
                TestOp::TSTN,
                Register::ZR,
                imm(1),
            ) + mov,
            BinaryopType::GT => test(TestOp::TSTG, Register::R2, reg(Register::R1)) + mov,
            _ => test(TestOp::TSTL, Register::R2, reg(Register::R1)) + test(
                TestOp::TSTN,
                Register::ZR,
                imm(1),
            ) + mov,
        },
    }
}

/// The product of `s`.
pub open spec fn prod(s: Seq<u32>) -> int
    decreases s.len(),
{
    if s.len() == 0 {
        1
    } else {
        prod(s.drop_last()) * s.last()
    }
}

/// The multiplier of index `k`: the item size times the dimensions after `k`.
pub open spec fn index_scale(dims: Seq<u32>, k: int, item: u32) -> Option<i32> {
    let p = prod(dims.subrange(k + 1, dims.len() as int)) * item;
    if p <= i32::MAX {
        Some(p as i32)
    } else {
        None
    }
}

pub open spec fn pre_inc_tail(op: UnaryopType) -> Seq<Seq<char>> {
    let arith = if op == UnaryopType::PPX || op == UnaryopType::XPP {
        BinArithOp::ADD
    } else {
        BinArithOp::SUB
    };
    bin(arith, Register::R2, Register::R2, imm(1))
}

impl Tables {
    /// Code that leaves the value of `e` in `R1`, with `n` the next fresh
    /// label number; also the label number after it.
    pub open spec fn rgen(&self, d: Declared, scope: Seq<char>, e: Expression, n: nat) -> Result<
        (Seq<Seq<char>>, nat),
        CompileError,
    >
        decreases e,
    {
        match e {
            Expression::Constant(c) => match const_value(c.val@) {
                Some(v) => Ok((data(DataOp::MOV, Register::R1, imm(v)), n)),
                None => Err(CompileError::BadConstant),
            },
            Expression::BinaryOp(b) => match self.rgen(d, scope, *b.left, n) {
                Err(err) => Err(err),
                Ok((l1, n1)) => match self.rgen(d, scope, *b.right, n1) {
                    Err(err) => Err(err),
                    Ok((l2, n2)) => Ok(
                        (
                            l1 + stack(StackOp::PUSH, Register::R1) + l2 + stack(
                                StackOp::POP,
                                Register::R2,
                            ) + binop_tail(b.op_type),
                            n2,
                        ),
                    ),
                },
            },
            Expression::UnaryOp(u) => match u.op_type {
                UnaryopType::NEG => match self.rgen(d, scope, *u.expr, n) {
                    Err(err) => Err(err),
                    Ok((l, n1)) => Ok(
                        (l + ins(Instruction::UnaryArith { op: UnaryArithOp::NEG, arg: Register::R1 }), n1),
                    ),
                },
                UnaryopType::NOT => match self.rgen(d, scope, *u.expr, n) {
                    Err(err) => Err(err),
                    Ok((l, n1)) => Ok(
                        (
                            l + test(TestOp::TSTE, Register::R1, imm(0)) + data(
                                DataOp::MOV,
                                Register::R1,
                                reg(Register::ZR),
                            ),
                            n1,
                        ),
                    ),
                },
                UnaryopType::PPX | UnaryopType::MMX => match self.lgen(d, scope, *u.expr, n) {
                    Err(err) => Err(err),
                    Ok((l, n1)) => Ok(
                        (
                            l + data(DataOp::LOAD, Register::R2, reg(Register::R1)) + pre_inc_tail(
                                u.op_type,
                            ) + data(DataOp::STR, Register::R1, reg(Register::R2)) + data(
                                DataOp::MOV,
                                Register::R1,
                                reg(Register::R2),
                            ),
                            n1,
                        ),
                    ),
                },
                UnaryopType::XPP | UnaryopType::XMM => match self.lgen(d, scope, *u.expr, n) {
                    Err(err) => Err(err),
                    Ok((l, n1)) => Ok(
                        (
                            l + data(DataOp::LOAD, Register::R2, reg(Register::R1)) + stack(
                                StackOp::PUSH,
                                Register::R2,
                            ) + pre_inc_tail(u.op_type) + data(
                                DataOp::STR,
                                Register::R1,
                                reg(Register::R2),
                            ) + stack(StackOp::POP, Register::R1),
                            n1,
                        ),
                    ),
                },
                UnaryopType::REF => self.lgen(d, scope, *u.expr, n),
                UnaryopType::DEREF => match self.rgen(d, scope, *u.expr, n) {
                    Err(err) => Err(err),
                    Ok((l, n1)) => Ok((l + data(DataOp::LOAD, Register::R1, reg(Register::R1)), n1)),
                },
            },
            Expression::ID(id) => match self.addr_gen(d, scope, id.name@) {
                Err(err) => Err(err),
                Ok(l) => Ok((l + data(DataOp::LOAD, Register::R1, reg(Register::R1)), n)),
            },
            Expression::Assignment(a) => self.assign_gen(d, scope, a, n),
            Expression::TernaryOp(t) => if n >= u64::MAX {
                Err(CompileError::TooLarge)
            } else {
                let no = tmp_label(seq!['T', 'E', 'R', 'N', 'A', 'R', 'Y', '_'], n, seq!['_', 'N', 'O']);
                let yes = tmp_label(
                    seq!['T', 'E', 'R', 'N', 'A', 'R', 'Y', '_'],
                    n,
                    seq!['_', 'Y', 'E', 'S'],
                );
                match self.rgen(d, scope, *t.cond, n + 1) {
                    Err(err) => Err(err),
                    Ok((lc, n1)) => match self.rgen(d, scope, *t.iftrue, n1) {
                        Err(err) => Err(err),
                        Ok((lt, n2)) => match self.rgen(d, scope, *t.iffalse, n2) {
                            Err(err) => Err(err),
                            Ok((lf, n3)) => Ok(
                                (
                                    lc + test(TestOp::TSTN, Register::R1, imm(0)) + branch(
                                        FlowOp::FJMP,
                                        no,
                                    ) + lt + branch(FlowOp::JUMP, yes) + label_line(no) + lf
                                        + label_line(yes),
                                    n3,
                                ),
                            ),
                        },
                    },
                }
            },
            Expression::FuncCall(fc) => match find_func(self.funcs@, fc.name@) {
                None => Err(CompileError::UnknownFunction),
                Some(f) => match self.args_gen(d, scope, fc.args@, n) {
                    Err(err) => Err(err),
                    Ok((la, n1)) => Ok(
                        (
                            la + repeat(stack(StackOp::PUSH, Register::ZR), f.ret_size as nat)
                                + branch(FlowOp::CALL, fc.name@) + (if f.ret_size > 0 {
                                stack(StackOp::POP, Register::R1)
                            } else {
                                Seq::empty()
                            }) + repeat(stack(StackOp::POP, Register::ZR), fc.args@.len()),
                            n1,
                        ),
                    ),
                },
            },
            Expression::ArrayRef(ar) => match self.array_addr_gen(d, scope, ar, n) {
                Err(err) => Err(err),
                Ok((l, n1)) => Ok((l + data(DataOp::LOAD, Register::R1, reg(Register::R1)), n1)),
            },
            Expression::StructRef(sr) => match self.struct_addr_gen(d, scope, sr) {
                Err(err) => Err(err),
                Ok(l) => Ok((l + data(DataOp::LOAD, Register::R1, reg(Register::R1)), n)),
            },
        }
    }

    /// Code that leaves the address of the lvalue `e` in `R1`.
    pub open spec fn lgen(&self, d: Declared, scope: Seq<char>, e: Expression, n: nat) -> Result<
        (Seq<Seq<char>>, nat),
        CompileError,
    >
        decreases e,
    {
        match e {
            Expression::ID(id) => match self.addr_gen(d, scope, id.name@) {
                Err(err) => Err(err),
                Ok(l) => Ok((l, n)),
            },
            Expression::UnaryOp(u) => if u.op_type == UnaryopType::DEREF {
                self.rgen(d, scope, *u.expr, n)
            } else {
                Err(CompileError::NotAnLvalue)
            },
            Expression::ArrayRef(ar) => self.array_addr_gen(d, scope, ar, n),
            Expression::StructRef(sr) => match self.struct_addr_gen(d, scope, sr) {
                Err(err) => Err(err),
                Ok(l) => Ok((l, n)),
            },
            _ => Err(CompileError::NotAnLvalue),
        }
    }

    /// An assignment, compound or plain; its value stays in `R1`.
    pub open spec fn assign_gen(&self, d: Declared, scope: Seq<char>, a: Assignment, n: nat) -> Result<
        (Seq<Seq<char>>, nat),
        CompileError,
    >
        decreases a,
    {
        match self.lgen(d, scope, *a.lvalue, n) {
            Err(err) => Err(err),
            Ok((l1, n1)) => match self.rgen(d, scope, *a.rvalue, n1) {
                Err(err) => Err(err),
                Ok((l2, n2)) => {
                    let head = l1 + stack(StackOp::PUSH, Register::R1) + l2 + stack(
                        StackOp::POP,
                        Register::R2,
                    );
                    let store = data(DataOp::STR, Register::R2, reg(Register::R1));
                    match a.op.op {
                        None => Ok((head + store, n2)),
                        Some(op) => match op.machine_op() {
                            None => Err(CompileError::NotAnLvalue),
                            Some(m) => Ok(
                                (
                                    head + stack(StackOp::PUSH, Register::R2) + data(
                                        DataOp::LOAD,
                                        Register::R2,
                                        reg(Register::R2),
                                    ) + bin(m, Register::R1, Register::R2, reg(Register::R1))
                                        + stack(StackOp::POP, Register::R2) + store,
                                    n2,
                                ),
                            ),
                        },
                    }
                },
            },
        }
    }

    /// Arguments pushed last first, so that the first ends nearest the callee's frame.
    pub open spec fn args_gen(&self, d: Declared, scope: Seq<char>, args: Seq<Box<Expression>>, n: nat) -> Result<
        (Seq<Seq<char>>, nat),
        CompileError,
    >
        decreases args,
    {
        if args.len() == 0 {
            Ok((Seq::empty(), n))
        } else {
            match self.rgen(d, scope, *args.last(), n) {
                Err(err) => Err(err),
                Ok((l, n1)) => match self.args_gen(d, scope, args.drop_last(), n1) {
                    Err(err) => Err(err),
                    Ok((l2, n2)) => Ok((l + stack(StackOp::PUSH, Register::R1) + l2, n2)),
                },
            }
        }
    }

    /// Adds each index, scaled, to the address in `R2`.
    pub open spec fn index_gen(
        &self, d: Declared,
        scope: Seq<char>,
        idx: Seq<Box<Expression>>,
        dims: Seq<u32>,
        item: u32,
        n: nat,
    ) -> Result<(Seq<Seq<char>>, nat), CompileError>
        decreases idx,
    {
        if idx.len() == 0 {
            Ok((Seq::empty(), n))
        } else {
            match self.index_gen(d, scope, idx.drop_last(), dims, item, n) {
                Err(err) => Err(err),
                Ok((l, n1)) => match index_scale(dims, idx.len() - 1, item) {
                    None => Err(CompileError::TooLarge),
                    Some(m) => match self.rgen(d, scope, *idx.last(), n1) {
                        Err(err) => Err(err),
                        Ok((li, n2)) => Ok(
                            (
                                l + stack(StackOp::PUSH, Register::R2) + li + stack(
                                    StackOp::POP,
                                    Register::R2,
                                ) + bin(BinArithOp::MUL, Register::R1, Register::R1, imm(m)) + bin(
                                    BinArithOp::ADD,
                                    Register::R2,
                                    Register::R2,
                                    reg(Register::R1),
                                ),
                                n2,
                            ),
                        ),
                    },
                },
            }
        }
    }

    /// Code that leaves the address of an array item in `R1`.
    pub open spec fn array_addr_gen(&self, d: Declared, scope: Seq<char>, ar: ArrayRef, n: nat) -> Result<
        (Seq<Seq<char>>, nat),
        CompileError,
    >
        decreases ar,
    {
        match self.var_of(d, scope, ar.name@) {
            None => Err(CompileError::UnknownVariable),
            Some(v) => match v.shape {
                Shape::Array { item_size, dims } => if ar.indices@.len() > dims@.len() {
                    Err(CompileError::NotAnArray)
                } else {
                    match self.addr_gen(d, scope, ar.name@) {
                        Err(err) => Err(err),
                        Ok(la) => match self.index_gen(d, scope, ar.indices@, dims@, item_size, n) {
                            Err(err) => Err(err),
                            Ok((li, n1)) => Ok(
                                (
                                    la + data(DataOp::MOV, Register::R2, reg(Register::R1)) + li
                                        + data(DataOp::MOV, Register::R1, reg(Register::R2)),
                                    n1,
                                ),
                            ),
                        },
                    }
                },
                _ => Err(CompileError::NotAnArray),
            },
        }
    }

    /// Adds the offsets of `fields[k..]` to `R2`, starting in struct `sname`.
    pub open spec fn fields_gen(&self, sname: Seq<char>, fields: Seq<String>, k: nat) -> Result<
        Seq<Seq<char>>,
        CompileError,
    >
        decreases fields.len() - k,
    {
        if k >= fields.len() {
            Ok(Seq::empty())
        } else {
            match find_struct(self.structs@, sname) {
                None => Err(CompileError::UnknownStruct),
                Some(st) => match find_field(st.items@, fields[k as int]@) {
                    None => Err(CompileError::UnknownField),
                    Some(f) => if f.offset > i32::MAX {
                        Err(CompileError::TooLarge)
                    } else {
                        let line = bin(BinArithOp::ADD, Register::R2, Register::R2, imm(f.offset as i32));
                        if k + 1 < fields.len() {
                            match f.shape {
                                Shape::Struct(inner) => match self.fields_gen(inner@, fields, k + 1) {
                                    Err(err) => Err(err),
                                    Ok(rest) => Ok(line + rest),
                                },
                                _ => Err(CompileError::NotAStruct),
                            }
                        } else {
                            Ok(line)
                        }
                    },
                },
            }
        }
    }

    /// Code that leaves the address of a struct field in `R1`.
    pub open spec fn struct_addr_gen(&self, d: Declared, scope: Seq<char>, sr: StructRef) -> Result<
        Seq<Seq<char>>,
        CompileError,
    > {
        match self.var_of(d, scope, sr.name@) {
            None => Err(CompileError::UnknownVariable),
            Some(v) => match v.shape {
                Shape::Struct(sname) => match self.addr_gen(d, scope, sr.name@) {
                    Err(err) => Err(err),
                    Ok(la) => match self.fields_gen(sname@, sr.field_names@, 0) {
                        Err(err) => Err(err),
                        Ok(lf) => Ok(
                            la + data(DataOp::MOV, Register::R2, reg(Register::R1)) + lf + data(
                                DataOp::MOV,
                                Register::R1,
                                reg(Register::R2),
                            ),
                        ),
                    },
                },
                _ => Err(CompileError::NotAStruct),
            },
        }
    }
}

// ---------------------------------------------------------------- statements

/// What changes while statements are emitted: declared variables, entered
/// loops, and the next fresh label number.
pub struct EmitState {
    pub d: Declared,
    pub loops: Seq<(Seq<char>, Seq<char>, Seq<char>)>,
    pub n: nat,
}

/// The break and continue labels of the loop whose scope is `id`.
pub open spec fn loop_of(loops: Seq<(Seq<char>, Seq<char>, Seq<char>)>, id: Seq<char>) -> Option<
    (Seq<char>, Seq<char>),
>
    decreases loops.len(),
{
    if loops.len() == 0 {
        None
    } else if loops.last().0 == id {
        Some((loops.last().1, loops.last().2))
    } else {
        loop_of(loops.drop_last(), id)
    }
}

/// The labels of the nearest enclosing loop, walking the scope chain.
pub open spec fn enclosing_loop(
    scopes: Seq<ScopeData>,
    loops: Seq<(Seq<char>, Seq<char>, Seq<char>)>,
    id: Seq<char>,
    fuel: nat,
) -> Option<(Seq<char>, Seq<char>)>
    decreases fuel,
{
    if fuel == 0 {
        None
    } else if loop_of(loops, id).is_some() {
        loop_of(loops, id)
    } else if id == global_name() {
        None
    } else {
        match find_scope(scopes, id) {
            None => None,
            Some(s) => enclosing_loop(scopes, loops, s.parent_scope@, (fuel - 1) as nat),
        }
    }
}

pub open spec fn fresh3(prefix: Seq<char>, n: nat, a: Seq<char>, b: Seq<char>, c: Seq<char>) -> (
    Seq<char>,
    Seq<char>,
    Seq<char>,
) {
    (tmp_label(prefix, n, a), tmp_label(prefix, n, b), tmp_label(prefix, n, c))
}

pub open spec fn end_label(func: Seq<char>) -> Seq<char> {
    seq!['_'] + func + seq!['_', 'E', 'N', 'D']
}

pub open spec fn test_zero_jump(target: Seq<char>) -> Seq<Seq<char>> {
    test(TestOp::TSTN, Register::R1, imm(0)) + branch(FlowOp::FJMP, target)
}

impl Tables {
    /// Stores successive initializers at successive items from `R2`.
    pub open spec fn init_gen(&self, d: Declared, scope: Seq<char>, exprs: Seq<Expression>, item: i32, n: nat) -> Result<
        (Seq<Seq<char>>, nat),
        CompileError,
    >
        decreases exprs,
    {
        if exprs.len() == 0 {
            Ok((Seq::empty(), n))
        } else {
            match self.init_gen(d, scope, exprs.drop_last(), item, n) {
                Err(err) => Err(err),
                Ok((l, n1)) => match self.rgen(d, scope, exprs.last(), n1) {
                    Err(err) => Err(err),
                    Ok((le, n2)) => Ok(
                        (
                            l + stack(StackOp::PUSH, Register::R2) + le + stack(StackOp::POP, Register::R2)
                                + data(DataOp::STR, Register::R2, reg(Register::R1)) + bin(
                                BinArithOp::ADD,
                                Register::R2,
                                Register::R2,
                                imm(item),
                            ),
                            n2,
                        ),
                    ),
                },
            }
        }
    }

    /// The code of one statement in scope `scope`.
    pub open spec fn sgen(&self, st: EmitState, scope: Seq<char>, s: Statement) -> Result<
        (Seq<Seq<char>>, EmitState),
        CompileError,
    >
        decreases s,
    {
        match s {
            Statement::Return(r) => match find_scope(self.scopes@, scope) {
                None => Err(CompileError::UnknownScope),
                Some(sd) => match self.rgen(st.d, scope, r.expr, st.n) {
                    Err(err) => Err(err),
                    Ok((l, n1)) => Ok(
                        (
                            l + bin(BinArithOp::ADD, Register::R2, Register::BP, imm(2)) + data(
                                DataOp::STR,
                                Register::R2,
                                reg(Register::R1),
                            ) + branch(FlowOp::JUMP, end_label(sd.parent_func@)),
                            EmitState { n: n1, ..st },
                        ),
                    ),
                },
            },
            Statement::Decl(Decl::VarDecl(v)) => {
                let d2 = st.d.push((scope, v.name@));
                match v.init {
                    None => Ok((Seq::empty(), EmitState { d: d2, ..st })),
                    Some(e) => match self.addr_gen(d2, scope, v.name@) {
                        Err(err) => Err(err),
                        Ok(la) => match self.rgen(d2, scope, e, st.n) {
                            Err(err) => Err(err),
                            Ok((le, n1)) => Ok(
                                (
                                    la + stack(StackOp::PUSH, Register::R1) + le + stack(
                                        StackOp::POP,
                                        Register::R2,
                                    ) + data(DataOp::STR, Register::R2, reg(Register::R1)),
                                    EmitState { d: d2, loops: st.loops, n: n1 },
                                ),
                            ),
                        },
                    },
                }
            },
            Statement::Decl(Decl::ArrayDecl(a)) => {
                let d2 = st.d.push((scope, a.name@));
                match a.init {
                    None => Ok((Seq::empty(), EmitState { d: d2, ..st })),
                    Some(exprs) => match self.var_of(d2, scope, a.name@) {
                        None => Err(CompileError::UnknownVariable),
                        Some(v) => match v.shape {
                            Shape::Array { item_size, dims } => if item_size > i32::MAX {
                                Err(CompileError::TooLarge)
                            } else {
                                match self.addr_gen(d2, scope, a.name@) {
                                    Err(err) => Err(err),
                                    Ok(la) => match self.init_gen(d2, scope, exprs@, item_size as i32, st.n) {
                                        Err(err) => Err(err),
                                        Ok((li, n1)) => Ok(
                                            (
                                                la + data(DataOp::MOV, Register::R2, reg(Register::R1)) + li,
                                                EmitState { d: d2, loops: st.loops, n: n1 },
                                            ),
                                        ),
                                    },
                                }
                            },
                            _ => Err(CompileError::NotAnArray),
                        },
                    },
                }
            },
            Statement::Assignment(a) => match self.assign_gen(st.d, scope, a, st.n) {
                Err(err) => Err(err),
                Ok((l, n1)) => Ok((l, EmitState { n: n1, ..st })),
            },
            Statement::Expression(e) => match self.rgen(st.d, scope, e, st.n) {
                Err(err) => Err(err),
                Ok((l, n1)) => Ok((l, EmitState { n: n1, ..st })),
            },
            Statement::If(i) => if st.n >= u64::MAX {
                Err(CompileError::TooLarge)
            } else {
                let else_l = tmp_label(seq!['I', 'F', '_'], st.n, seq!['_', 'E', 'L', 'S', 'E']);
                let end_l = tmp_label(seq!['I', 'F', '_'], st.n, seq!['_', 'E', 'N', 'D']);
                match self.rgen(st.d, scope, i.cond, st.n + 1) {
                    Err(err) => Err(err),
                    Ok((lc, n1)) => match self.cgen(
                        EmitState { n: n1, ..st },
                        i.iftrue.code_loc@,
                        i.iftrue.items@,
                    ) {
                        Err(err) => Err(err),
                        Ok((lt, st2)) => match i.iffalse {
                            None => Ok(
                                (
                                    lc + test_zero_jump(else_l) + lt + branch(FlowOp::JUMP, end_l)
                                        + label_line(else_l) + label_line(end_l),
                                    st2,
                                ),
                            ),
                            Some(f) => match self.cgen(st2, f.code_loc@, f.items@) {
                                Err(err) => Err(err),
                                Ok((lf, st3)) => Ok(
                                    (
                                        lc + test_zero_jump(else_l) + lt + branch(FlowOp::JUMP, end_l)
                                            + label_line(else_l) + lf + label_line(end_l),
                                        st3,
                                    ),
                                ),
                            },
                        },
                    },
                }
            },
            Statement::Compound(c) => self.cgen(st, c.code_loc@, c.items@),
            Statement::WhileLoop(w) => if st.n >= u64::MAX {
                Err(CompileError::TooLarge)
            } else {
                let start_l = tmp_label(seq!['W', 'H', 'I', 'L', 'E', '_'], st.n, seq!['_', 'S', 'T', 'A', 'R', 'T']);
                let end_l = tmp_label(seq!['W', 'H', 'I', 'L', 'E', '_'], st.n, seq!['_', 'E', 'N', 'D']);
                let loops2 = st.loops.push((w.code_loc@, end_l, start_l));
                match self.rgen(st.d, scope, w.cond, st.n + 1) {
                    Err(err) => Err(err),
                    Ok((lc, n1)) => match self.cgen(
                        EmitState { d: st.d, loops: loops2, n: n1 },
                        w.code_loc@,
                        w.body.items@,
                    ) {
                        Err(err) => Err(err),
                        Ok((lb, st2)) => Ok(
                            (
                                label_line(start_l) + lc + test_zero_jump(end_l) + lb + branch(
                                    FlowOp::JUMP,
                                    start_l,
                                ) + label_line(end_l),
                                st2,
                            ),
                        ),
                    },
                }
            },
            Statement::DoWhileLoop(w) => if st.n >= u64::MAX {
                Err(CompileError::TooLarge)
            } else {
                let p = seq!['D', 'O', 'W', 'H', 'I', 'L', 'E', '_'];
                let cond_l = tmp_label(p, st.n, seq!['_', 'C', 'O', 'N', 'D']);
                let body_l = tmp_label(p, st.n, seq!['_', 'B', 'O', 'D', 'Y']);
                let end_l = tmp_label(p, st.n, seq!['_', 'E', 'N', 'D']);
                let loops2 = st.loops.push((w.code_loc@, end_l, cond_l));
                match self.rgen(st.d, scope, w.cond, st.n + 1) {
                    Err(err) => Err(err),
                    Ok((lc, n1)) => match self.cgen(
                        EmitState { d: st.d, loops: loops2, n: n1 },
                        w.code_loc@,
                        w.body.items@,
                    ) {
                        Err(err) => Err(err),
                        Ok((lb, st2)) => Ok(
                            (
                                branch(FlowOp::JUMP, body_l) + label_line(cond_l) + lc
                                    + test_zero_jump(end_l) + label_line(body_l) + lb + branch(
                                    FlowOp::JUMP,
                                    cond_l,
                                ) + label_line(end_l),
                                st2,
                            ),
                        ),
                    },
                }
            },
            Statement::ForLoop(f) => if st.n >= u64::MAX {
                Err(CompileError::TooLarge)
            } else {
                let p = seq!['F', 'O', 'R', '_'];
                let cond_l = tmp_label(p, st.n, seq!['_', 'C', 'O', 'N', 'D']);
                let end_l = tmp_label(p, st.n, seq!['_', 'E', 'N', 'D']);
                let next_l = tmp_label(p, st.n, seq!['_', 'N', 'E', 'X', 'T']);
                let st1 = EmitState { d: st.d, loops: st.loops.push((f.code_loc@, end_l, next_l)), n: st.n + 1 };
                let init = match f.init {
                    None => Ok((Seq::empty(), st1)),
                    Some(c) => self.cgen(st1, f.code_loc@, c.items@),
                };
                match init {
                    Err(err) => Err(err),
                    Ok((li, st2)) => {
                        let cond = match f.cond {
                            None => Ok((Seq::empty(), st2.n)),
                            Some(e) => match self.rgen(st2.d, f.code_loc@, e, st2.n) {
                                Err(err) => Err(err),
                                Ok((lc, n3)) => Ok((lc + test_zero_jump(end_l), n3)),
                            },
                        };
                        match cond {
                            Err(err) => Err(err),
                            Ok((lc, n3)) => match self.cgen(
                                EmitState { n: n3, ..st2 },
                                f.code_loc@,
                                f.body.items@,
                            ) {
                                Err(err) => Err(err),
                                Ok((lb, st4)) => {
                                    let next = match f.next {
                                        None => Ok((Seq::empty(), st4)),
                                        Some(c) => self.cgen(st4, f.code_loc@, c.items@),
                                    };
                                    match next {
                                        Err(err) => Err(err),
                                        Ok((ln, st5)) => Ok(
                                            (
                                                li + label_line(cond_l) + lc + lb + label_line(next_l) + ln
                                                    + branch(FlowOp::JUMP, cond_l) + label_line(end_l),
                                                st5,
                                            ),
                                        ),
                                    }
                                },
                            },
                        }
                    },
                }
            },
            Statement::Break => match enclosing_loop(self.scopes@, st.loops, scope, self.n_scopes()) {
                None => Err(CompileError::BreakOutsideLoop),
                Some((b, _)) => Ok((branch(FlowOp::JUMP, b), st)),
            },
            Statement::Continue => match enclosing_loop(self.scopes@, st.loops, scope, self.n_scopes()) {
                None => Err(CompileError::BreakOutsideLoop),
                Some((_, c)) => Ok((branch(FlowOp::JUMP, c), st)),
            },
        }
    }

    /// The code of a block's statements, in order, in scope `scope`.
    pub open spec fn cgen(&self, st: EmitState, scope: Seq<char>, items: Seq<Statement>) -> Result<
        (Seq<Seq<char>>, EmitState),
        CompileError,
    >
        decreases items,
    {
        if items.len() == 0 {
            Ok((Seq::empty(), st))
        } else {
            match self.cgen(st, scope, items.drop_last()) {
                Err(err) => Err(err),
                Ok((l, st2)) => match self.sgen(st2, scope, items.last()) {
                    Err(err) => Err(err),
                    Ok((l2, st3)) => Ok((l + l2, st3)),
                },
            }
        }
    }
}

// ---------------------------------------------------------------- emission

fn emit(code: &mut Vec<String>, i: Instruction)
    ensures
        lines(final(code)@) == lines(old(code)@) + ins(i),
{
    let line = i.to_str();
    code.push(line);
    proof {
        assert(lines(final(code)@) =~= lines(old(code)@) + ins(i));
    }
}

fn emit_chars(code: &mut Vec<String>, chars: &Vec<char>)
    ensures
        lines(final(code)@) == lines(old(code)@) + seq![chars@],
{
    let line = string_from_chars(chars);
    code.push(line);
    proof {
        assert(lines(final(code)@) =~= lines(old(code)@) + seq![chars@]);
    }
}

fn emit_branch(code: &mut Vec<String>, op: FlowOp, label: &Vec<char>)
    ensures
        lines(final(code)@) == lines(old(code)@) + branch(op, label@),
{
    let mut chars: Vec<char> = Vec::new();
    op.push_name(&mut chars);
    chars.push(' ');
    push_all(label, &mut chars);
    proof {
        assert(chars@ =~= sp(op.name(), label@));
    }
    emit_chars(code, &chars);
}

fn emit_label(code: &mut Vec<String>, label: &Vec<char>)
    ensures
        lines(final(code)@) == lines(old(code)@) + label_line(label@),
{
    let mut chars: Vec<char> = Vec::new();
    push_all(label, &mut chars);
    chars.push(':');
    proof {
        assert(chars@ =~= label@.push(':'));
    }
    emit_chars(code, &chars);
}

fn emit_repeat(code: &mut Vec<String>, i: Instruction, count: u64)
    ensures
        lines(final(code)@) == lines(old(code)@) + repeat(ins(i), count as nat),
{
    let mut k: u64 = 0;
    while k < count
        invariant
            0 <= k <= count,
            lines(code@) == lines(old(code)@) + repeat(ins(i), k as nat),
        decreases count - k,
    {
        emit(code, i);
        k += 1;
        proof {
            assert(lines(code@) =~= lines(old(code)@) + repeat(ins(i), k as nat));
        }
    }
}

/// `prefix`, the decimal counter, `suffix`.
fn make_label(prefix: &[char], n: u64, suffix: &[char]) -> (r: Vec<char>)
    ensures
        r@ == tmp_label(prefix@, n as nat, suffix@),
{
    let mut r: Vec<char> = Vec::new();
    let mut i: usize = 0;
    while i < prefix.len()
        invariant
            0 <= i <= prefix@.len(),
            r@ == prefix@.subrange(0, i as int),
        decreases prefix@.len() - i,
    {
        r.push(prefix[i]);
        i += 1;
        proof {
            assert(r@ =~= prefix@.subrange(0, i as int));
        }
    }
    proof {
        assert(prefix@.subrange(0, prefix@.len() as int) =~= prefix@);
    }
    push_nat_text(n, &mut r);
    let ghost mid = r@;
    let mut j: usize = 0;
    while j < suffix.len()
        invariant
            0 <= j <= suffix@.len(),
            r@ == mid + suffix@.subrange(0, j as int),
        decreases suffix@.len() - j,
    {
        r.push(suffix[j]);
        j += 1;
        proof {
            assert(r@ =~= mid + suffix@.subrange(0, j as int));
        }
    }
    proof {
        assert(suffix@.subrange(0, suffix@.len() as int) =~= suffix@);
    }
    r
}

fn scope_index(scopes: &Vec<ScopeData>, id: &String) -> (r: Option<usize>)
    ensures
        match find_scope(scopes@, id@) {
            Some(s) => r.is_some() && r.unwrap() < scopes@.len() && scopes@[r.unwrap() as int] == s,
            None => r.is_none(),
        },
{
    let mut i: usize = scopes.len();
    proof {
        assert(scopes@.subrange(0, i as int) =~= scopes@);
    }
    while i > 0
        invariant
            0 <= i <= scopes@.len(),
            find_scope(scopes@, id@) == find_scope(scopes@.subrange(0, i as int), id@),
        decreases i,
    {
        proof {
            assert(scopes@.subrange(0, i as int).drop_last() =~= scopes@.subrange(0, i - 1));
        }
        if scopes[i - 1].name == *id {
            return Some(i - 1);
        }
        i -= 1;
    }
    None
}

fn func_index(funcs: &Vec<FuncData>, name: &String) -> (r: Option<usize>)
    ensures
        match find_func(funcs@, name@) {
            Some(f) => r.is_some() && r.unwrap() < funcs@.len() && funcs@[r.unwrap() as int] == f,
            None => r.is_none(),
        },
{
    let mut i: usize = funcs.len();
    proof {
        assert(funcs@.subrange(0, i as int) =~= funcs@);
    }
    while i > 0
        invariant
            0 <= i <= funcs@.len(),
            find_func(funcs@, name@) == find_func(funcs@.subrange(0, i as int), name@),
        decreases i,
    {
        proof {
            assert(funcs@.subrange(0, i as int).drop_last() =~= funcs@.subrange(0, i - 1));
        }
        if funcs[i - 1].name == *name {
            return Some(i - 1);
        }
        i -= 1;
    }
    None
}

fn struct_index(structs: &Vec<StructData>, name: &String) -> (r: Option<usize>)
    ensures
        match find_struct(structs@, name@) {
            Some(st) => r.is_some() && r.unwrap() < structs@.len() && structs@[r.unwrap() as int]
                == st,
            None => r.is_none(),
        },
{
    let mut i: usize = structs.len();
    proof {
        assert(structs@.subrange(0, i as int) =~= structs@);
    }
    while i > 0
        invariant
            0 <= i <= structs@.len(),
            find_struct(structs@, name@) == find_struct(structs@.subrange(0, i as int), name@),
        decreases i,
    {
        proof {
            assert(structs@.subrange(0, i as int).drop_last() =~= structs@.subrange(0, i - 1));
        }
        if structs[i - 1].name == *name {
            return Some(i - 1);
        }
        i -= 1;
    }
    None
}

fn field_index(items: &Vec<FieldData>, name: &String) -> (r: Option<usize>)
    ensures
        match find_field(items@, name@) {
            Some(f) => r.is_some() && r.unwrap() < items@.len() && items@[r.unwrap() as int] == f,
            None => r.is_none(),
        },
{
    let mut i: usize = items.len();
    proof {
        assert(items@.subrange(0, i as int) =~= items@);
    }
    while i > 0
        invariant
            0 <= i <= items@.len(),
            find_field(items@, name@) == find_field(items@.subrange(0, i as int), name@),
        decreases i,
    {
        proof {
            assert(items@.subrange(0, i as int).drop_last() =~= items@.subrange(0, i - 1));
        }
        if items[i - 1].name == *name {
            return Some(i - 1);
        }
        i -= 1;
    }
    None
}

fn var_index(vars: &Vec<VariableData>, name: &String) -> (r: Option<usize>)
    ensures
        match find_var_in(vars@, name@) {
            Some(v) => r.is_some() && r.unwrap() < vars@.len() && vars@[r.unwrap() as int] == v,
            None => r.is_none(),
        },
{
    let mut i: usize = vars.len();
    proof {
        assert(vars@.subrange(0, i as int) =~= vars@);
    }
    while i > 0
        invariant
            0 <= i <= vars@.len(),
            find_var_in(vars@, name@) == find_var_in(vars@.subrange(0, i as int), name@),
        decreases i,
    {
        proof {
            assert(vars@.subrange(0, i as int).drop_last() =~= vars@.subrange(0, i - 1));
        }
        if vars[i - 1].name == *name {
            return Some(i - 1);
        }
        i -= 1;
    }
    None
}

fn declared_in(declared: &Vec<(String, String)>, scope: &String, name: &String) -> (r: bool)
    ensures
        r == is_declared(decl_view(declared@), scope@, name@),
{
    let mut i: usize = 0;
    while i < declared.len()
        invariant
            0 <= i <= declared@.len(),
            forall|k: int| 0 <= k < i ==> (#[trigger] decl_view(declared@)[k]) != (scope@, name@),
        decreases declared@.len() - i,
    {
        if declared[i].0 == *scope && declared[i].1 == *name {
            proof {
                assert(decl_view(declared@)[i as int] == (scope@, name@));
            }
            return true;
        }
        i += 1;
    }
    false
}

impl Tables {
    /// The scope and index within it of the variable `name` as seen from `scope`.
    pub fn find_variable(&self, declared: &Vec<(String, String)>, var_name: &String, scope: &String) -> (r: Option<(usize, usize)>)
        ensures
            match self.var_of(decl_view(declared@), scope@, var_name@) {
                Some(v) => r.is_some() && r.unwrap().0 < self.scopes@.len() && r.unwrap().1
                    < self.scopes@[r.unwrap().0 as int].variables@.len()
                    && self.scopes@[r.unwrap().0 as int].variables@[r.unwrap().1 as int] == v,
                None => r.is_none(),
            },
    {
        let mut cur: &String = scope;
        let mut fuel: usize = self.scopes.len();
        while fuel > 0
            invariant
                self.var_of(decl_view(declared@), scope@, var_name@) == resolve(
                    self.scopes@,
                    decl_view(declared@),
                    cur@,
                    var_name@,
                    fuel as nat,
                ),
            decreases fuel,
        {
            let si = match scope_index(&self.scopes, cur) {
                Some(i) => i,
                None => return None,
            };
            let sd = &self.scopes[si];
            if declared_in(declared, cur, var_name) {
                if let Some(vi) = var_index(&sd.variables, var_name) {
                    return Some((si, vi));
                }
            }
            if cur.as_str().unicode_len() == 7 && is_global(cur) {
                return None;
            }
            cur = &sd.parent_scope;
            fuel -= 1;
        }
        None
    }
}

fn is_global(s: &String) -> (r: bool)
    ensures
        r == (s@ == global_name()),
{
    let chars = str_chars(s.as_str());
    crate::text::chars_eq(&chars, &['_', 'G', 'L', 'O', 'B', 'A', 'L'])
}

fn const_of(val: &String) -> (r: Option<i32>)
    ensures
        r == const_value(val@),
{
    let v = str_chars(val.as_str());
    if v.len() == 3 && v[0] == '\'' && v[2] == '\'' {
        Some(v[1] as u32 as i32)
    } else if v.len() == 4 && v[0] == '\'' && v[1] == '\\' && v[3] == '\'' {
        let c = v[2];
        if c == 'n' {
            Some(10)
        } else if c == 't' {
            Some(9)
        } else if c == '0' {
            Some(0)
        } else if c == '\\' {
            Some(92)
        } else if c == '\'' {
            Some(39)
        } else {
            None
        }
    } else {
        parse_int(&v)
    }
}

fn copy_u32s(v: &Vec<u32>) -> (r: Vec<u32>)
    ensures
        r@ == v@,
{
    let mut r: Vec<u32> = Vec::new();
    let mut i: usize = 0;
    while i < v.len()
        invariant
            0 <= i <= v@.len(),
            r@ == v@.subrange(0, i as int),
        decreases v@.len() - i,
    {
        r.push(v[i]);
        i += 1;
        proof {
            assert(r@ =~= v@.subrange(0, i as int));
        }
    }
    proof {
        assert(v@.subrange(0, v@.len() as int) =~= v@);
    }
    r
}

const SCALE_CAP: u64 = 0x8000_0000;

proof fn lemma_prod_nonneg(s: Seq<u32>)
    ensures
        prod(s) >= 0,
    decreases s.len(),
{
    if s.len() > 0 {
        lemma_prod_nonneg(s.drop_last());
        let p = prod(s.drop_last());
        let d = s.last() as int;
        assert(p * d >= 0) by (nonlinear_arith)
            requires
                p >= 0,
                d >= 0,
        ;
    }
}

fn scale_of(dims: &Vec<u32>, k: usize, item: u32) -> (r: Option<i32>)
    requires
        k < dims@.len(),
    ensures
        r == index_scale(dims@, k as int, item),
{
    let len = dims.len();
    let mut acc: u64 = 1;
    let mut j: usize = k + 1;
    proof {
        assert(dims@.subrange(k + 1, k + 1) =~= Seq::<u32>::empty());
    }
    while j < dims.len()
        invariant
            k + 1 <= j <= dims@.len(),
            acc <= SCALE_CAP,
            acc as int == (if prod(dims@.subrange(k + 1, j as int)) < SCALE_CAP {
                prod(dims@.subrange(k + 1, j as int))
            } else {
                SCALE_CAP as int
            }),
        decreases dims@.len() - j,
    {
        let d = dims[j] as u64;
        let ghost p = prod(dims@.subrange(k + 1, j as int));
        proof {
            assert(dims@.subrange(k + 1, j + 1).drop_last() =~= dims@.subrange(k + 1, j as int));
            lemma_prod_nonneg(dims@.subrange(k + 1, j as int));
            assert(acc * d <= SCALE_CAP * 0xffff_ffff) by (nonlinear_arith)
                requires
                    acc <= SCALE_CAP,
                    d <= 0xffff_ffff,
            ;
        }
        let m = acc * d;
        acc = if m < SCALE_CAP { m } else { SCALE_CAP };
        j += 1;
        proof {
            let q = prod(dims@.subrange(k + 1, j as int));
            assert(q == p * d);
            if p >= SCALE_CAP {
                if d == 0 {
                    assert(p * d == 0) by (nonlinear_arith)
                        requires
                            d == 0,
                    ;
                } else {
                    assert(p * d >= p) by (nonlinear_arith)
                        requires
                            d >= 1,
                            p >= 0,
                    ;
                }
            }
        }
    }
    let ghost p = prod(dims@.subrange(k + 1, dims@.len() as int));
    proof {
        lemma_prod_nonneg(dims@.subrange(k + 1, dims@.len() as int));
        assert(acc * item <= SCALE_CAP * 0xffff_ffff) by (nonlinear_arith)
            requires
                acc <= SCALE_CAP,
                item <= 0xffff_ffff,
        ;
        if p >= SCALE_CAP && item > 0 {
            assert(p * item >= p) by (nonlinear_arith)
                requires
                    item >= 1,
                    p >= 0,
            ;
        }
        if item == 0 {
            assert(p * item == 0) by (nonlinear_arith)
                requires
                    item == 0,
            ;
            assert(acc * item == 0) by (nonlinear_arith)
                requires
                    item == 0,
            ;
        }
        if p < SCALE_CAP {
            assert(acc * item == p * item);
        } else if item > 0 {
            assert(acc * item >= SCALE_CAP) by (nonlinear_arith)
                requires
                    acc == SCALE_CAP,
                    item >= 1,
            ;
        }
    }
    let total = acc * item as u64;
    if total <= 0x7fff_ffff {
        Some(total as i32)
    } else {
        None
    }
}

proof fn lemma_index_gen_err(t: &Tables, d: Declared, scope: Seq<char>, idx: Seq<Box<Expression>>, dims: Seq<u32>, item: u32, n: nat, k: int, m: int)
    requires
        0 <= k <= m <= idx.len(),
        t.index_gen(d, scope, idx.subrange(0, k), dims, item, n).is_err(),
    ensures
        t.index_gen(d, scope, idx.subrange(0, m), dims, item, n) == t.index_gen(
            d,
            scope,
            idx.subrange(0, k),
            dims,
            item,
            n,
        ),
    decreases m - k,
{
    if m > k {
        lemma_index_gen_err(t, d, scope, idx, dims, item, n, k, m - 1);
        assert(idx.subrange(0, m).drop_last() =~= idx.subrange(0, m - 1));
    }
}

impl Compiler {
    fn var_offset_of(&self, scope: &String, v: &VariableData) -> (r: Result<i32, CompileError>)
        ensures
            r == self.tables.var_offset(scope@, *v),
    {
        let si = match scope_index(&self.tables.scopes, scope) {
            Some(i) => i,
            None => return Err(CompileError::UnknownScope),
        };
        let fi = match func_index(&self.tables.funcs, &self.tables.scopes[si].parent_func) {
            Some(i) => i,
            None => return Err(CompileError::UnknownFunction),
        };
        match v.local_or_arg {
            LocalOrArg::Local => {
                if v.offset as u64 + 1 + REGS_USED as u64 <= 0x7fff_ffff {
                    Ok(-((1 + REGS_USED + v.offset) as i32))
                } else {
                    Err(CompileError::TooLarge)
                }
            },
            LocalOrArg::Arg => {
                let ret = self.tables.funcs[fi].ret_size;
                if v.offset as u64 + 2 + ret as u64 <= 0x7fff_ffff {
                    Ok((2 + ret + v.offset) as i32)
                } else {
                    Err(CompileError::TooLarge)
                }
            },
        }
    }

    fn codegen_load_addr_of_var(&self, var_name: &String, scope: &String, code: &mut Vec<String>) -> (r: Result<(), CompileError>)
        ensures
            match self.tables.addr_gen(decl_view(self.declared@), scope@, var_name@) {
                Ok(l) => r.is_ok() && lines(final(code)@) == lines(old(code)@) + l,
                Err(e) => r == Err::<(), CompileError>(e),
            },
    {
        let (si, vi) = match self.tables.find_variable(&self.declared, var_name, scope) {
            Some(p) => p,
            None => return Err(CompileError::UnknownVariable),
        };
        let k = self.var_offset_of(scope, &self.tables.scopes[si].variables[vi])?;
        emit(
            code,
            Instruction::BinArith {
                op: BinArithOp::ADD,
                dst: Register::R1,
                arg1: Register::BP,
                arg2: RegOrImm::Val(k),
            },
        );
        Ok(())
    }

    /// Emits code that leaves the value of `node` in `R1`.
    pub fn right_gen(&mut self, node: &Expression, scope: &String, code: &mut Vec<String>) -> (r: Result<
        (),
        CompileError,
    >)
        ensures
            final(self).tables == old(self).tables,
            final(self).declared == old(self).declared,
            final(self).loop_labels == old(self).loop_labels,
            match old(self).tables.rgen(decl_view(old(self).declared@), scope@, *node, old(self).tmp_label_count as nat) {
                Ok((l, n)) => r.is_ok() && lines(final(code)@) == lines(old(code)@) + l
                    && final(self).tmp_label_count == n,
                Err(e) => r == Err::<(), CompileError>(e),
            },
        decreases node,
    {
        let ghost start = lines(code@);
        match node {
            Expression::Constant(c) => {
                match const_of(&c.val) {
                    Some(v) => {
                        emit(code, Instruction::Data { op: DataOp::MOV, dst: Register::R1, src: RegOrImm::Val(v) });
                        Ok(())
                    },
                    None => Err(CompileError::BadConstant),
                }
            },
            Expression::BinaryOp(b) => self.gen_binary_code(b, scope, code),
            Expression::UnaryOp(u) => self.gen_unary_code(u, scope, code),
            Expression::ID(id) => {
                self.codegen_load_addr_of_var(&id.name, scope, code)?;
                emit(code, Instruction::Data { op: DataOp::LOAD, dst: Register::R1, src: RegOrImm::Reg(Register::R1) });
                proof {
                    assert(lines(code@) =~= start + self.tables.rgen(decl_view(self.declared@), scope@, *node, old(self).tmp_label_count as nat).unwrap().0);
                }
                Ok(())
            },
            Expression::Assignment(a) => self.gen_assignment_code(a, scope, code),
            Expression::TernaryOp(t) => self.gen_ternary_code(t, scope, code),
            Expression::FuncCall(fc) => self.gen_call_code(fc, scope, code),
            Expression::ArrayRef(ar) => {
                self.codegen_load_addr_of_array_indexing(ar, scope, code)?;
                emit(code, Instruction::Data { op: DataOp::LOAD, dst: Register::R1, src: RegOrImm::Reg(Register::R1) });
                proof {
                    assert(lines(code@) =~= start + self.tables.rgen(decl_view(self.declared@), scope@, *node, old(self).tmp_label_count as nat).unwrap().0);
                }
                Ok(())
            },
            Expression::StructRef(sr) => {
                self.codegen_load_addr_of_struct_ref(sr, scope, code)?;
                emit(code, Instruction::Data { op: DataOp::LOAD, dst: Register::R1, src: RegOrImm::Reg(Register::R1) });
                proof {
                    assert(lines(code@) =~= start + self.tables.rgen(decl_view(self.declared@), scope@, *node, old(self).tmp_label_count as nat).unwrap().0);
                }
                Ok(())
            },
        }
    }

    fn gen_binary_code(&mut self, b: &BinaryOp, scope: &String, code: &mut Vec<String>) -> (r: Result<(), CompileError>)
        ensures
            final(self).tables == old(self).tables,
            final(self).declared == old(self).declared,
            final(self).loop_labels == old(self).loop_labels,
            match old(self).tables.rgen(decl_view(old(self).declared@), scope@, Expression::BinaryOp(*b), old(self).tmp_label_count as nat) {
                Ok((l, n)) => r.is_ok() && lines(final(code)@) == lines(old(code)@) + l
                    && final(self).tmp_label_count == n,
                Err(e) => r == Err::<(), CompileError>(e),
            },
        decreases b,
    {
        let ghost start = lines(code@);
        self.right_gen(&b.left, scope, code)?;
        emit(code, Instruction::Stack { op: StackOp::PUSH, dst: Register::R1 });
        self.right_gen(&b.right, scope, code)?;
        emit(code, Instruction::Stack { op: StackOp::POP, dst: Register::R2 });
        self.emit_binop_tail(b.op_type, code);
        proof {
            assert(lines(code@) =~= start + self.tables.rgen(decl_view(self.declared@), scope@, Expression::BinaryOp(*b), old(self).tmp_label_count as nat).unwrap().0);
        }
        Ok(())
    }

    fn gen_unary_code(&mut self, u: &UnaryOp, scope: &String, code: &mut Vec<String>) -> (r: Result<(), CompileError>)
        ensures
            final(self).tables == old(self).tables,
            final(self).declared == old(self).declared,
            final(self).loop_labels == old(self).loop_labels,
            match old(self).tables.rgen(decl_view(old(self).declared@), scope@, Expression::UnaryOp(*u), old(self).tmp_label_count as nat) {
                Ok((l, n)) => r.is_ok() && lines(final(code)@) == lines(old(code)@) + l
                    && final(self).tmp_label_count == n,
                Err(e) => r == Err::<(), CompileError>(e),
            },
        decreases u,
    {
        let ghost start = lines(code@);
        match u.op_type {
            UnaryopType::NEG => {
                self.right_gen(&u.expr, scope, code)?;
                emit(code, Instruction::UnaryArith { op: UnaryArithOp::NEG, arg: Register::R1 });
            },
            UnaryopType::NOT => {
                self.right_gen(&u.expr, scope, code)?;
                emit(code, Instruction::Test { op: TestOp::TSTE, arg1: Register::R1, arg2: RegOrImm::Val(0) });
                emit(code, Instruction::Data { op: DataOp::MOV, dst: Register::R1, src: RegOrImm::Reg(Register::ZR) });
            },
            UnaryopType::PPX | UnaryopType::MMX => {
                self.left_gen(&u.expr, scope, code)?;
                emit(code, Instruction::Data { op: DataOp::LOAD, dst: Register::R2, src: RegOrImm::Reg(Register::R1) });
                let arith = if u.op_type == UnaryopType::PPX { BinArithOp::ADD } else { BinArithOp::SUB };
                emit(code, Instruction::BinArith { op: arith, dst: Register::R2, arg1: Register::R2, arg2: RegOrImm::Val(1) });
                emit(code, Instruction::Data { op: DataOp::STR, dst: Register::R1, src: RegOrImm::Reg(Register::R2) });
                emit(code, Instruction::Data { op: DataOp::MOV, dst: Register::R1, src: RegOrImm::Reg(Register::R2) });
            },
            UnaryopType::XPP | UnaryopType::XMM => {
                self.left_gen(&u.expr, scope, code)?;
                emit(code, Instruction::Data { op: DataOp::LOAD, dst: Register::R2, src: RegOrImm::Reg(Register::R1) });
                emit(code, Instruction::Stack { op: StackOp::PUSH, dst: Register::R2 });
                let arith = if u.op_type == UnaryopType::XPP { BinArithOp::ADD } else { BinArithOp::SUB };
                emit(code, Instruction::BinArith { op: arith, dst: Register::R2, arg1: Register::R2, arg2: RegOrImm::Val(1) });
                emit(code, Instruction::Data { op: DataOp::STR, dst: Register::R1, src: RegOrImm::Reg(Register::R2) });
                emit(code, Instruction::Stack { op: StackOp::POP, dst: Register::R1 });
            },
            UnaryopType::REF => {
                self.left_gen(&u.expr, scope, code)?;
            },
            UnaryopType::DEREF => {
                self.right_gen(&u.expr, scope, code)?;
                emit(code, Instruction::Data { op: DataOp::LOAD, dst: Register::R1, src: RegOrImm::Reg(Register::R1) });
            },
        }
        proof {
            assert(lines(code@) =~= start + self.tables.rgen(decl_view(self.declared@), scope@, Expression::UnaryOp(*u), old(self).tmp_label_count as nat).unwrap().0);
        }
        Ok(())
    }

    fn gen_ternary_code(&mut self, t: &TernaryOp, scope: &String, code: &mut Vec<String>) -> (r: Result<(), CompileError>)
        ensures
            final(self).tables == old(self).tables,
            final(self).declared == old(self).declared,
            final(self).loop_labels == old(self).loop_labels,
            match old(self).tables.rgen(decl_view(old(self).declared@), scope@, Expression::TernaryOp(*t), old(self).tmp_label_count as nat) {
                Ok((l, n)) => r.is_ok() && lines(final(code)@) == lines(old(code)@) + l
                    && final(self).tmp_label_count == n,
                Err(e) => r == Err::<(), CompileError>(e),
            },
        decreases t,
    {
        let ghost start = lines(code@);
        let n = self.tmp_label_count;
        if n == u64::MAX {
            return Err(CompileError::TooLarge);
        }
        let no = make_label(&['T', 'E', 'R', 'N', 'A', 'R', 'Y', '_'], n, &['_', 'N', 'O']);
        let yes = make_label(&['T', 'E', 'R', 'N', 'A', 'R', 'Y', '_'], n, &['_', 'Y', 'E', 'S']);
        self.tmp_label_count = n + 1;
        self.right_gen(&t.cond, scope, code)?;
        emit(code, Instruction::Test { op: TestOp::TSTN, arg1: Register::R1, arg2: RegOrImm::Val(0) });
        emit_branch(code, FlowOp::FJMP, &no);
        self.right_gen(&t.iftrue, scope, code)?;
        emit_branch(code, FlowOp::JUMP, &yes);
        emit_label(code, &no);
        self.right_gen(&t.iffalse, scope, code)?;
        emit_label(code, &yes);
        proof {
            assert(lines(code@) =~= start + self.tables.rgen(decl_view(self.declared@), scope@, Expression::TernaryOp(*t), old(self).tmp_label_count as nat).unwrap().0);
        }
        Ok(())
    }

    fn emit_binop_tail(&self, op: BinaryopType, code: &mut Vec<String>)
        ensures
            lines(final(code)@) == lines(old(code)@) + binop_tail(op),
    {
        let mov = Instruction::Data { op: DataOp::MOV, dst: Register::R1, src: RegOrImm::Reg(Register::ZR) };
        match op.to_bin_op() {
            Some(m) => {
                emit(code, Instruction::BinArith { op: m, dst: Register::R1, arg1: Register::R2, arg2: RegOrImm::Reg(Register::R1) });
            },
            None => {
                match op {
                    BinaryopType::EQ => {
                        emit(code, Instruction::Test { op: TestOp::TSTE, arg1: Register::R1, arg2: RegOrImm::Reg(Register::R2) });
                        emit(code, mov);
                    },
                    BinaryopType::NEQ => {
                        emit(code, Instruction::Test { op: TestOp::TSTN, arg1: Register::R1, arg2: RegOrImm::Reg(Register::R2) });
                        emit(code, mov);
                    },
                    BinaryopType::LogicalAnd | BinaryopType::LogicalOr => {
                        emit(code, Instruction::Test { op: TestOp::TSTN, arg1: Register::R1, arg2: RegOrImm::Val(0) });
                        emit(code, mov);
                        emit(code, Instruction::Test { op: TestOp::TSTN, arg1: Register::R2, arg2: RegOrImm::Val(0) });
                        let m = if op == BinaryopType::LogicalAnd { BinArithOp::AND } else { BinArithOp::OR };
                        emit(code, Instruction::BinArith { op: m, dst: Register::R1, arg1: Register::R1, arg2: RegOrImm::Reg(Register::ZR) });
                    },
                    BinaryopType::LT => {
                        emit(code, Instruction::Test { op: TestOp::TSTL, arg1: Register::R2, arg2: RegOrImm::Reg(Register::R1) });
                        emit(code, mov);
                    },
                    BinaryopType::LTEQ => {
                        emit(code, Instruction::Test { op: TestOp::TSTG, arg1: Register::R2, arg2: RegOrImm::Reg(Register::R1) });
                        emit(code, Instruction::Test { op: TestOp::TSTN, arg1: Register::ZR, arg2: RegOrImm::Val(1) });
                        emit(code, mov);
                    },
                    BinaryopType::GT => {
                        emit(code, Instruction::Test { op: TestOp::TSTG, arg1: Register::R2, arg2: RegOrImm::Reg(Register::R1) });
                        emit(code, mov);
                    },
                    _ => {
                        emit(code, Instruction::Test { op: TestOp::TSTL, arg1: Register::R2, arg2: RegOrImm::Reg(Register::R1) });
                        emit(code, Instruction::Test { op: TestOp::TSTN, arg1: Register::ZR, arg2: RegOrImm::Val(1) });
                        emit(code, mov);
                    },
                }
            },
        }
        proof {
            assert(lines(final(code)@) =~= lines(old(code)@) + binop_tail(op));
        }
    }

    /// Emits code that leaves the address of the lvalue `node` in `R1`.
    pub fn left_gen(&mut self, node: &Expression, scope: &String, code: &mut Vec<String>) -> (r: Result<
        (),
        CompileError,
    >)
        ensures
            final(self).tables == old(self).tables,
            final(self).declared == old(self).declared,
            final(self).loop_labels == old(self).loop_labels,
            match old(self).tables.lgen(decl_view(old(self).declared@), scope@, *node, old(self).tmp_label_count as nat) {
                Ok((l, n)) => r.is_ok() && lines(final(code)@) == lines(old(code)@) + l
                    && final(self).tmp_label_count == n,
                Err(e) => r == Err::<(), CompileError>(e),
            },
        decreases node,
    {
        match node {
            Expression::ID(id) => self.codegen_load_addr_of_var(&id.name, scope, code),
            Expression::UnaryOp(u) => {
                if u.op_type == UnaryopType::DEREF {
                    self.right_gen(&u.expr, scope, code)
                } else {
                    Err(CompileError::NotAnLvalue)
                }
            },
            Expression::ArrayRef(ar) => self.codegen_load_addr_of_array_indexing(ar, scope, code),
            Expression::StructRef(sr) => self.codegen_load_addr_of_struct_ref(sr, scope, code),
            _ => Err(CompileError::NotAnLvalue),
        }
    }

    /// Emits an assignment; its value stays in `R1`.
    fn gen_assignment_code(&mut self, ass: &Assignment, scope: &String, code: &mut Vec<String>) -> (r: Result<
        (),
        CompileError,
    >)
        ensures
            final(self).tables == old(self).tables,
            final(self).declared == old(self).declared,
            final(self).loop_labels == old(self).loop_labels,
            match old(self).tables.assign_gen(decl_view(old(self).declared@), scope@, *ass, old(self).tmp_label_count as nat) {
                Ok((l, n)) => r.is_ok() && lines(final(code)@) == lines(old(code)@) + l
                    && final(self).tmp_label_count == n,
                Err(e) => r == Err::<(), CompileError>(e),
            },
        decreases ass,
    {
        let ghost start = lines(code@);
        self.left_gen(&ass.lvalue, scope, code)?;
        emit(code, Instruction::Stack { op: StackOp::PUSH, dst: Register::R1 });
        self.right_gen(&ass.rvalue, scope, code)?;
        emit(code, Instruction::Stack { op: StackOp::POP, dst: Register::R2 });
        if let Some(op) = &ass.op.op {
            let m = match op.to_bin_op() {
                Some(m) => m,
                None => return Err(CompileError::NotAnLvalue),
            };
            emit(code, Instruction::Stack { op: StackOp::PUSH, dst: Register::R2 });
            emit(code, Instruction::Data { op: DataOp::LOAD, dst: Register::R2, src: RegOrImm::Reg(Register::R2) });
            emit(code, Instruction::BinArith { op: m, dst: Register::R1, arg1: Register::R2, arg2: RegOrImm::Reg(Register::R1) });
            emit(code, Instruction::Stack { op: StackOp::POP, dst: Register::R2 });
        }
        emit(code, Instruction::Data { op: DataOp::STR, dst: Register::R2, src: RegOrImm::Reg(Register::R1) });
        proof {
            assert(lines(code@) =~= start + self.tables.assign_gen(decl_view(self.declared@), scope@, *ass, old(self).tmp_label_count as nat).unwrap().0);
        }
        Ok(())
    }

    /// Emits a call: arguments last first, room for the return value, the
    /// call, the return value popped to `R1`, and the arguments dropped.
    #[verifier::rlimit(60)]
    fn gen_call_code(&mut self, fc: &FuncCall, scope: &String, code: &mut Vec<String>) -> (r: Result<
        (),
        CompileError,
    >)
        ensures
            final(self).tables == old(self).tables,
            final(self).declared == old(self).declared,
            final(self).loop_labels == old(self).loop_labels,
            match old(self).tables.rgen(decl_view(old(self).declared@), scope@, Expression::FuncCall(*fc), old(self).tmp_label_count as nat) {
                Ok((l, n)) => r.is_ok() && lines(final(code)@) == lines(old(code)@) + l
                    && final(self).tmp_label_count == n,
                Err(e) => r == Err::<(), CompileError>(e),
            },
        decreases fc,
    {
        let ghost start = lines(code@);
        let ghost n0 = self.tmp_label_count as nat;
        let ghost t = self.tables;
        let ghost dv = decl_view(self.declared@);
        let ghost whole = t.args_gen(dv, scope@, fc.args@, n0);
        let fi = match func_index(&self.tables.funcs, &fc.name) {
            Some(i) => i,
            None => return Err(CompileError::UnknownFunction),
        };
        let ret_size = self.tables.funcs[fi].ret_size;
        let mut i: usize = fc.args.len();
        let ghost mut emitted: Seq<Seq<char>> = Seq::empty();
        proof {
            assert(fc.args@.subrange(0, i as int) =~= fc.args@);
            assert(start + emitted =~= start);
            assert(emitted + whole.unwrap().0 =~= whole.unwrap().0);
        }
        while i > 0
            invariant
                0 <= i <= fc.args@.len(),
                t == old(self).tables,
                self.tables == t,
                self.declared == old(self).declared,
                self.loop_labels == old(self).loop_labels,
                dv == decl_view(old(self).declared@),
                n0 == old(self).tmp_label_count as nat,
                start == lines(old(code)@),
                whole == t.args_gen(dv, scope@, fc.args@, n0),
                find_func(t.funcs@, fc.name@).is_some(),
                lines(code@) == start + emitted,
                match t.args_gen(dv, scope@, fc.args@.subrange(0, i as int), self.tmp_label_count as nat) {
                    Err(e) => whole == Err::<(Seq<Seq<char>>, nat), CompileError>(e),
                    Ok((l, n2)) => whole == Ok::<(Seq<Seq<char>>, nat), CompileError>((emitted + l, n2)),
                },
            decreases i,
        {
            let ghost pre = fc.args@.subrange(0, i as int);
            let ghost before = lines(code@);
            let ghost r1 = t.rgen(dv, scope@, *fc.args@[i - 1], self.tmp_label_count as nat);
            proof {
                assert(pre.drop_last() =~= fc.args@.subrange(0, i - 1));
                assert(pre.last() == fc.args@[i - 1]);
            }
            let res = self.right_gen(&fc.args[i - 1], scope, code);
            if let Err(e) = res {
                return Err(e);
            }
            emit(code, Instruction::Stack { op: StackOp::PUSH, dst: Register::R1 });
            proof {
                let lr = r1.unwrap().0;
                let push = stack(StackOp::PUSH, Register::R1);
                assert(lines(code@) =~= start + (emitted + lr + push));
                match t.args_gen(dv, scope@, fc.args@.subrange(0, i - 1), self.tmp_label_count as nat) {
                    Ok((l2, n2)) => {
                        assert(emitted + (lr + push + l2) =~= (emitted + lr + push) + l2);
                    },
                    Err(_) => {},
                }
                emitted = emitted + lr + push;
            }
            i -= 1;
        }
        proof {
            assert(fc.args@.subrange(0, 0) =~= Seq::<Box<Expression>>::empty());
            assert(emitted + Seq::<Seq<char>>::empty() =~= emitted);
        }
        emit_repeat(code, Instruction::Stack { op: StackOp::PUSH, dst: Register::ZR }, ret_size as u64);
        let name_chars = str_chars(fc.name.as_str());
        emit_branch(code, FlowOp::CALL, &name_chars);
        if ret_size > 0 {
            emit(code, Instruction::Stack { op: StackOp::POP, dst: Register::R1 });
        }
        emit_repeat(code, Instruction::Stack { op: StackOp::POP, dst: Register::ZR }, fc.args.len() as u64);
        proof {
            assert(lines(code@) =~= start + t.rgen(dv, scope@, Expression::FuncCall(*fc), n0).unwrap().0);
        }
        Ok(())
    }

    /// Emits code that leaves the address of an array item in `R1`.
    #[verifier::rlimit(60)]
    fn codegen_load_addr_of_array_indexing(&mut self, array_ref: &ArrayRef, scope: &String, code: &mut Vec<String>) -> (r: Result<
        (),
        CompileError,
    >)
        ensures
            final(self).tables == old(self).tables,
            final(self).declared == old(self).declared,
            final(self).loop_labels == old(self).loop_labels,
            match old(self).tables.array_addr_gen(decl_view(old(self).declared@), scope@, *array_ref, old(self).tmp_label_count as nat) {
                Ok((l, n)) => r.is_ok() && lines(final(code)@) == lines(old(code)@) + l
                    && final(self).tmp_label_count == n,
                Err(e) => r == Err::<(), CompileError>(e),
            },
        decreases array_ref,
    {
        let ghost start = lines(code@);
        let ghost n0 = self.tmp_label_count as nat;
        let ghost t = self.tables;
        let ghost dv = decl_view(self.declared@);
        let (si, vi) = match self.tables.find_variable(&self.declared, &array_ref.name, scope) {
            Some(p) => p,
            None => return Err(CompileError::UnknownVariable),
        };
        let (item_size, dims) = match &self.tables.scopes[si].variables[vi].shape {
            Shape::Array { item_size, dims } => (*item_size, copy_u32s(dims)),
            _ => return Err(CompileError::NotAnArray),
        };
        if array_ref.indices.len() > dims.len() {
            return Err(CompileError::NotAnArray);
        }
        self.codegen_load_addr_of_var(&array_ref.name, scope, code)?;
        emit(code, Instruction::Data { op: DataOp::MOV, dst: Register::R2, src: RegOrImm::Reg(Register::R1) });
        let ghost head = lines(code@);
        let ghost idx = array_ref.indices@;
        let ghost whole = t.index_gen(dv, scope@, idx, dims@, item_size, n0);
        proof {
            let la = t.addr_gen(dv, scope@, array_ref.name@).unwrap();
            let mov = data(DataOp::MOV, Register::R2, reg(Register::R1));
            assert(head =~= start + la + mov);
            assert(head.subrange(start.len() as int, head.len() as int) =~= la + mov);
            assert(head.subrange(0, start.len() as int) =~= start);
        }
        let mut k: usize = 0;
        let ghost mut emitted: Seq<Seq<char>> = Seq::empty();
        proof {
            assert(idx.subrange(0, 0) =~= Seq::<Box<Expression>>::empty());
            assert(head + emitted =~= head);
        }
        while k < array_ref.indices.len()
            invariant
                0 <= k <= idx.len(),
                idx == array_ref.indices@,
                idx.len() <= dims@.len(),
                t == old(self).tables,
                self.tables == t,
                self.declared == old(self).declared,
                self.loop_labels == old(self).loop_labels,
                dv == decl_view(old(self).declared@),
                n0 == old(self).tmp_label_count as nat,
                start == lines(old(code)@),
                whole == t.index_gen(dv, scope@, idx, dims@, item_size, n0),
                t.array_addr_gen(dv, scope@, *array_ref, n0) == (match whole {
                    Ok((li, n1)) => Ok::<(Seq<Seq<char>>, nat), CompileError>(
                        (head.subrange(start.len() as int, head.len() as int) + li + data(
                            DataOp::MOV,
                            Register::R1,
                            reg(Register::R2),
                        ), n1),
                    ),
                    Err(e) => Err(e),
                }),
                head.len() >= start.len(),
                head.subrange(0, start.len() as int) == start,
                lines(code@) == head + emitted,
                t.index_gen(dv, scope@, idx.subrange(0, k as int), dims@, item_size, n0) == Ok::<(Seq<Seq<char>>, nat), CompileError>(
                    (emitted, self.tmp_label_count as nat),
                ),
            decreases idx.len() - k,
        {
            let ghost cnt = self.tmp_label_count as nat;
            let ghost r1 = t.rgen(dv, scope@, *idx[k as int], cnt);
            proof {
                assert(idx.subrange(0, k + 1).drop_last() =~= idx.subrange(0, k as int));
                assert(idx.subrange(0, k + 1).last() == idx[k as int]);
            }
            let m = match scale_of(&dims, k, item_size) {
                Some(m) => m,
                None => {
                    proof {
                        lemma_index_gen_err(&t, dv, scope@, idx, dims@, item_size, n0, k + 1, idx.len() as int);
                        assert(idx.subrange(0, idx.len() as int) =~= idx);
                    }
                    return Err(CompileError::TooLarge);
                },
            };
            emit(code, Instruction::Stack { op: StackOp::PUSH, dst: Register::R2 });
            let res = self.right_gen(&array_ref.indices[k], scope, code);
            if let Err(e) = res {
                proof {
                    lemma_index_gen_err(&t, dv, scope@, idx, dims@, item_size, n0, k + 1, idx.len() as int);
                    assert(idx.subrange(0, idx.len() as int) =~= idx);
                }
                return Err(e);
            }
            emit(code, Instruction::Stack { op: StackOp::POP, dst: Register::R2 });
            emit(code, Instruction::BinArith { op: BinArithOp::MUL, dst: Register::R1, arg1: Register::R1, arg2: RegOrImm::Val(m) });
            emit(code, Instruction::BinArith { op: BinArithOp::ADD, dst: Register::R2, arg1: Register::R2, arg2: RegOrImm::Reg(Register::R1) });
            proof {
                let li = r1.unwrap().0;
                let part = stack(StackOp::PUSH, Register::R2) + li + stack(StackOp::POP, Register::R2)
                    + bin(BinArithOp::MUL, Register::R1, Register::R1, imm(m)) + bin(
                    BinArithOp::ADD,
                    Register::R2,
                    Register::R2,
                    reg(Register::R1),
                );
                assert(lines(code@) =~= head + (emitted + part));
                assert(emitted + stack(StackOp::PUSH, Register::R2) + li + stack(StackOp::POP, Register::R2)
                    + bin(BinArithOp::MUL, Register::R1, Register::R1, imm(m)) + bin(
                    BinArithOp::ADD,
                    Register::R2,
                    Register::R2,
                    reg(Register::R1),
                ) =~= emitted + part);
                emitted = emitted + part;
            }
            k += 1;
        }
        emit(code, Instruction::Data { op: DataOp::MOV, dst: Register::R1, src: RegOrImm::Reg(Register::R2) });
        proof {
            assert(idx.subrange(0, idx.len() as int) =~= idx);
            assert(head =~= start + head.subrange(start.len() as int, head.len() as int));
            assert(lines(code@) =~= start + t.array_addr_gen(dv, scope@, *array_ref, n0).unwrap().0);
        }
        Ok(())
    }

    /// Emits code that leaves the address of a struct field in `R1`.
    #[verifier::rlimit(60)]
    fn codegen_load_addr_of_struct_ref(&mut self, struct_ref: &StructRef, scope: &String, code: &mut Vec<String>) -> (r: Result<
        (),
        CompileError,
    >)
        ensures
            final(self).tables == old(self).tables,
            final(self).declared == old(self).declared,
            final(self).loop_labels == old(self).loop_labels,
            final(self).tmp_label_count == old(self).tmp_label_count,
            match old(self).tables.struct_addr_gen(decl_view(old(self).declared@), scope@, *struct_ref) {
                Ok(l) => r.is_ok() && lines(final(code)@) == lines(old(code)@) + l,
                Err(e) => r == Err::<(), CompileError>(e),
            },
    {
        let ghost start = lines(code@);
        let ghost t = self.tables;
        let ghost dv = decl_view(self.declared@);
        let (si, vi) = match self.tables.find_variable(&self.declared, &struct_ref.name, scope) {
            Some(p) => p,
            None => return Err(CompileError::UnknownVariable),
        };
        let mut cur: String = match &self.tables.scopes[si].variables[vi].shape {
            Shape::Struct(n) => n.clone(),
            _ => return Err(CompileError::NotAStruct),
        };
        self.codegen_load_addr_of_var(&struct_ref.name, scope, code)?;
        emit(code, Instruction::Data { op: DataOp::MOV, dst: Register::R2, src: RegOrImm::Reg(Register::R1) });
        let ghost head = lines(code@);
        let ghost fields = struct_ref.field_names@;
        let ghost whole = t.fields_gen(cur@, fields, 0);
        proof {
            let la = t.addr_gen(dv, scope@, struct_ref.name@).unwrap();
            let mov = data(DataOp::MOV, Register::R2, reg(Register::R1));
            assert(head =~= start + la + mov);
            assert(head.subrange(start.len() as int, head.len() as int) =~= la + mov);
            assert(head.subrange(0, start.len() as int) =~= start);
        }
        let mut k: usize = 0;
        let ghost mut emitted: Seq<Seq<char>> = Seq::empty();
        proof {
            assert(head + emitted =~= head);
            assert(emitted + whole.unwrap() =~= whole.unwrap());
        }
        while k < struct_ref.field_names.len()
            invariant
                0 <= k <= fields.len(),
                fields == struct_ref.field_names@,
                t == old(self).tables,
                self.tables == t,
                self.declared == old(self).declared,
                self.loop_labels == old(self).loop_labels,
                dv == decl_view(old(self).declared@),
                self.tmp_label_count == old(self).tmp_label_count,
                start == lines(old(code)@),
                t.struct_addr_gen(dv, scope@, *struct_ref) == (match whole {
                    Ok(lf) => Ok::<Seq<Seq<char>>, CompileError>(
                        head.subrange(start.len() as int, head.len() as int) + lf + data(
                            DataOp::MOV,
                            Register::R1,
                            reg(Register::R2),
                        ),
                    ),
                    Err(e) => Err(e),
                }),
                head.len() >= start.len(),
                head.subrange(0, start.len() as int) == start,
                lines(code@) == head + emitted,
                match t.fields_gen(cur@, fields, k as nat) {
                    Ok(rest) => whole == Ok::<Seq<Seq<char>>, CompileError>(emitted + rest),
                    Err(e) => whole == Err::<Seq<Seq<char>>, CompileError>(e),
                },
            decreases fields.len() - k,
        {
            let sti = match struct_index(&self.tables.structs, &cur) {
                Some(i) => i,
                None => return Err(CompileError::UnknownStruct),
            };
            let fi = match field_index(&self.tables.structs[sti].items, &struct_ref.field_names[k]) {
                Some(i) => i,
                None => return Err(CompileError::UnknownField),
            };
            let off = self.tables.structs[sti].items[fi].offset;
            if off > 0x7fff_ffff {
                return Err(CompileError::TooLarge);
            }
            emit(code, Instruction::BinArith { op: BinArithOp::ADD, dst: Register::R2, arg1: Register::R2, arg2: RegOrImm::Val(off as i32) });
            let ghost line = bin(BinArithOp::ADD, Register::R2, Register::R2, imm(off as i32));
            let ghost old_cur = cur@;
            if k + 1 < struct_ref.field_names.len() {
                let next = match &self.tables.structs[sti].items[fi].shape {
                    Shape::Struct(n) => n.clone(),
                    _ => return Err(CompileError::NotAStruct),
                };
                cur = next;
            }
            proof {
                assert(lines(code@) =~= head + (emitted + line));
                match t.fields_gen(cur@, fields, (k + 1) as nat) {
                    Ok(rest) => {
                        assert(emitted + (line + rest) =~= (emitted + line) + rest);
                    },
                    Err(_) => {},
                }
                if k + 1 >= fields.len() {
                    assert(t.fields_gen(cur@, fields, (k + 1) as nat) == Ok::<Seq<Seq<char>>, CompileError>(Seq::empty()));
                    assert(emitted + line =~= emitted + line + Seq::<Seq<char>>::empty());
                }
                emitted = emitted + line;
            }
            k += 1;
        }
        emit(code, Instruction::Data { op: DataOp::MOV, dst: Register::R1, src: RegOrImm::Reg(Register::R2) });
        proof {
            assert(emitted + Seq::<Seq<char>>::empty() =~= emitted);
            assert(head =~= start + head.subrange(start.len() as int, head.len() as int));
            assert(lines(code@) =~= start + t.struct_addr_gen(dv, scope@, *struct_ref).unwrap());
        }
        Ok(())
    }
}

/// The emission state of a compiler.
pub open spec fn state_of(c: Compiler) -> EmitState {
    EmitState {
        d: decl_view(c.declared@),
        loops: loops_view(c.loop_labels@),
        n: c.tmp_label_count as nat,
    }
}

proof fn lemma_cgen_err(t: &Tables, st: EmitState, scope: Seq<char>, items: Seq<Statement>, k: int, m: int)
    requires
        0 <= k <= m <= items.len(),
        t.cgen(st, scope, items.subrange(0, k)).is_err(),
    ensures
        t.cgen(st, scope, items.subrange(0, m)) == t.cgen(st, scope, items.subrange(0, k)),
    decreases m - k,
{
    if m > k {
        lemma_cgen_err(t, st, scope, items, k, m - 1);
        assert(items.subrange(0, m).drop_last() =~= items.subrange(0, m - 1));
    }
}

proof fn lemma_init_gen_err(t: &Tables, d: Declared, scope: Seq<char>, exprs: Seq<Expression>, item: i32, n: nat, k: int, m: int)
    requires
        0 <= k <= m <= exprs.len(),
        t.init_gen(d, scope, exprs.subrange(0, k), item, n).is_err(),
    ensures
        t.init_gen(d, scope, exprs.subrange(0, m), item, n) == t.init_gen(d, scope, exprs.subrange(0, k), item, n),
    decreases m - k,
{
    if m > k {
        lemma_init_gen_err(t, d, scope, exprs, item, n, k, m - 1);
        assert(exprs.subrange(0, m).drop_last() =~= exprs.subrange(0, m - 1));
    }
}

fn chars_to_string(v: &Vec<char>) -> (r: String)
    ensures
        r@ == v@,
{
    string_from_chars(v)
}

fn string_chars(s: &String) -> (r: Vec<char>)
    ensures
        r@ == s@,
{
    str_chars(s.as_str())
}

impl Compiler {
    fn declare(&mut self, scope: &String, name: &String)
        ensures
            final(self).tables == old(self).tables,
            final(self).loop_labels == old(self).loop_labels,
            final(self).tmp_label_count == old(self).tmp_label_count,
            decl_view(final(self).declared@) == decl_view(old(self).declared@).push((scope@, name@)),
    {
        self.declared.push((scope.clone(), name.clone()));
        proof {
            assert(decl_view(self.declared@) =~= decl_view(old(self).declared@).push((scope@, name@)));
        }
    }

    fn enter_loop(&mut self, scope: &String, brk: &Vec<char>, cont: &Vec<char>)
        ensures
            final(self).tables == old(self).tables,
            final(self).declared == old(self).declared,
            final(self).tmp_label_count == old(self).tmp_label_count,
            loops_view(final(self).loop_labels@) == loops_view(old(self).loop_labels@).push(
                (scope@, brk@, cont@),
            ),
    {
        let b = chars_to_string(brk);
        let c = chars_to_string(cont);
        self.loop_labels.push((scope.clone(), b, c));
        proof {
            assert(loops_view(self.loop_labels@) =~= loops_view(old(self).loop_labels@).push(
                (scope@, brk@, cont@),
            ));
        }
    }

    /// Emits the statements of a block, in order.
    #[verifier::rlimit(100)]
    pub fn gen_compound(&mut self, items: &Vec<Statement>, scope: &String, code: &mut Vec<String>) -> (r: Result<(), CompileError>)
        ensures
            final(self).tables == old(self).tables,
            match old(self).tables.cgen(state_of(*old(self)), scope@, items@) {
                Ok((l, st)) => r.is_ok() && lines(final(code)@) == lines(old(code)@) + l
                    && state_of(*final(self)) == st,
                Err(e) => r == Err::<(), CompileError>(e),
            },
        decreases items,
    {
        let ghost start = lines(code@);
        let ghost st0 = state_of(*self);
        let ghost t = self.tables;
        let ghost mut emitted: Seq<Seq<char>> = Seq::empty();
        let mut k: usize = 0;
        proof {
            assert(items@.subrange(0, 0) =~= Seq::<Statement>::empty());
            assert(start + emitted =~= start);
        }
        while k < items.len()
            invariant
                0 <= k <= items@.len(),
                t == old(self).tables,
                self.tables == t,
                st0 == state_of(*old(self)),
                start == lines(old(code)@),
                lines(code@) == start + emitted,
                t.cgen(st0, scope@, items@.subrange(0, k as int)) == Ok::<(Seq<Seq<char>>, EmitState), CompileError>(
                    (emitted, state_of(*self)),
                ),
            decreases items@.len() - k,
        {
            let ghost r1 = t.sgen(state_of(*self), scope@, items@[k as int]);
            proof {
                assert(items@.subrange(0, k + 1).drop_last() =~= items@.subrange(0, k as int));
                assert(items@.subrange(0, k + 1).last() == items@[k as int]);
            }
            let res = self.code_gen_statement(&items[k], scope, code);
            if let Err(e) = res {
                proof {
                    lemma_cgen_err(&t, st0, scope@, items@, k + 1, items@.len() as int);
                    assert(items@.subrange(0, items@.len() as int) =~= items@);
                }
                return Err(e);
            }
            proof {
                let l2 = r1.unwrap().0;
                assert(lines(code@) =~= start + (emitted + l2));
                emitted = emitted + l2;
            }
            k += 1;
        }
        proof {
            assert(items@.subrange(0, items@.len() as int) =~= items@);
        }
        Ok(())
    }

    /// Emits one statement.
    pub fn code_gen_statement(&mut self, stmt: &Statement, scope: &String, code: &mut Vec<String>) -> (r: Result<(), CompileError>)
        ensures
            final(self).tables == old(self).tables,
            match old(self).tables.sgen(state_of(*old(self)), scope@, *stmt) {
                Ok((l, st)) => r.is_ok() && lines(final(code)@) == lines(old(code)@) + l
                    && state_of(*final(self)) == st,
                Err(e) => r == Err::<(), CompileError>(e),
            },
        decreases stmt,
    {
        match stmt {
            Statement::Return(ret) => self.gen_return(ret, scope, code),
            Statement::Decl(Decl::VarDecl(v)) => self.gen_var_decl(v, scope, code),
            Statement::Decl(Decl::ArrayDecl(a)) => self.gen_array_decl(a, scope, code),
            Statement::Assignment(a) => self.gen_assignment_code(a, scope, code),
            Statement::Expression(e) => self.right_gen(e, scope, code),
            Statement::If(i) => self.gen_if(i, scope, code),
            Statement::Compound(c) => self.gen_compound(&c.items, &c.code_loc, code),
            Statement::WhileLoop(w) => self.gen_while(w, scope, code),
            Statement::DoWhileLoop(w) => self.gen_do_while(w, scope, code),
            Statement::ForLoop(f) => self.gen_for(f, scope, code),
            Statement::Break => self.gen_loop_exit(true, scope, code),
            Statement::Continue => self.gen_loop_exit(false, scope, code),
        }
    }

    fn gen_return(&mut self, ret: &Return, scope: &String, code: &mut Vec<String>) -> (r: Result<(), CompileError>)
        ensures
            final(self).tables == old(self).tables,
            match old(self).tables.sgen(state_of(*old(self)), scope@, Statement::Return(*ret)) {
                Ok((l, st)) => r.is_ok() && lines(final(code)@) == lines(old(code)@) + l
                    && state_of(*final(self)) == st,
                Err(e) => r == Err::<(), CompileError>(e),
            },
        decreases ret,
    {
        let ghost start = lines(code@);
        let si = match scope_index(&self.tables.scopes, scope) {
            Some(i) => i,
            None => return Err(CompileError::UnknownScope),
        };
        let func = string_chars(&self.tables.scopes[si].parent_func);
        self.right_gen(&ret.expr, scope, code)?;
        emit(code, Instruction::BinArith { op: BinArithOp::ADD, dst: Register::R2, arg1: Register::BP, arg2: RegOrImm::Val(2) });
        emit(code, Instruction::Data { op: DataOp::STR, dst: Register::R2, src: RegOrImm::Reg(Register::R1) });
        let mut end: Vec<char> = Vec::new();
        end.push('_');
        push_all(&func, &mut end);
        end.push('_');
        end.push('E');
        end.push('N');
        end.push('D');
        proof {
            assert(end@ =~= end_label(func@));
        }
        emit_branch(code, FlowOp::JUMP, &end);
        proof {
            assert(lines(code@) =~= start + old(self).tables.sgen(state_of(*old(self)), scope@, Statement::Return(*ret)).unwrap().0);
        }
        Ok(())
    }

    fn gen_var_decl(&mut self, v: &VarDecl, scope: &String, code: &mut Vec<String>) -> (r: Result<(), CompileError>)
        ensures
            final(self).tables == old(self).tables,
            match old(self).tables.sgen(state_of(*old(self)), scope@, Statement::Decl(Decl::VarDecl(*v))) {
                Ok((l, st)) => r.is_ok() && lines(final(code)@) == lines(old(code)@) + l
                    && state_of(*final(self)) == st,
                Err(e) => r == Err::<(), CompileError>(e),
            },
        decreases v,
    {
        let ghost start = lines(code@);
        self.declare(scope, &v.name);
        if let Some(e) = &v.init {
            self.codegen_load_addr_of_var(&v.name, scope, code)?;
            emit(code, Instruction::Stack { op: StackOp::PUSH, dst: Register::R1 });
            self.right_gen(e, scope, code)?;
            emit(code, Instruction::Stack { op: StackOp::POP, dst: Register::R2 });
            emit(code, Instruction::Data { op: DataOp::STR, dst: Register::R2, src: RegOrImm::Reg(Register::R1) });
            proof {
                assert(lines(code@) =~= start + old(self).tables.sgen(state_of(*old(self)), scope@, Statement::Decl(Decl::VarDecl(*v))).unwrap().0);
            }
        } else {
            proof {
                assert(lines(code@) =~= start + Seq::<Seq<char>>::empty());
            }
        }
        Ok(())
    }

    #[verifier::rlimit(100)]
    fn gen_array_decl(&mut self, a: &ArrayDecl, scope: &String, code: &mut Vec<String>) -> (r: Result<(), CompileError>)
        ensures
            final(self).tables == old(self).tables,
            match old(self).tables.sgen(state_of(*old(self)), scope@, Statement::Decl(Decl::ArrayDecl(*a))) {
                Ok((l, st)) => r.is_ok() && lines(final(code)@) == lines(old(code)@) + l
                    && state_of(*final(self)) == st,
                Err(e) => r == Err::<(), CompileError>(e),
            },
        decreases a,
    {
        let ghost start = lines(code@);
        self.declare(scope, &a.name);
        let exprs = match &a.init {
            None => {
                proof {
                    assert(lines(code@) =~= start + Seq::<Seq<char>>::empty());
                }
                return Ok(());
            },
            Some(exprs) => exprs,
        };
        let (si, vi) = match self.tables.find_variable(&self.declared, &a.name, scope) {
            Some(p) => p,
            None => return Err(CompileError::UnknownVariable),
        };
        let item_size = match &self.tables.scopes[si].variables[vi].shape {
            Shape::Array { item_size, dims: _ } => *item_size,
            _ => return Err(CompileError::NotAnArray),
        };
        if item_size > 0x7fff_ffff {
            return Err(CompileError::TooLarge);
        }
        let item = item_size as i32;
        self.codegen_load_addr_of_var(&a.name, scope, code)?;
        emit(code, Instruction::Data { op: DataOp::MOV, dst: Register::R2, src: RegOrImm::Reg(Register::R1) });
        let ghost head = lines(code@);
        let ghost t = self.tables;
        let ghost dv = decl_view(self.declared@);
        let ghost n0 = self.tmp_label_count as nat;
        let ghost mut emitted: Seq<Seq<char>> = Seq::empty();
        let mut k: usize = 0;
        proof {
            assert(exprs@.subrange(0, 0) =~= Seq::<Expression>::empty());
            assert(head + emitted =~= head);
        }
        while k < exprs.len()
            invariant
                0 <= k <= exprs@.len(),
                t == old(self).tables,
                self.tables == t,
                dv == decl_view(self.declared@),
                lines(code@) == head + emitted,
                t.init_gen(dv, scope@, exprs@.subrange(0, k as int), item, n0) == Ok::<(Seq<Seq<char>>, nat), CompileError>(
                    (emitted, self.tmp_label_count as nat),
                ),
                decl_view(self.declared@) == decl_view(old(self).declared@).push((scope@, a.name@)),
                self.loop_labels == old(self).loop_labels,
                n0 == old(self).tmp_label_count as nat,
                start == lines(old(code)@),
                head == start + t.addr_gen(dv, scope@, a.name@).unwrap() + data(DataOp::MOV, Register::R2, reg(Register::R1)),
                t.addr_gen(dv, scope@, a.name@).is_ok(),
                t.var_of(dv, scope@, a.name@) == Some(t.scopes@[si as int].variables@[vi as int]),
                (match t.scopes@[si as int].variables@[vi as int].shape {
                    Shape::Array { item_size: is, dims: _ } => is == item_size,
                    _ => false,
                }),
                exprs == a.init.unwrap(),
                a.init.is_some(),
                item_size <= 0x7fff_ffff,
                item == item_size as i32,
                si < t.scopes@.len(),
                vi < t.scopes@[si as int].variables@.len(),
                state_of(*old(self)).d.push((scope@, a.name@)) == dv,
                state_of(*old(self)).loops == loops_view(self.loop_labels@),
            decreases exprs@.len() - k,
        {
            let ghost r1 = t.rgen(dv, scope@, exprs@[k as int], self.tmp_label_count as nat);
            proof {
                assert(exprs@.subrange(0, k + 1).drop_last() =~= exprs@.subrange(0, k as int));
                assert(exprs@.subrange(0, k + 1).last() == exprs@[k as int]);
            }
            emit(code, Instruction::Stack { op: StackOp::PUSH, dst: Register::R2 });
            let res = self.right_gen(&exprs[k], scope, code);
            if let Err(e) = res {
                proof {
                    lemma_init_gen_err(&t, dv, scope@, exprs@, item, n0, k + 1, exprs@.len() as int);
                    assert(exprs@.subrange(0, exprs@.len() as int) =~= exprs@);
                }
                return Err(e);
            }
            emit(code, Instruction::Stack { op: StackOp::POP, dst: Register::R2 });
            emit(code, Instruction::Data { op: DataOp::STR, dst: Register::R2, src: RegOrImm::Reg(Register::R1) });
            emit(code, Instruction::BinArith { op: BinArithOp::ADD, dst: Register::R2, arg1: Register::R2, arg2: RegOrImm::Val(item) });
            proof {
                let le = r1.unwrap().0;
                let part = stack(StackOp::PUSH, Register::R2) + le + stack(StackOp::POP, Register::R2)
                    + data(DataOp::STR, Register::R2, reg(Register::R1)) + bin(BinArithOp::ADD, Register::R2, Register::R2, imm(item));
                assert(lines(code@) =~= head + (emitted + part));
                assert(emitted + stack(StackOp::PUSH, Register::R2) + le + stack(StackOp::POP, Register::R2)
                    + data(DataOp::STR, Register::R2, reg(Register::R1)) + bin(BinArithOp::ADD, Register::R2, Register::R2, imm(item)) =~= emitted + part);
                emitted = emitted + part;
            }
            k += 1;
        }
        proof {
            assert(exprs@.subrange(0, exprs@.len() as int) =~= exprs@);
            let la = t.addr_gen(dv, scope@, a.name@).unwrap();
            let mov = data(DataOp::MOV, Register::R2, reg(Register::R1));
            assert(lines(code@) =~= start + (la + mov + emitted));
        }
        Ok(())
    }

    #[verifier::rlimit(100)]
    fn gen_if(&mut self, i: &If, scope: &String, code: &mut Vec<String>) -> (r: Result<(), CompileError>)
        ensures
            final(self).tables == old(self).tables,
            match old(self).tables.sgen(state_of(*old(self)), scope@, Statement::If(*i)) {
                Ok((l, st)) => r.is_ok() && lines(final(code)@) == lines(old(code)@) + l
                    && state_of(*final(self)) == st,
                Err(e) => r == Err::<(), CompileError>(e),
            },
        decreases i,
    {
        let ghost start = lines(code@);
        let n = self.tmp_label_count;
        if n == u64::MAX {
            return Err(CompileError::TooLarge);
        }
        let else_l = make_label(&['I', 'F', '_'], n, &['_', 'E', 'L', 'S', 'E']);
        let end_l = make_label(&['I', 'F', '_'], n, &['_', 'E', 'N', 'D']);
        self.tmp_label_count = n + 1;
        self.right_gen(&i.cond, scope, code)?;
        emit(code, Instruction::Test { op: TestOp::TSTN, arg1: Register::R1, arg2: RegOrImm::Val(0) });
        emit_branch(code, FlowOp::FJMP, &else_l);
        self.gen_compound(&i.iftrue.items, &i.iftrue.code_loc, code)?;
        emit_branch(code, FlowOp::JUMP, &end_l);
        emit_label(code, &else_l);
        if let Some(f) = &i.iffalse {
            self.gen_compound(&f.items, &f.code_loc, code)?;
        }
        emit_label(code, &end_l);
        proof {
            assert(lines(code@) =~= start + old(self).tables.sgen(state_of(*old(self)), scope@, Statement::If(*i)).unwrap().0);
        }
        Ok(())
    }

    #[verifier::rlimit(100)]
    fn gen_while(&mut self, w: &WhileLoop, scope: &String, code: &mut Vec<String>) -> (r: Result<(), CompileError>)
        ensures
            final(self).tables == old(self).tables,
            match old(self).tables.sgen(state_of(*old(self)), scope@, Statement::WhileLoop(*w)) {
                Ok((l, st)) => r.is_ok() && lines(final(code)@) == lines(old(code)@) + l
                    && state_of(*final(self)) == st,
                Err(e) => r == Err::<(), CompileError>(e),
            },
        decreases w,
    {
        let ghost start = lines(code@);
        let n = self.tmp_label_count;
        if n == u64::MAX {
            return Err(CompileError::TooLarge);
        }
        let start_l = make_label(&['W', 'H', 'I', 'L', 'E', '_'], n, &['_', 'S', 'T', 'A', 'R', 'T']);
        let end_l = make_label(&['W', 'H', 'I', 'L', 'E', '_'], n, &['_', 'E', 'N', 'D']);
        self.tmp_label_count = n + 1;
        self.enter_loop(&w.code_loc, &end_l, &start_l);
        emit_label(code, &start_l);
        self.right_gen(&w.cond, scope, code)?;
        emit(code, Instruction::Test { op: TestOp::TSTN, arg1: Register::R1, arg2: RegOrImm::Val(0) });
        emit_branch(code, FlowOp::FJMP, &end_l);
        self.gen_compound(&w.body.items, &w.code_loc, code)?;
        emit_branch(code, FlowOp::JUMP, &start_l);
        emit_label(code, &end_l);
        proof {
            assert(lines(code@) =~= start + old(self).tables.sgen(state_of(*old(self)), scope@, Statement::WhileLoop(*w)).unwrap().0);
        }
        Ok(())
    }

    #[verifier::rlimit(100)]
    fn gen_do_while(&mut self, w: &DoWhileLoop, scope: &String, code: &mut Vec<String>) -> (r: Result<(), CompileError>)
        ensures
            final(self).tables == old(self).tables,
            match old(self).tables.sgen(state_of(*old(self)), scope@, Statement::DoWhileLoop(*w)) {
                Ok((l, st)) => r.is_ok() && lines(final(code)@) == lines(old(code)@) + l
                    && state_of(*final(self)) == st,
                Err(e) => r == Err::<(), CompileError>(e),
            },
        decreases w,
    {
        let ghost start = lines(code@);
        let n = self.tmp_label_count;
        if n == u64::MAX {
            return Err(CompileError::TooLarge);
        }
        let cond_l = make_label(&['D', 'O', 'W', 'H', 'I', 'L', 'E', '_'], n, &['_', 'C', 'O', 'N', 'D']);
        let body_l = make_label(&['D', 'O', 'W', 'H', 'I', 'L', 'E', '_'], n, &['_', 'B', 'O', 'D', 'Y']);
        let end_l = make_label(&['D', 'O', 'W', 'H', 'I', 'L', 'E', '_'], n, &['_', 'E', 'N', 'D']);
        self.tmp_label_count = n + 1;
        self.enter_loop(&w.code_loc, &end_l, &cond_l);
        emit_branch(code, FlowOp::JUMP, &body_l);
        emit_label(code, &cond_l);
        self.right_gen(&w.cond, scope, code)?;
        emit(code, Instruction::Test { op: TestOp::TSTN, arg1: Register::R1, arg2: RegOrImm::Val(0) });
        emit_branch(code, FlowOp::FJMP, &end_l);
        emit_label(code, &body_l);
        self.gen_compound(&w.body.items, &w.code_loc, code)?;
        emit_branch(code, FlowOp::JUMP, &cond_l);
        emit_label(code, &end_l);
        proof {
            assert(lines(code@) =~= start + old(self).tables.sgen(state_of(*old(self)), scope@, Statement::DoWhileLoop(*w)).unwrap().0);
        }
        Ok(())
    }

    #[verifier::rlimit(100)]
    fn gen_for(&mut self, f: &ForLoop, scope: &String, code: &mut Vec<String>) -> (r: Result<(), CompileError>)
        ensures
            final(self).tables == old(self).tables,
            match old(self).tables.sgen(state_of(*old(self)), scope@, Statement::ForLoop(*f)) {
                Ok((l, st)) => r.is_ok() && lines(final(code)@) == lines(old(code)@) + l
                    && state_of(*final(self)) == st,
                Err(e) => r == Err::<(), CompileError>(e),
            },
        decreases f,
    {
        let ghost start = lines(code@);
        let n = self.tmp_label_count;
        if n == u64::MAX {
            return Err(CompileError::TooLarge);
        }
        let cond_l = make_label(&['F', 'O', 'R', '_'], n, &['_', 'C', 'O', 'N', 'D']);
        let end_l = make_label(&['F', 'O', 'R', '_'], n, &['_', 'E', 'N', 'D']);
        let next_l = make_label(&['F', 'O', 'R', '_'], n, &['_', 'N', 'E', 'X', 'T']);
        self.tmp_label_count = n + 1;
        self.enter_loop(&f.code_loc, &end_l, &next_l);
        if let Some(init) = &f.init {
            self.gen_compound(&init.items, &f.code_loc, code)?;
        }
        emit_label(code, &cond_l);
        if let Some(cond) = &f.cond {
            self.right_gen(cond, &f.code_loc, code)?;
            emit(code, Instruction::Test { op: TestOp::TSTN, arg1: Register::R1, arg2: RegOrImm::Val(0) });
            emit_branch(code, FlowOp::FJMP, &end_l);
        }
        self.gen_compound(&f.body.items, &f.code_loc, code)?;
        emit_label(code, &next_l);
        if let Some(next) = &f.next {
            self.gen_compound(&next.items, &f.code_loc, code)?;
        }
        emit_branch(code, FlowOp::JUMP, &cond_l);
        emit_label(code, &end_l);
        proof {
            assert(lines(code@) =~= start + old(self).tables.sgen(state_of(*old(self)), scope@, Statement::ForLoop(*f)).unwrap().0);
        }
        Ok(())
    }

    /// `break` (when `is_break`) or `continue`: a jump to the nearest
    /// enclosing loop's label.
    #[verifier::rlimit(100)]
    fn gen_loop_exit(&mut self, is_break: bool, scope: &String, code: &mut Vec<String>) -> (r: Result<(), CompileError>)
        ensures
            final(self).tables == old(self).tables,
            match old(self).tables.sgen(state_of(*old(self)), scope@, if is_break { Statement::Break } else { Statement::Continue }) {
                Ok((l, st)) => r.is_ok() && lines(final(code)@) == lines(old(code)@) + l
                    && state_of(*final(self)) == st,
                Err(e) => r == Err::<(), CompileError>(e),
            },
    {
        let ghost start = lines(code@);
        let ghost lv = loops_view(self.loop_labels@);
        let mut cur: &String = scope;
        let mut fuel: usize = self.tables.scopes.len();
        let ghost target = enclosing_loop(self.tables.scopes@, lv, scope@, self.tables.n_scopes());
        while fuel > 0
            invariant
                lv == loops_view(self.loop_labels@),
                target == enclosing_loop(self.tables.scopes@, lv, cur@, fuel as nat),
                self.tables == old(self).tables,
                self.loop_labels == old(self).loop_labels,
                self.declared == old(self).declared,
                self.tmp_label_count == old(self).tmp_label_count,
                code@ == old(code)@,
                target == enclosing_loop(old(self).tables.scopes@, loops_view(old(self).loop_labels@), scope@, old(self).tables.n_scopes()),
            decreases fuel,
        {
            let mut k: usize = self.loop_labels.len();
            let ghost found = loop_of(lv, cur@);
            proof {
                assert(lv.subrange(0, k as int) =~= lv);
            }
            while k > 0
                invariant
                    0 <= k <= lv.len(),
                    lv == loops_view(self.loop_labels@),
                    found == loop_of(lv.subrange(0, k as int), cur@),
                    found == loop_of(lv, cur@),
                    fuel > 0,
                    target == enclosing_loop(self.tables.scopes@, lv, cur@, fuel as nat),
                    self.tables == old(self).tables,
                    self.loop_labels == old(self).loop_labels,
                    self.declared == old(self).declared,
                    self.tmp_label_count == old(self).tmp_label_count,
                    code@ == old(code)@,
                    target == enclosing_loop(old(self).tables.scopes@, loops_view(old(self).loop_labels@), scope@, old(self).tables.n_scopes()),
                decreases k,
            {
                proof {
                    assert(lv.subrange(0, k as int).drop_last() =~= lv.subrange(0, k - 1));
                    assert(lv[k - 1] == (self.loop_labels@[k - 1].0@, self.loop_labels@[k - 1].1@, self.loop_labels@[k - 1].2@));
                }
                if self.loop_labels[k - 1].0 == *cur {
                    let label = if is_break { &self.loop_labels[k - 1].1 } else { &self.loop_labels[k - 1].2 };
                    let chars = string_chars(label);
                    proof {
                        assert(found == Some((lv[k - 1].1, lv[k - 1].2)));
                        assert(target == found);
                    }
                    emit_branch(code, FlowOp::JUMP, &chars);
                    return Ok(());
                }
                k -= 1;
            }
            if is_global(cur) {
                return Err(CompileError::BreakOutsideLoop);
            }
            let si = match scope_index(&self.tables.scopes, cur) {
                Some(i) => i,
                None => return Err(CompileError::BreakOutsideLoop),
            };
            cur = &self.tables.scopes[si].parent_scope;
            fuel -= 1;
        }
        Err(CompileError::BreakOutsideLoop)
    }
}

// ---------------------------------------------------------------- registration

pub open spec fn decl_name(d: Decl) -> Seq<char> {
    match d {
        Decl::VarDecl(v) => v.name@,
        Decl::ArrayDecl(a) => a.name@,
    }
}

/// A variable as registered: name, kind, offset of its last word, size.
pub type VarView = (Seq<char>, LocalOrArg, nat, nat);

/// A scope as registered: name, parent scope, function, variables.
pub type ScopeView = (Seq<char>, Seq<char>, Seq<char>, Seq<VarView>);

/// A struct field: name, offset, size.
pub type FieldView = (Seq<char>, nat, nat);

/// A struct: name, size, fields in order.
pub type StructView = (Seq<char>, nat, Seq<FieldView>);

/// A function: name, size of its return value, size of its locals once its
/// body is registered.
pub type FuncView = (Seq<char>, nat, Option<nat>);

pub open spec fn var_view(v: VariableData) -> VarView {
    (v.name@, v.local_or_arg, v.offset as nat, v.size as nat)
}

pub open spec fn var_views(vs: Seq<VariableData>) -> Seq<VarView> {
    vs.map_values(|v: VariableData| var_view(v))
}

pub open spec fn scope_view(s: ScopeData) -> ScopeView {
    (s.name@, s.parent_scope@, s.parent_func@, var_views(s.variables@))
}

pub open spec fn scope_views(ss: Seq<ScopeData>) -> Seq<ScopeView> {
    ss.map_values(|s: ScopeData| scope_view(s))
}

pub open spec fn field_views(fs: Seq<FieldData>) -> Seq<FieldView> {
    fs.map_values(|f: FieldData| (f.name@, f.offset as nat, f.size as nat))
}

pub open spec fn struct_view(s: StructData) -> StructView {
    (s.name@, s.size as nat, field_views(s.items@))
}

pub open spec fn struct_views(ss: Seq<StructData>) -> Seq<StructView> {
    ss.map_values(|s: StructData| struct_view(s))
}

pub open spec fn func_view(f: FuncData) -> FuncView {
    (
        f.name@,
        f.ret_size as nat,
        match f.local_vars_size {
            Some(n) => Some(n as nat),
            None => None,
        },
    )
}

pub open spec fn func_views(fs: Seq<FuncData>) -> Seq<FuncView> {
    fs.map_values(|f: FuncData| func_view(f))
}

/// The tables as values.
pub struct TablesView {
    pub scopes: Seq<ScopeView>,
    pub funcs: Seq<FuncView>,
    pub structs: Seq<StructView>,
}

pub open spec fn tables_view(t: Tables) -> TablesView {
    TablesView {
        scopes: scope_views(t.scopes@),
        funcs: func_views(t.funcs@),
        structs: struct_views(t.structs@),
    }
}

pub open spec fn find_struct_v(sv: Seq<StructView>, name: Seq<char>) -> Option<StructView>
    decreases sv.len(),
{
    if sv.len() == 0 {
        None
    } else if sv.last().0 == name {
        Some(sv.last())
    } else {
        find_struct_v(sv.drop_last(), name)
    }
}

/// The words a value of type `t` occupies.
pub open spec fn type_size_r(sv: Seq<StructView>, t: Type) -> Result<nat, CompileError> {
    match t {
        Type::Int => Ok(1),
        Type::Char => Ok(1),
        Type::Ptr(_) => Ok(1),
        Type::Void => Ok(0),
        Type::_String => Err(CompileError::InvalidType),
        Type::Struct(n) => match find_struct_v(sv, n@) {
            Some(st) => Ok(st.1),
            None => Err(CompileError::UnknownStruct),
        },
    }
}

/// The words a declaration occupies: an array takes the product of its
/// dimensions times its item size, which must fit in 32 bits.
pub open spec fn decl_size_r(sv: Seq<StructView>, d: Decl) -> Result<nat, CompileError> {
    match d {
        Decl::VarDecl(v) => type_size_r(sv, v._type),
        Decl::ArrayDecl(a) => match type_size_r(sv, a._type) {
            Err(e) => Err(e),
            Ok(sz) => if prod(a.dimentions@) * sz <= u32::MAX {
                Ok((prod(a.dimentions@) * sz) as nat)
            } else {
                Err(CompileError::TooLarge)
            },
        },
    }
}

/// A variable placed from offset `off`: its offset is its last word,
/// `off + size - 1`, and the next one starts at `off + size`.
pub open spec fn var_entry(sv: Seq<StructView>, d: Decl, kind: LocalOrArg, off: nat) -> Result<
    (VarView, nat),
    CompileError,
> {
    match decl_size_r(sv, d) {
        Err(e) => Err(e),
        Ok(n) => if n == 0 {
            Err(CompileError::InvalidType)
        } else if off + n > u32::MAX {
            Err(CompileError::TooLarge)
        } else {
            Ok(((decl_name(d), kind, (off + n - 1) as nat, n), off + n))
        },
    }
}

/// The declarations among `items`, placed one after another from `off`.
pub open spec fn reg_decls(sv: Seq<StructView>, items: Seq<Statement>, off: nat) -> Result<
    (Seq<VarView>, nat),
    CompileError,
>
    decreases items.len(),
{
    if items.len() == 0 {
        Ok((Seq::empty(), off))
    } else {
        match reg_decls(sv, items.drop_last(), off) {
            Err(e) => Err(e),
            Ok((vs, o)) => match items.last() {
                Statement::Decl(d) => match var_entry(sv, d, LocalOrArg::Local, o) {
                    Err(e) => Err(e),
                    Ok((v, o2)) => Ok((vs.push(v), o2)),
                },
                _ => Ok((vs, o)),
            },
        }
    }
}

/// Arguments placed one after another from `off`.
pub open spec fn reg_args(sv: Seq<StructView>, args: Seq<Decl>, off: nat) -> Result<(Seq<VarView>, nat), CompileError>
    decreases args.len(),
{
    if args.len() == 0 {
        Ok((Seq::empty(), off))
    } else {
        match reg_args(sv, args.drop_last(), off) {
            Err(e) => Err(e),
            Ok((vs, o)) => match var_entry(sv, args.last(), LocalOrArg::Arg, o) {
                Err(e) => Err(e),
                Ok((v, o2)) => Ok((vs.push(v), o2)),
            },
        }
    }
}

/// A block's registration completed: the scopes nested in it, then the
/// block's own scope, holding `initial` and then its own variables.
pub open spec fn wrap_scope(
    res: Result<(Seq<ScopeView>, Seq<VarView>, nat), CompileError>,
    name: Seq<char>,
    parent: Seq<char>,
    func: Seq<char>,
    initial: Seq<VarView>,
) -> Result<(Seq<ScopeView>, Seq<VarView>, nat), CompileError> {
    match res {
        Err(e) => Err(e),
        Ok((ns, vs, o)) => Ok((ns.push((name, parent, func, initial + vs)), Seq::empty(), o)),
    }
}

/// Registering one statement of scope `scope` from offset `off`: the
/// scopes of its nested blocks, its own variables, and the next offset.
pub open spec fn reg_stmt(sv: Seq<StructView>, scope: Seq<char>, func: Seq<char>, s: Statement, off: nat) -> Result<
    (Seq<ScopeView>, Seq<VarView>, nat),
    CompileError,
>
    decreases s,
{
    match s {
        Statement::Decl(d) => match var_entry(sv, d, LocalOrArg::Local, off) {
            Err(e) => Err(e),
            Ok((v, o)) => Ok((Seq::empty(), seq![v], o)),
        },
        Statement::Compound(c) => wrap_scope(
            reg_items(sv, c.code_loc@, func, c.items@, off),
            c.code_loc@,
            scope,
            func,
            Seq::empty(),
        ),
        Statement::If(i) => match wrap_scope(
            reg_items(sv, i.iftrue.code_loc@, func, i.iftrue.items@, off),
            i.iftrue.code_loc@,
            scope,
            func,
            Seq::empty(),
        ) {
            Err(e) => Err(e),
            Ok((ns1, _, o1)) => match i.iffalse {
                None => Ok((ns1, Seq::empty(), o1)),
                Some(f) => match wrap_scope(
                    reg_items(sv, f.code_loc@, func, f.items@, o1),
                    f.code_loc@,
                    scope,
                    func,
                    Seq::empty(),
                ) {
                    Err(e) => Err(e),
                    Ok((ns2, _, o2)) => Ok((ns1 + ns2, Seq::empty(), o2)),
                },
            },
        },
        Statement::WhileLoop(w) => wrap_scope(
            reg_items(sv, w.code_loc@, func, w.body.items@, off),
            w.code_loc@,
            scope,
            func,
            Seq::empty(),
        ),
        Statement::DoWhileLoop(w) => wrap_scope(
            reg_items(sv, w.code_loc@, func, w.body.items@, off),
            w.code_loc@,
            scope,
            func,
            Seq::empty(),
        ),
        Statement::ForLoop(f) => {
            let init = match f.init {
                Some(c) => reg_decls(sv, c.items@, off),
                None => Ok((Seq::empty(), off)),
            };
            match init {
                Err(e) => Err(e),
                Ok((ivs, o1)) => wrap_scope(
                    reg_items(sv, f.code_loc@, func, f.body.items@, o1),
                    f.code_loc@,
                    scope,
                    func,
                    ivs,
                ),
            }
        },
        _ => Ok((Seq::empty(), Seq::empty(), off)),
    }
}

/// Registering the statements of scope `scope` from offset `off`.
pub open spec fn reg_items(sv: Seq<StructView>, scope: Seq<char>, func: Seq<char>, items: Seq<Statement>, off: nat) -> Result<
    (Seq<ScopeView>, Seq<VarView>, nat),
    CompileError,
>
    decreases items,
{
    if items.len() == 0 {
        Ok((Seq::empty(), Seq::empty(), off))
    } else {
        match reg_items(sv, scope, func, items.drop_last(), off) {
            Err(e) => Err(e),
            Ok((ns, vs, o)) => match reg_stmt(sv, scope, func, items.last(), o) {
                Err(e) => Err(e),
                Ok((ns2, vs2, o2)) => Ok((ns + ns2, vs + vs2, o2)),
            },
        }
    }
}

/// Struct fields placed one after another from 0: the fields and the size.
pub open spec fn fields_r(sv: Seq<StructView>, items: Seq<(String, Decl)>) -> Result<(Seq<FieldView>, nat), CompileError>
    decreases items.len(),
{
    if items.len() == 0 {
        Ok((Seq::empty(), 0))
    } else {
        match fields_r(sv, items.drop_last()) {
            Err(e) => Err(e),
            Ok((fs, o)) => match decl_size_r(sv, items.last().1) {
                Err(e) => Err(e),
                Ok(n) => if o + n > u32::MAX {
                    Err(CompileError::TooLarge)
                } else {
                    Ok((fs.push((items.last().0@, o, n)), o + n))
                },
            },
        }
    }
}

pub open spec fn struct_reg(tv: TablesView, sd: StructDecl) -> Result<TablesView, CompileError> {
    match fields_r(tv.structs, sd.items@) {
        Err(e) => Err(e),
        Ok((fs, size)) => Ok(TablesView { structs: tv.structs.push((sd.name@, size, fs)), ..tv }),
    }
}

pub open spec fn func_decl_reg(tv: TablesView, fd: FuncDecl) -> Result<TablesView, CompileError> {
    match type_size_r(tv.structs, fd.ret_type) {
        Err(e) => Err(e),
        Ok(n) => Ok(TablesView { funcs: tv.funcs.push((fd.name@, n, None)), ..tv }),
    }
}

/// A function body: its arguments at offsets 0, 1, 2, ... (each at its
/// last word), its scopes, and its locals' size.
pub open spec fn func_body_reg(tv: TablesView, def: FuncDef) -> Result<TablesView, CompileError> {
    let name = def.decl.name@;
    match reg_args(tv.structs, def.decl.args@, 0) {
        Err(e) => Err(e),
        Ok((avs, _)) => match wrap_scope(
            reg_items(tv.structs, name, name, def.body.items@, 0),
            name,
            global_name(),
            name,
            avs,
        ) {
            Err(e) => Err(e),
            Ok((ns, _, lv)) => match type_size_r(tv.structs, def.decl.ret_type) {
                Err(e) => Err(e),
                Ok(n) => Ok(
                    TablesView {
                        scopes: tv.scopes + ns,
                        funcs: tv.funcs.push((name, n, Some(lv))),
                        structs: tv.structs,
                    },
                ),
            },
        },
    }
}

/// The registration pass over the externals, in order.
pub open spec fn registered(tv: TablesView, exts: Seq<External>) -> Result<TablesView, CompileError>
    decreases exts.len(),
{
    if exts.len() == 0 {
        Ok(tv)
    } else {
        match registered(tv, exts.drop_last()) {
            Err(e) => Err(e),
            Ok(t2) => match exts.last() {
                External::StructDecl(sd) => struct_reg(t2, sd),
                External::FuncDecl(fd) => func_decl_reg(t2, fd),
                External::FuncDef(fd) => match func_decl_reg(t2, fd.decl) {
                    Err(e) => Err(e),
                    Ok(t3) => func_body_reg(t3, fd),
                },
            },
        }
    }
}

proof fn lemma_program_gen_err(t: &Tables, st: EmitState, exts: Seq<External>, k: int, m: int)
    requires
        0 <= k <= m <= exts.len(),
        t.program_gen(st, exts.subrange(0, k)).is_err(),
    ensures
        t.program_gen(st, exts.subrange(0, m)) == t.program_gen(st, exts.subrange(0, k)),
    decreases m - k,
{
    if m > k {
        lemma_program_gen_err(t, st, exts, k, m - 1);
        assert(exts.subrange(0, m).drop_last() =~= exts.subrange(0, m - 1));
    }
}

proof fn lemma_find_struct_view(structs: Seq<StructData>, name: Seq<char>)
    ensures
        find_struct_v(struct_views(structs), name) == match find_struct(structs, name) {
            Some(st) => Some(struct_view(st)),
            None => None,
        },
    decreases structs.len(),
{
    if structs.len() > 0 {
        assert(struct_views(structs).drop_last() =~= struct_views(structs.drop_last()));
        lemma_find_struct_view(structs.drop_last(), name);
    }
}

proof fn lemma_reg_items_err(sv: Seq<StructView>, scope: Seq<char>, func: Seq<char>, items: Seq<Statement>, off: nat, k: int, m: int)
    requires
        0 <= k <= m <= items.len(),
        reg_items(sv, scope, func, items.subrange(0, k), off).is_err(),
    ensures
        reg_items(sv, scope, func, items.subrange(0, m), off) == reg_items(sv, scope, func, items.subrange(0, k), off),
    decreases m - k,
{
    if m > k {
        lemma_reg_items_err(sv, scope, func, items, off, k, m - 1);
        assert(items.subrange(0, m).drop_last() =~= items.subrange(0, m - 1));
    }
}

proof fn lemma_reg_decls_err(sv: Seq<StructView>, items: Seq<Statement>, off: nat, k: int, m: int)
    requires
        0 <= k <= m <= items.len(),
        reg_decls(sv, items.subrange(0, k), off).is_err(),
    ensures
        reg_decls(sv, items.subrange(0, m), off) == reg_decls(sv, items.subrange(0, k), off),
    decreases m - k,
{
    if m > k {
        lemma_reg_decls_err(sv, items, off, k, m - 1);
        assert(items.subrange(0, m).drop_last() =~= items.subrange(0, m - 1));
    }
}

proof fn lemma_reg_args_err(sv: Seq<StructView>, args: Seq<Decl>, off: nat, k: int, m: int)
    requires
        0 <= k <= m <= args.len(),
        reg_args(sv, args.subrange(0, k), off).is_err(),
    ensures
        reg_args(sv, args.subrange(0, m), off) == reg_args(sv, args.subrange(0, k), off),
    decreases m - k,
{
    if m > k {
        lemma_reg_args_err(sv, args, off, k, m - 1);
        assert(args.subrange(0, m).drop_last() =~= args.subrange(0, m - 1));
    }
}

proof fn lemma_fields_err(sv: Seq<StructView>, items: Seq<(String, Decl)>, k: int, m: int)
    requires
        0 <= k <= m <= items.len(),
        fields_r(sv, items.subrange(0, k)).is_err(),
    ensures
        fields_r(sv, items.subrange(0, m)) == fields_r(sv, items.subrange(0, k)),
    decreases m - k,
{
    if m > k {
        lemma_fields_err(sv, items, k, m - 1);
        assert(items.subrange(0, m).drop_last() =~= items.subrange(0, m - 1));
    }
}

proof fn lemma_registered_err(tv: TablesView, exts: Seq<External>, k: int, m: int)
    requires
        0 <= k <= m <= exts.len(),
        registered(tv, exts.subrange(0, k)).is_err(),
    ensures
        registered(tv, exts.subrange(0, m)) == registered(tv, exts.subrange(0, k)),
    decreases m - k,
{
    if m > k {
        lemma_registered_err(tv, exts, k, m - 1);
        assert(exts.subrange(0, m).drop_last() =~= exts.subrange(0, m - 1));
    }
}

// ---------------------------------------------------------------- functions

/// `d` with the arguments of a function declared in its scope.
pub open spec fn args_declared(d: Declared, scope: Seq<char>, args: Seq<Decl>) -> Declared
    decreases args.len(),
{
    if args.len() == 0 {
        d
    } else {
        args_declared(d, scope, args.drop_last()).push((scope, decl_name(args.last())))
    }
}

pub open spec fn main_name() -> Seq<char> {
    seq!['m', 'a', 'i', 'n']
}

impl Tables {
    /// A function: its label, the saved registers, room for locals, the
    /// body, the end label, and the epilogue that undoes the prologue.
    pub open spec fn func_gen(&self, st: EmitState, f: FuncDef) -> Result<(Seq<Seq<char>>, EmitState), CompileError> {
        let name = f.decl.name@;
        match find_func(self.funcs@, name) {
            None => Err(CompileError::UnknownFunction),
            Some(fd) => match fd.local_vars_size {
                None => Err(CompileError::UnknownFunction),
                Some(lv) => {
                    let st1 = EmitState { d: args_declared(st.d, name, f.decl.args@), ..st };
                    match self.cgen(st1, name, f.body.items@) {
                        Err(e) => Err(e),
                        Ok((lb, st2)) => Ok(
                            (
                                label_line(name) + stack(StackOp::PUSH, Register::R1) + stack(
                                    StackOp::PUSH,
                                    Register::R2,
                                ) + repeat(stack(StackOp::PUSH, Register::ZR), lv as nat) + lb
                                    + label_line(end_label(name)) + repeat(
                                    stack(StackOp::POP, Register::ZR),
                                    lv as nat,
                                ) + stack(StackOp::POP, Register::R2) + stack(StackOp::POP, Register::R1)
                                    + ins(Instruction::Other { op: OtherOp::RET }),
                                st2,
                            ),
                        ),
                    }
                },
            },
        }
    }

    /// A program: `JUMP main`, then every defined function in declaration order.
    pub open spec fn program_gen(&self, st: EmitState, exts: Seq<External>) -> Result<
        (Seq<Seq<char>>, EmitState),
        CompileError,
    >
        decreases exts.len(),
    {
        if exts.len() == 0 {
            Ok((branch(FlowOp::JUMP, main_name()), st))
        } else {
            match self.program_gen(st, exts.drop_last()) {
                Err(e) => Err(e),
                Ok((l, st2)) => match exts.last() {
                    External::FuncDef(f) => match self.func_gen(st2, f) {
                        Err(e) => Err(e),
                        Ok((lf, st3)) => Ok((l + lf, st3)),
                    },
                    _ => Ok((l, st2)),
                },
            }
        }
    }
}

/// The operator that a source operator token names.
pub open spec fn binop_of(s: Seq<char>) -> Option<BinaryopType> {
    if s.len() == 1 && s[0] == '+' {
        Some(BinaryopType::ADD)
    }     else if s.len() == 1 && s[0] == '-' {
        Some(BinaryopType::SUB)
    }     else if s.len() == 1 && s[0] == '*' {
        Some(BinaryopType::MUL)
    }     else if s.len() == 1 && s[0] == '/' {
        Some(BinaryopType::DIV)
    }     else if s.len() == 1 && s[0] == '%' {
        Some(BinaryopType::MOD)
    }     else if s.len() == 1 && s[0] == '&' {
        Some(BinaryopType::AND)
    }     else if s.len() == 1 && s[0] == '|' {
        Some(BinaryopType::OR)
    }     else if s.len() == 2 && s[0] == '<' && s[1] == '<' {
        Some(BinaryopType::SHL)
    }     else if s.len() == 2 && s[0] == '>' && s[1] == '>' {
        Some(BinaryopType::SHR)
    }     else if s.len() == 1 && s[0] == '^' {
        Some(BinaryopType::XOR)
    }     else if s.len() == 2 && s[0] == '=' && s[1] == '=' {
        Some(BinaryopType::EQ)
    }     else if s.len() == 2 && s[0] == '!' && s[1] == '=' {
        Some(BinaryopType::NEQ)
    }     else if s.len() == 2 && s[0] == '&' && s[1] == '&' {
        Some(BinaryopType::LogicalAnd)
    }     else if s.len() == 2 && s[0] == '|' && s[1] == '|' {
        Some(BinaryopType::LogicalOr)
    }     else if s.len() == 1 && s[0] == '<' {
        Some(BinaryopType::LT)
    }     else if s.len() == 2 && s[0] == '<' && s[1] == '=' {
        Some(BinaryopType::LTEQ)
    }     else if s.len() == 1 && s[0] == '>' {
        Some(BinaryopType::GT)
    }     else if s.len() == 2 && s[0] == '>' && s[1] == '=' {
        Some(BinaryopType::GTEQ)
    } else {
        None
    }
}

/// Reads a binary operator token (`+` ... `>=`).
pub fn binop_from_str(s: &str) -> (r: Option<BinaryopType>)
    ensures
        r == binop_of(s@),
{
    let t = str_chars(s);
    if t.len() == 1 && t[0] == '+' {
        Some(BinaryopType::ADD)
    }     else if t.len() == 1 && t[0] == '-' {
        Some(BinaryopType::SUB)
    }     else if t.len() == 1 && t[0] == '*' {
        Some(BinaryopType::MUL)
    }     else if t.len() == 1 && t[0] == '/' {
        Some(BinaryopType::DIV)
    }     else if t.len() == 1 && t[0] == '%' {
        Some(BinaryopType::MOD)
    }     else if t.len() == 1 && t[0] == '&' {
        Some(BinaryopType::AND)
    }     else if t.len() == 1 && t[0] == '|' {
        Some(BinaryopType::OR)
    }     else if t.len() == 2 && t[0] == '<' && t[1] == '<' {
        Some(BinaryopType::SHL)
    }     else if t.len() == 2 && t[0] == '>' && t[1] == '>' {
        Some(BinaryopType::SHR)
    }     else if t.len() == 1 && t[0] == '^' {
        Some(BinaryopType::XOR)
    }     else if t.len() == 2 && t[0] == '=' && t[1] == '=' {
        Some(BinaryopType::EQ)
    }     else if t.len() == 2 && t[0] == '!' && t[1] == '=' {
        Some(BinaryopType::NEQ)
    }     else if t.len() == 2 && t[0] == '&' && t[1] == '&' {
        Some(BinaryopType::LogicalAnd)
    }     else if t.len() == 2 && t[0] == '|' && t[1] == '|' {
        Some(BinaryopType::LogicalOr)
    }     else if t.len() == 1 && t[0] == '<' {
        Some(BinaryopType::LT)
    }     else if t.len() == 2 && t[0] == '<' && t[1] == '=' {
        Some(BinaryopType::LTEQ)
    }     else if t.len() == 1 && t[0] == '>' {
        Some(BinaryopType::GT)
    }     else if t.len() == 2 && t[0] == '>' && t[1] == '=' {
        Some(BinaryopType::GTEQ)
    } else {
        None
    }
}

fn chars_eq_exec(t: &Vec<char>, w: &[char]) -> (r: bool)
    ensures
        r == (t@ == w@),
{
    crate::text::chars_eq(t, w)
}

impl Tables {
    pub fn type_size_of(&self, t: &Type) -> (r: Result<u32, CompileError>)
        ensures
            match type_size_r(struct_views(self.structs@), *t) {
                Ok(n) => n <= u32::MAX && r == Ok::<u32, CompileError>(n as u32),
                Err(e) => r == Err::<u32, CompileError>(e),
            },
    {
        match t {
            Type::Int | Type::Char | Type::Ptr(_) => Ok(1),
            Type::Void => Ok(0),
            Type::_String => Err(CompileError::InvalidType),
            Type::Struct(n) => {
                proof {
                    lemma_find_struct_view(self.structs@, n@);
                }
                match struct_index(&self.structs, n) {
                    Some(i) => Ok(self.structs[i].size),
                    None => Err(CompileError::UnknownStruct),
                }
            },
        }
    }

    pub fn decl_size_of(&self, d: &Decl) -> (r: Result<u32, CompileError>)
        ensures
            match decl_size_r(struct_views(self.structs@), *d) {
                Ok(n) => n <= u32::MAX && r == Ok::<u32, CompileError>(n as u32),
                Err(e) => r == Err::<u32, CompileError>(e),
            },
    {
        match d {
            Decl::VarDecl(v) => self.type_size_of(&v._type),
            Decl::ArrayDecl(a) => {
                let item = self.type_size_of(&a._type)?;
                let ghost dims = a.dimentions@;
                let mut p: u64 = 1;
                let mut i: usize = 0;
                proof {
                    assert(dims.subrange(0, 0) =~= Seq::<u32>::empty());
                }
                while i < a.dimentions.len()
                    invariant
                        0 <= i <= dims.len(),
                        dims == a.dimentions@,
                        p <= DIM_CAP,
                        p as int == (if prod(dims.subrange(0, i as int)) < DIM_CAP {
                            prod(dims.subrange(0, i as int))
                        } else {
                            DIM_CAP as int
                        }),
                    decreases dims.len() - i,
                {
                    let d = a.dimentions[i] as u64;
                    let ghost q = prod(dims.subrange(0, i as int));
                    proof {
                        assert(dims.subrange(0, i + 1).drop_last() =~= dims.subrange(0, i as int));
                        lemma_prod_nonneg(dims.subrange(0, i as int));
                        assert(p * d <= DIM_CAP * 0xffff_ffff) by (nonlinear_arith)
                            requires
                                p <= DIM_CAP,
                                d <= 0xffff_ffff,
                        ;
                    }
                    let m = p * d;
                    p = if m < DIM_CAP { m } else { DIM_CAP };
                    i += 1;
                    proof {
                        assert(prod(dims.subrange(0, i as int)) == q * d);
                        if q >= DIM_CAP {
                            if d == 0 {
                                assert(q * d == 0) by (nonlinear_arith)
                                    requires
                                        d == 0,
                                ;
                            } else {
                                assert(q * d >= q) by (nonlinear_arith)
                                    requires
                                        d >= 1,
                                        q >= 0,
                                ;
                                assert(DIM_CAP * d >= DIM_CAP) by (nonlinear_arith)
                                    requires
                                        d >= 1,
                                ;
                            }
                        } else {
                            assert(m == q * d);
                        }
                    }
                }
                let ghost q = prod(dims);
                proof {
                    assert(dims.subrange(0, dims.len() as int) =~= dims);
                    lemma_prod_nonneg(dims);
                    assert(p * item <= DIM_CAP * 0xffff_ffff) by (nonlinear_arith)
                        requires
                            p <= DIM_CAP,
                            item <= 0xffff_ffff,
                    ;
                    if item == 0 {
                        assert(q * item == 0) by (nonlinear_arith)
                            requires
                                item == 0,
                        ;
                        assert(p * item == 0) by (nonlinear_arith)
                            requires
                                item == 0,
                        ;
                    }
                    if q < DIM_CAP {
                        assert(p * item == q * item);
                    } else if item > 0 {
                        assert(p * item >= DIM_CAP) by (nonlinear_arith)
                            requires
                                p == DIM_CAP,
                                item >= 1,
                        ;
                        assert(q * item >= q) by (nonlinear_arith)
                            requires
                                item >= 1,
                                q >= 0,
                        ;
                    }
                }
                let total = p * item as u64;
                if total > u32::MAX as u64 {
                    return Err(CompileError::TooLarge);
                }
                Ok(total as u32)
            },
        }
    }

    fn shape_of(&self, d: &Decl) -> (r: Result<Shape, CompileError>)
        ensures
            decl_size_r(struct_views(self.structs@), *d).is_ok() ==> r.is_ok(),
    {
        match d {
            Decl::VarDecl(v) => match &v._type {
                Type::Struct(n) => Ok(Shape::Struct(n.clone())),
                _ => Ok(Shape::Scalar),
            },
            Decl::ArrayDecl(a) => {
                let item = self.type_size_of(&a._type)?;
                Ok(Shape::Array { item_size: item, dims: copy_u32s(&a.dimentions) })
            },
        }
    }

    /// Places the variable of `d` at `*offset`: its offset is its last word.
    fn declare_var(&self, d: &Decl, kind: LocalOrArg, offset: &mut u32, vars: &mut Vec<VariableData>) -> (r: Result<
        (),
        CompileError,
    >)
        ensures
            match var_entry(struct_views(self.structs@), *d, kind, *old(offset) as nat) {
                Ok((v, o)) => r.is_ok() && *final(offset) as nat == o && var_views(final(vars)@)
                    == var_views(old(vars)@).push(v),
                Err(e) => r == Err::<(), CompileError>(e),
            },
    {
        let size = self.decl_size_of(d)?;
        if size == 0 {
            return Err(CompileError::InvalidType);
        }
        if *offset as u64 + size as u64 > u32::MAX as u64 {
            return Err(CompileError::TooLarge);
        }
        let shape = self.shape_of(d)?;
        let name = decl_name_of(d);
        let ghost before = vars@;
        let var_type = decl_type(d);
        vars.push(VariableData { name, local_or_arg: kind, var_type, shape, offset: *offset + size - 1, size });
        *offset = *offset + size;
        proof {
            assert(var_views(vars@) =~= var_views(before).push(var_view(vars@.last())));
        }
        Ok(())
    }
}

const DIM_CAP: u64 = 0x1_0000_0000;

fn global_string() -> (r: String)
    ensures
        r@ == global_name(),
{
    let mut v: Vec<char> = Vec::new();
    v.push('_');
    v.push('G');
    v.push('L');
    v.push('O');
    v.push('B');
    v.push('A');
    v.push('L');
    proof {
        assert(v@ =~= global_name());
    }
    string_from_chars(&v)
}

fn copy_type(t: &Type) -> (r: Type)
    decreases t,
{
    match t {
        Type::Int => Type::Int,
        Type::Char => Type::Char,
        Type::Void => Type::Void,
        Type::_String => Type::_String,
        Type::Ptr(inner) => Type::Ptr(Box::new(copy_type(inner))),
        Type::Struct(n) => Type::Struct(n.clone()),
    }
}

fn decl_type(d: &Decl) -> (r: Type) {
    match d {
        Decl::VarDecl(v) => copy_type(&v._type),
        Decl::ArrayDecl(a) => copy_type(&a._type),
    }
}

fn arg_types_of(args: &Vec<Decl>) -> (r: Vec<Type>)
    ensures
        r@.len() == args@.len(),
{
    let mut r: Vec<Type> = Vec::new();
    let mut i: usize = 0;
    while i < args.len()
        invariant
            0 <= i <= args@.len(),
            r@.len() == i,
        decreases args@.len() - i,
    {
        r.push(decl_type(&args[i]));
        i += 1;
    }
    r
}

fn decl_name_of(d: &Decl) -> (r: String)
    ensures
        r@ == decl_name(*d),
{
    match d {
        Decl::VarDecl(v) => v.name.clone(),
        Decl::ArrayDecl(a) => a.name.clone(),
    }
}

impl Compiler {
    /// A compiler with only the global scope.
    pub fn new() -> (r: Compiler)
        ensures
            tables_view(r.tables) == (TablesView {
                scopes: seq![(global_name(), global_name(), global_name(), Seq::<VarView>::empty())],
                funcs: Seq::empty(),
                structs: Seq::empty(),
            }),
            find_scope(r.tables.scopes@, global_name()).is_some(),
            state_of(r) == (EmitState { d: Seq::empty(), loops: Seq::empty(), n: 0 }),
    {
        let global = global_string();
        let g = ScopeData {
            name: global.clone(),
            parent_scope: global.clone(),
            parent_func: global,
            variables: Vec::new(),
        };
        let mut scopes: Vec<ScopeData> = Vec::new();
        scopes.push(g);
        let r = Compiler {
            tables: Tables { scopes, funcs: Vec::new(), structs: Vec::new() },
            declared: Vec::new(),
            loop_labels: Vec::new(),
            tmp_label_count: 0,
        };
        proof {
            assert(r.tables.scopes@.last().name@ == global_name());
            assert(var_views(r.tables.scopes@[0].variables@) =~= Seq::<VarView>::empty());
            assert(tables_view(r.tables).scopes =~= seq![(global_name(), global_name(), global_name(), Seq::<VarView>::empty())]);
            assert(tables_view(r.tables).funcs =~= Seq::<FuncView>::empty());
            assert(tables_view(r.tables).structs =~= Seq::<StructView>::empty());
            assert(decl_view(r.declared@) =~= Seq::<(Seq<char>, Seq<char>)>::empty());
            assert(loops_view(r.loop_labels@) =~= Seq::<(Seq<char>, Seq<char>, Seq<char>)>::empty());
        }
        r
    }

    /// Registers the scope `scope_name` and, before it, every block nested
    /// in it: each local takes the words from the running offset on, and its
    /// offset is its last word; each nested block becomes a scope under its
    /// `code_loc`, with `scope_name` as its parent.
    pub fn register_scope(
        &mut self,
        scope_name: &String,
        statements: &Vec<Statement>,
        parent_scope: &String,
        parent_func: &String,
        offset: &mut u32,
    ) -> (r: Result<(), CompileError>)
        ensures
            final(self).tables.structs == old(self).tables.structs,
            final(self).tables.funcs == old(self).tables.funcs,
            state_of(*final(self)) == state_of(*old(self)),
            match wrap_scope(
                reg_items(struct_views(old(self).tables.structs@), scope_name@, parent_func@, statements@, *old(offset) as nat),
                scope_name@,
                parent_scope@,
                parent_func@,
                Seq::empty(),
            ) {
                Ok((ns, _, o)) => r.is_ok() && *final(offset) as nat == o && scope_views(final(self).tables.scopes@)
                    == scope_views(old(self).tables.scopes@) + ns,
                Err(e) => r == Err::<(), CompileError>(e),
            },
    {
        let v: Vec<VariableData> = Vec::new();
        proof {
            assert(var_views(v@) =~= Seq::<VarView>::empty());
        }
        self.register_scope_with(scope_name, statements, parent_scope, parent_func, offset, v)
    }

    #[verifier::rlimit(100)]
    fn register_scope_with(
        &mut self,
        scope_name: &String,
        statements: &Vec<Statement>,
        parent_scope: &String,
        parent_func: &String,
        offset: &mut u32,
        initial: Vec<VariableData>,
    ) -> (r: Result<(), CompileError>)
        ensures
            final(self).tables.structs == old(self).tables.structs,
            final(self).tables.funcs == old(self).tables.funcs,
            state_of(*final(self)) == state_of(*old(self)),
            match wrap_scope(
                reg_items(struct_views(old(self).tables.structs@), scope_name@, parent_func@, statements@, *old(offset) as nat),
                scope_name@,
                parent_scope@,
                parent_func@,
                var_views(initial@),
            ) {
                Ok((ns, _, o)) => r.is_ok() && *final(offset) as nat == o && scope_views(final(self).tables.scopes@)
                    == scope_views(old(self).tables.scopes@) + ns,
                Err(e) => r == Err::<(), CompileError>(e),
            },
        decreases statements,
    {
        let ghost sv = struct_views(self.tables.structs@);
        let ghost off0 = *offset as nat;
        let ghost init = var_views(initial@);
        let ghost mut ns: Seq<ScopeView> = Seq::empty();
        let ghost mut vs: Seq<VarView> = Seq::empty();
        let mut vars = initial;
        let mut i: usize = 0;
        proof {
            assert(statements@.subrange(0, 0) =~= Seq::<Statement>::empty());
            assert(scope_views(self.tables.scopes@) =~= scope_views(old(self).tables.scopes@) + ns);
            assert(var_views(vars@) =~= init + vs);
        }
        while i < statements.len()
            invariant
                0 <= i <= statements@.len(),
                sv == struct_views(old(self).tables.structs@),
                self.tables.structs == old(self).tables.structs,
                self.tables.funcs == old(self).tables.funcs,
                state_of(*self) == state_of(*old(self)),
                off0 == *old(offset) as nat,
                init == var_views(initial@),
                reg_items(sv, scope_name@, parent_func@, statements@.subrange(0, i as int), off0) == Ok::<
                    (Seq<ScopeView>, Seq<VarView>, nat),
                    CompileError,
                >((ns, vs, *offset as nat)),
                scope_views(self.tables.scopes@) == scope_views(old(self).tables.scopes@) + ns,
                var_views(vars@) == init + vs,
            decreases statements@.len() - i,
        {
            let ghost s = statements@[i as int];
            let ghost o = *offset as nat;
            let ghost sc0 = scope_views(self.tables.scopes@);
            let ghost vv0 = var_views(vars@);
            proof {
                assert(statements@.subrange(0, i + 1).drop_last() =~= statements@.subrange(0, i as int));
                assert(statements@.subrange(0, i + 1).last() == s);
            }
            let res: Result<(), CompileError> = match &statements[i] {
                Statement::Decl(d) => self.tables.declare_var(d, LocalOrArg::Local, offset, &mut vars),
                Statement::Compound(c) => self.register_scope_with(&c.code_loc, &c.items, scope_name, parent_func, offset, Vec::new()),
                Statement::If(st) => {
                    let r1 = self.register_scope_with(&st.iftrue.code_loc, &st.iftrue.items, scope_name, parent_func, offset, Vec::new());
                    match r1 {
                        Err(e) => Err(e),
                        Ok(()) => match &st.iffalse {
                            Some(f) => self.register_scope_with(&f.code_loc, &f.items, scope_name, parent_func, offset, Vec::new()),
                            None => Ok(()),
                        },
                    }
                },
                Statement::WhileLoop(w) => self.register_scope_with(&w.code_loc, &w.body.items, scope_name, parent_func, offset, Vec::new()),
                Statement::DoWhileLoop(w) => self.register_scope_with(&w.code_loc, &w.body.items, scope_name, parent_func, offset, Vec::new()),
                Statement::ForLoop(f) => {
                    let mut init_vars: Vec<VariableData> = Vec::new();
                    let mut ok = true;
                    let mut err = CompileError::TooLarge;
                    let ghost mut ivs: Seq<VarView> = Seq::empty();
                    proof {
                        assert(var_views(init_vars@) =~= ivs);
                    }
                    if let Some(c) = &f.init {
                        let mut k: usize = 0;
                        proof {
                            assert(c.items@.subrange(0, 0) =~= Seq::<Statement>::empty());
                        }
                        while k < c.items.len()
                            invariant
                                0 <= k <= c.items@.len(),
                                self.tables.structs == old(self).tables.structs,
                                sv == struct_views(self.tables.structs@),
                                ok ==> reg_decls(sv, c.items@.subrange(0, k as int), o) == Ok::<(Seq<VarView>, nat), CompileError>(
                                    (ivs, *offset as nat),
                                ),
                                ok ==> var_views(init_vars@) == ivs,
                                !ok ==> reg_decls(sv, c.items@, o) == Err::<(Seq<VarView>, nat), CompileError>(err),
                            decreases c.items@.len() - k,
                        {
                            proof {
                                assert(c.items@.subrange(0, k + 1).drop_last() =~= c.items@.subrange(0, k as int));
                            }
                            if ok {
                                if let Statement::Decl(d) = &c.items[k] {
                                    let ghost ob = *offset as nat;
                                    match self.tables.declare_var(d, LocalOrArg::Local, offset, &mut init_vars) {
                                        Ok(()) => {
                                            proof {
                                                let (v, _) = var_entry(sv, *d, LocalOrArg::Local, ob).unwrap();
                                                ivs = ivs.push(v);
                                            }
                                        },
                                        Err(e) => {
                                            ok = false;
                                            err = e;
                                            proof {
                                                lemma_reg_decls_err(sv, c.items@, o, k + 1, c.items@.len() as int);
                                                assert(c.items@.subrange(0, c.items@.len() as int) =~= c.items@);
                                            }
                                        },
                                    }
                                }
                            }
                            k += 1;
                        }
                        proof {
                            assert(c.items@.subrange(0, c.items@.len() as int) =~= c.items@);
                        }
                    }
                    if ok {
                        self.register_scope_with(&f.code_loc, &f.body.items, scope_name, parent_func, offset, init_vars)
                    } else {
                        Err(err)
                    }
                },
                _ => Ok(()),
            };
            match res {
                Err(e) => {
                    proof {
                        assert(reg_stmt(sv, scope_name@, parent_func@, s, o) == Err::<(Seq<ScopeView>, Seq<VarView>, nat), CompileError>(e));
                        lemma_reg_items_err(sv, scope_name@, parent_func@, statements@, off0, i + 1, statements@.len() as int);
                        assert(statements@.subrange(0, statements@.len() as int) =~= statements@);
                    }
                    return Err(e);
                },
                Ok(()) => {},
            }
            proof {
                let (ns2, vs2, o2) = reg_stmt(sv, scope_name@, parent_func@, s, o).unwrap();
                assert(reg_stmt(sv, scope_name@, parent_func@, s, o).is_ok());
                assert(*offset as nat == o2);
                assert(scope_views(self.tables.scopes@) =~= scope_views(old(self).tables.scopes@) + (ns + ns2));
                assert(var_views(vars@) =~= init + (vs + vs2));
                ns = ns + ns2;
                vs = vs + vs2;
            }
            i += 1;
        }
        proof {
            assert(statements@.subrange(0, statements@.len() as int) =~= statements@);
        }
        let sd = ScopeData {
            name: scope_name.clone(),
            parent_scope: parent_scope.clone(),
            parent_func: parent_func.clone(),
            variables: vars,
        };
        let ghost before = self.tables.scopes@;
        self.tables.scopes.push(sd);
        proof {
            assert(scope_views(self.tables.scopes@) =~= scope_views(before).push(scope_view(sd)));
            assert(scope_views(self.tables.scopes@) =~= scope_views(old(self).tables.scopes@) + ns.push(
                (scope_name@, parent_scope@, parent_func@, init + vs),
            ));
        }
        Ok(())
    }

    /// Registers a struct: its fields in order, each at the offset where the
    /// previous one ends, and its size, where the last one ends.
    pub fn register_struct(&mut self, struct_decl: &StructDecl) -> (r: Result<(), CompileError>)
        ensures
            state_of(*final(self)) == state_of(*old(self)),
            match struct_reg(tables_view(old(self).tables), *struct_decl) {
                Ok(tv) => r.is_ok() && tables_view(final(self).tables) == tv,
                Err(e) => r == Err::<(), CompileError>(e),
            },
    {
        let ghost sv = struct_views(self.tables.structs@);
        let ghost mut fs: Seq<FieldView> = Seq::empty();
        let mut items: Vec<FieldData> = Vec::new();
        let mut cur: u32 = 0;
        let mut i: usize = 0;
        proof {
            assert(struct_decl.items@.subrange(0, 0) =~= Seq::<(String, Decl)>::empty());
            assert(field_views(items@) =~= fs);
        }
        while i < struct_decl.items.len()
            invariant
                0 <= i <= struct_decl.items@.len(),
                sv == struct_views(self.tables.structs@),
                self.tables == old(self).tables,
                state_of(*self) == state_of(*old(self)),
                fields_r(sv, struct_decl.items@.subrange(0, i as int)) == Ok::<(Seq<FieldView>, nat), CompileError>(
                    (fs, cur as nat),
                ),
                field_views(items@) == fs,
            decreases struct_decl.items@.len() - i,
        {
            proof {
                assert(struct_decl.items@.subrange(0, i + 1).drop_last() =~= struct_decl.items@.subrange(0, i as int));
            }
            let size = match self.tables.decl_size_of(&struct_decl.items[i].1) {
                Ok(n) => n,
                Err(e) => {
                    proof {
                        lemma_fields_err(sv, struct_decl.items@, i + 1, struct_decl.items@.len() as int);
                        assert(struct_decl.items@.subrange(0, struct_decl.items@.len() as int) =~= struct_decl.items@);
                    }
                    return Err(e);
                },
            };
            if cur as u64 + size as u64 > u32::MAX as u64 {
                proof {
                    lemma_fields_err(sv, struct_decl.items@, i + 1, struct_decl.items@.len() as int);
                    assert(struct_decl.items@.subrange(0, struct_decl.items@.len() as int) =~= struct_decl.items@);
                }
                return Err(CompileError::TooLarge);
            }
            let shape = self.tables.shape_of(&struct_decl.items[i].1)?;
            let ghost before = items@;
            let var_type = decl_type(&struct_decl.items[i].1);
            items.push(FieldData { name: struct_decl.items[i].0.clone(), var_type, offset: cur, size, shape });
            proof {
                fs = fs.push((struct_decl.items@[i as int].0@, cur as nat, size as nat));
                assert(field_views(items@) =~= fs);
            }
            cur = cur + size;
            i += 1;
        }
        proof {
            assert(struct_decl.items@.subrange(0, struct_decl.items@.len() as int) =~= struct_decl.items@);
        }
        let ghost before = self.tables.structs@;
        let st = StructData { name: struct_decl.name.clone(), size: cur, items };
        self.tables.structs.push(st);
        proof {
            assert(struct_views(self.tables.structs@) =~= struct_views(before).push(struct_view(st)));
        }
        Ok(())
    }

    /// Registers a function's name and return size.
    pub fn register_func_decl(&mut self, func_decl: &FuncDecl) -> (r: Result<(), CompileError>)
        ensures
            state_of(*final(self)) == state_of(*old(self)),
            match func_decl_reg(tables_view(old(self).tables), *func_decl) {
                Ok(tv) => r.is_ok() && tables_view(final(self).tables) == tv,
                Err(e) => r == Err::<(), CompileError>(e),
            },
    {
        let ret_size = self.tables.type_size_of(&func_decl.ret_type)?;
        let ghost before = self.tables.funcs@;
        let fd = FuncData {
            name: func_decl.name.clone(),
            ret_type: copy_type(&func_decl.ret_type),
            arg_types: arg_types_of(&func_decl.args),
            ret_size,
            n_args: func_decl.args.len(),
            local_vars_size: None,
        };
        self.tables.funcs.push(fd);
        proof {
            assert(func_views(self.tables.funcs@) =~= func_views(before).push(func_view(fd)));
        }
        Ok(())
    }

    /// Registers a function's body: its arguments at offsets 0, 1, 2, ...
    /// (each at its last word), its scopes, and its locals' size.
    pub fn register_func_body(&mut self, func_def: &FuncDef) -> (r: Result<(), CompileError>)
        ensures
            state_of(*final(self)) == state_of(*old(self)),
            match func_body_reg(tables_view(old(self).tables), *func_def) {
                Ok(tv) => r.is_ok() && tables_view(final(self).tables) == tv,
                Err(e) => r == Err::<(), CompileError>(e),
            },
    {
        let ghost sv = struct_views(self.tables.structs@);
        let ghost mut avs: Seq<VarView> = Seq::empty();
        let mut args: Vec<VariableData> = Vec::new();
        let mut cur: u32 = 0;
        let mut i: usize = 0;
        proof {
            assert(func_def.decl.args@.subrange(0, 0) =~= Seq::<Decl>::empty());
            assert(var_views(args@) =~= avs);
        }
        while i < func_def.decl.args.len()
            invariant
                0 <= i <= func_def.decl.args@.len(),
                sv == struct_views(self.tables.structs@),
                self.tables == old(self).tables,
                state_of(*self) == state_of(*old(self)),
                reg_args(sv, func_def.decl.args@.subrange(0, i as int), 0) == Ok::<(Seq<VarView>, nat), CompileError>(
                    (avs, cur as nat),
                ),
                var_views(args@) == avs,
            decreases func_def.decl.args@.len() - i,
        {
            proof {
                assert(func_def.decl.args@.subrange(0, i + 1).drop_last() =~= func_def.decl.args@.subrange(0, i as int));
            }
            let ghost ob = cur as nat;
            match self.tables.declare_var(&func_def.decl.args[i], LocalOrArg::Arg, &mut cur, &mut args) {
                Ok(()) => {
                    proof {
                        avs = avs.push(var_entry(sv, func_def.decl.args@[i as int], LocalOrArg::Arg, ob).unwrap().0);
                    }
                },
                Err(e) => {
                    proof {
                        lemma_reg_args_err(sv, func_def.decl.args@, 0, i + 1, func_def.decl.args@.len() as int);
                        assert(func_def.decl.args@.subrange(0, func_def.decl.args@.len() as int) =~= func_def.decl.args@);
                    }
                    return Err(e);
                },
            }
            i += 1;
        }
        proof {
            assert(func_def.decl.args@.subrange(0, func_def.decl.args@.len() as int) =~= func_def.decl.args@);
        }
        let global = global_string();
        let mut lv: u32 = 0;
        self.register_scope_with(&func_def.decl.name, &func_def.body.items, &global, &func_def.decl.name, &mut lv, args)?;
        let ret_size = self.tables.type_size_of(&func_def.decl.ret_type)?;
        let ghost before = self.tables.funcs@;
        let fd = FuncData {
            name: func_def.decl.name.clone(),
            ret_type: copy_type(&func_def.decl.ret_type),
            arg_types: arg_types_of(&func_def.decl.args),
            ret_size,
            n_args: func_def.decl.args.len(),
            local_vars_size: Some(lv),
        };
        self.tables.funcs.push(fd);
        proof {
            assert(func_views(self.tables.funcs@) =~= func_views(before).push(func_view(fd)));
        }
        Ok(())
    }

    /// Emits one function: prologue, body, epilogue.
    pub fn gen_function(&mut self, f: &FuncDef, code: &mut Vec<String>) -> (r: Result<(), CompileError>)
        ensures
            final(self).tables == old(self).tables,
            match old(self).tables.func_gen(state_of(*old(self)), *f) {
                Ok((l, st)) => r.is_ok() && lines(final(code)@) == lines(old(code)@) + l
                    && state_of(*final(self)) == st,
                Err(e) => r == Err::<(), CompileError>(e),
            },
    {
        let ghost start = lines(code@);
        let ghost d0 = decl_view(self.declared@);
        let fi = match func_index(&self.tables.funcs, &f.decl.name) {
            Some(i) => i,
            None => return Err(CompileError::UnknownFunction),
        };
        let lv = match self.tables.funcs[fi].local_vars_size {
            Some(n) => n,
            None => return Err(CompileError::UnknownFunction),
        };
        let mut i: usize = 0;
        proof {
            assert(f.decl.args@.subrange(0, 0) =~= Seq::<Decl>::empty());
        }
        while i < f.decl.args.len()
            invariant
                0 <= i <= f.decl.args@.len(),
                self.tables == old(self).tables,
                self.loop_labels == old(self).loop_labels,
                self.tmp_label_count == old(self).tmp_label_count,
                d0 == decl_view(old(self).declared@),
                decl_view(self.declared@) == args_declared(d0, f.decl.name@, f.decl.args@.subrange(0, i as int)),
                fi < self.tables.funcs@.len(),
                find_func(self.tables.funcs@, f.decl.name@) == Some(self.tables.funcs@[fi as int]),
                self.tables.funcs@[fi as int].local_vars_size == Some(lv),
                code@ == old(code)@,
            decreases f.decl.args@.len() - i,
        {
            proof {
                assert(f.decl.args@.subrange(0, i + 1).drop_last() =~= f.decl.args@.subrange(0, i as int));
            }
            let n = decl_name_of(&f.decl.args[i]);
            self.declare(&f.decl.name, &n);
            i += 1;
        }
        proof {
            assert(f.decl.args@.subrange(0, f.decl.args@.len() as int) =~= f.decl.args@);
        }
        let name = string_chars(&f.decl.name);
        emit_label(code, &name);
        emit(code, Instruction::Stack { op: StackOp::PUSH, dst: Register::R1 });
        emit(code, Instruction::Stack { op: StackOp::PUSH, dst: Register::R2 });
        emit_repeat(code, Instruction::Stack { op: StackOp::PUSH, dst: Register::ZR }, lv as u64);
        self.gen_compound(&f.body.items, &f.decl.name, code)?;
        let mut end: Vec<char> = Vec::new();
        end.push('_');
        push_all(&name, &mut end);
        end.push('_');
        end.push('E');
        end.push('N');
        end.push('D');
        proof {
            assert(end@ =~= end_label(name@));
        }
        emit_label(code, &end);
        emit_repeat(code, Instruction::Stack { op: StackOp::POP, dst: Register::ZR }, lv as u64);
        emit(code, Instruction::Stack { op: StackOp::POP, dst: Register::R2 });
        emit(code, Instruction::Stack { op: StackOp::POP, dst: Register::R1 });
        emit(code, Instruction::Other { op: OtherOp::RET });
        proof {
            assert(lines(code@) =~= start + old(self).tables.func_gen(state_of(*old(self)), *f).unwrap().0);
        }
        Ok(())
    }

    /// Compiles a translation unit: registers every struct, declaration and
    /// function in order, then emits `JUMP main` and each function in order.
    pub fn compile(&mut self, root: &RootAstNode) -> (r: Result<Vec<String>, CompileError>)
        ensures
            match registered(tables_view(old(self).tables), root.externals@) {
                Err(e) => r == Err::<Vec<String>, CompileError>(e),
                Ok(tv) => tables_view(final(self).tables) == tv && match final(self).tables.program_gen(
                    state_of(*old(self)),
                    root.externals@,
                ) {
                    Ok((l, _)) => r.is_ok() && lines(r.unwrap()@) == l,
                    Err(e) => r == Err::<Vec<String>, CompileError>(e),
                },
            },
    {
        let ghost tv0 = tables_view(self.tables);
        let ghost exts = root.externals@;
        let mut i: usize = 0;
        proof {
            assert(exts.subrange(0, 0) =~= Seq::<External>::empty());
        }
        while i < root.externals.len()
            invariant
                0 <= i <= exts.len(),
                exts == root.externals@,
                tv0 == tables_view(old(self).tables),
                state_of(*self) == state_of(*old(self)),
                registered(tv0, exts.subrange(0, i as int)) == Ok::<TablesView, CompileError>(tables_view(self.tables)),
            decreases exts.len() - i,
        {
            proof {
                assert(exts.subrange(0, i + 1).drop_last() =~= exts.subrange(0, i as int));
                assert(exts.subrange(0, i + 1).last() == exts[i as int]);
            }
            let res = match &root.externals[i] {
                External::StructDecl(sd) => self.register_struct(sd),
                External::FuncDecl(fd) => self.register_func_decl(fd),
                External::FuncDef(fd) => match self.register_func_decl(&fd.decl) {
                    Err(e) => Err(e),
                    Ok(()) => self.register_func_body(fd),
                },
            };
            if let Err(e) = res {
                proof {
                    lemma_registered_err(tv0, exts, i + 1, exts.len() as int);
                    assert(exts.subrange(0, exts.len() as int) =~= exts);
                }
                return Err(e);
            }
            i += 1;
        }
        proof {
            assert(exts.subrange(0, exts.len() as int) =~= exts);
        }
        let ghost st0 = state_of(*self);
        let ghost t = self.tables;
        let mut code: Vec<String> = Vec::new();
        let mut main_chars: Vec<char> = Vec::new();
        main_chars.push('m');
        main_chars.push('a');
        main_chars.push('i');
        main_chars.push('n');
        proof {
            assert(main_chars@ =~= main_name());
        }
        emit_branch(&mut code, FlowOp::JUMP, &main_chars);
        let mut k: usize = 0;
        proof {
            assert(exts.subrange(0, 0) =~= Seq::<External>::empty());
            assert(lines(code@) =~= branch(FlowOp::JUMP, main_name()));
        }
        while k < root.externals.len()
            invariant
                0 <= k <= exts.len(),
                exts == root.externals@,
                self.tables == t,
                st0 == state_of(*old(self)),
                tv0 == tables_view(old(self).tables),
                registered(tv0, exts) == Ok::<TablesView, CompileError>(tables_view(t)),
                t.program_gen(st0, exts.subrange(0, k as int)) == Ok::<(Seq<Seq<char>>, EmitState), CompileError>(
                    (lines(code@), state_of(*self)),
                ),
            decreases exts.len() - k,
        {
            proof {
                assert(exts.subrange(0, k + 1).drop_last() =~= exts.subrange(0, k as int));
                assert(exts.subrange(0, k + 1).last() == exts[k as int]);
            }
            if let External::FuncDef(fd) = &root.externals[k] {
                let res = self.gen_function(fd, &mut code);
                if let Err(e) = res {
                    proof {
                        lemma_program_gen_err(&t, st0, exts, k + 1, exts.len() as int);
                        assert(exts.subrange(0, exts.len() as int) =~= exts);
                    }
                    return Err(e);
                }
            }
            k += 1;
        }
        proof {
            assert(exts.subrange(0, exts.len() as int) =~= exts);
        }
        Ok(code)
    }
}
} // verus!
