//! The typed syntax tree that the compiler lowers: functions, declarations,
//! statements and expressions of the C-like source language.
use vstd::prelude::*;
use crate::cpu::instructions::BinArithOp;

verus! {

/// A source type.
pub enum Type {
    Int,
    Char,
    Void,
    _String,
    Ptr(Box<Type>),
    Struct(String),
}

/// A function definition: its declaration and its body.
pub struct FuncDef {
    pub body: Compound,
    pub decl: FuncDecl,
}

/// A function's name, parameters and return type.
pub struct FuncDecl {
    pub name: String,
    pub args: Vec<Decl>,
    pub ret_type: Type,
}

/// A block of statements; `code_loc` identifies its scope.
pub struct Compound {
    pub items: Vec<Statement>,
    pub code_loc: String,
}

pub enum Statement {
    Return(Return),
    Decl(Decl),
    Assignment(Assignment),
    Expression(Expression),
    If(If),
    Compound(Compound),
    WhileLoop(WhileLoop),
    DoWhileLoop(DoWhileLoop),
    ForLoop(ForLoop),
    Break,
    Continue,
}

pub struct Return {
    pub expr: Expression,
}

pub enum Decl {
    VarDecl(VarDecl),
    ArrayDecl(ArrayDecl),
}

pub struct VarDecl {
    pub name: String,
    pub _type: Type,
    pub init: Option<Expression>,
}

/// An array of `dimentions` (outermost first) of `_type` items.
pub struct ArrayDecl {
    pub name: String,
    pub _type: Type,
    pub dimentions: Vec<u32>,
    pub init: Option<Vec<Expression>>,
}

/// A struct declaration; `items` keeps the fields in declaration order.
pub struct StructDecl {
    pub name: String,
    pub items: Vec<(String, Decl)>,
}

pub enum Expression {
    Constant(Constant),
    BinaryOp(BinaryOp),
    UnaryOp(UnaryOp),
    ID(ID),
    Assignment(Assignment),
    TernaryOp(TernaryOp),
    FuncCall(FuncCall),
    ArrayRef(ArrayRef),
    StructRef(StructRef),
}

/// A literal; `val` is its source text (`2`, `'a'`).
pub struct Constant {
    pub _type: Type,
    pub val: String,
}

pub struct BinaryOp {
    pub op_type: BinaryopType,
    pub left: Box<Expression>,
    pub right: Box<Expression>,
}

#[derive(PartialEq, Eq, Structural, Debug, Clone, Copy)]
pub enum BinaryopType {
    ADD,
    SUB,
    MUL,
    DIV,
    MOD,
    AND,
    OR,
    SHL,
    SHR,
    XOR,
    EQ,
    NEQ,
    LogicalAnd,
    LogicalOr,
    LT,
    LTEQ,
    GT,
    GTEQ,
}

impl BinaryopType {
    /// The machine operation of an arithmetic operator; `None` for the
    /// comparisons and logical operators.
    pub open spec fn machine_op(self) -> Option<BinArithOp> {
        match self {
            BinaryopType::ADD => Some(BinArithOp::ADD),
            BinaryopType::SUB => Some(BinArithOp::SUB),
            BinaryopType::MUL => Some(BinArithOp::MUL),
            BinaryopType::DIV => Some(BinArithOp::DIV),
            BinaryopType::MOD => Some(BinArithOp::MOD),
            BinaryopType::AND => Some(BinArithOp::AND),
            BinaryopType::OR => Some(BinArithOp::OR),
            BinaryopType::SHL => Some(BinArithOp::SHL),
            BinaryopType::SHR => Some(BinArithOp::SHR),
            BinaryopType::XOR => Some(BinArithOp::XOR),
            _ => None,
        }
    }

    pub fn to_bin_op(&self) -> (r: Option<BinArithOp>)
        ensures
            r == self.machine_op(),
    {
        match self {
            BinaryopType::ADD => Some(BinArithOp::ADD),
            BinaryopType::SUB => Some(BinArithOp::SUB),
            BinaryopType::MUL => Some(BinArithOp::MUL),
            BinaryopType::DIV => Some(BinArithOp::DIV),
            BinaryopType::MOD => Some(BinArithOp::MOD),
            BinaryopType::AND => Some(BinArithOp::AND),
            BinaryopType::OR => Some(BinArithOp::OR),
            BinaryopType::SHL => Some(BinArithOp::SHL),
            BinaryopType::SHR => Some(BinArithOp::SHR),
            BinaryopType::XOR => Some(BinArithOp::XOR),
            _ => None,
        }
    }

    /// The mnemonic of the machine operation, for arithmetic operators.
    pub fn to_op(&self) -> (r: Option<String>)
        ensures
            match self.machine_op() {
                Some(op) => r.is_some() && r.unwrap()@ == op.name(),
                None => r.is_none(),
            },
    {
        match self.to_bin_op() {
            Some(op) => {
                let mut chars: Vec<char> = Vec::new();
                op.push_name(&mut chars);
                Some(crate::cpu::instructions::string_from_chars(&chars))
            },
            None => None,
        }
    }
}

pub struct UnaryOp {
    pub op_type: UnaryopType,
    pub expr: Box<Expression>,
}

#[derive(PartialEq, Eq, Structural, Debug, Clone, Copy)]
pub enum UnaryopType {
    NEG,
    NOT,
    /// `x++`
    XPP,
    /// `++x`
    PPX,
    /// `x--`
    XMM,
    /// `--x`
    MMX,
    /// `&x`
    REF,
    /// `*x`
    DEREF,
}

pub struct ID {
    pub name: String,
}

pub struct Assignment {
    pub op: AssignmentOp,
    pub lvalue: Box<Expression>,
    pub rvalue: Box<Expression>,
}

/// The operator of a compound assignment (`+=`), or none for `=`.
pub struct AssignmentOp {
    pub op: Option<BinaryopType>,
}

pub struct If {
    pub cond: Expression,
    pub iftrue: Box<Compound>,
    pub iffalse: Option<Box<Compound>>,
    pub code_loc: String,
}

pub struct TernaryOp {
    pub cond: Box<Expression>,
    pub iftrue: Box<Expression>,
    pub iffalse: Box<Expression>,
}

pub struct WhileLoop {
    pub cond: Expression,
    pub body: Box<Compound>,
    pub code_loc: String,
}

pub struct DoWhileLoop {
    pub cond: Expression,
    pub body: Box<Compound>,
    pub code_loc: String,
}

pub struct ForLoop {
    pub cond: Option<Expression>,
    pub init: Option<Box<Compound>>,
    pub body: Box<Compound>,
    pub next: Option<Box<Compound>>,
    pub code_loc: String,
}

pub struct FuncCall {
    pub name: String,
    pub args: Vec<Box<Expression>>,
}

/// `name[i1][i2]...`, indices outermost first.
pub struct ArrayRef {
    pub name: String,
    pub indices: Vec<Box<Expression>>,
}

/// `name.f1.f2...`
pub struct StructRef {
    pub name: String,
    pub field_names: Vec<String>,
}

/// A top-level item.
pub enum External {
    FuncDef(FuncDef),
    FuncDecl(FuncDecl),
    StructDecl(StructDecl),
}

/// A translation unit.
pub struct RootAstNode {
    pub externals: Vec<External>,
}

} // verus!
