use vstd::prelude::*;
use crate::value::{Name, Value};

verus! {

/// An operand of an instruction.
#[derive(Debug, Clone, Copy, PartialEq, Eq, Structural)]
pub enum IRExpr {
    IntLit { val: u64 },
    Var { id: Name },
    BlockRef { bname: Name },
    GlobalRef { name: Name },
}

/// The binary operators of `Op`; `Unknown` stands for any other token.
#[derive(Debug, Clone, Copy, PartialEq, Eq, Structural)]
pub enum BinOp {
    Add,
    Sub,
    Mul,
    Div,
    Shl,
    Shr,
    And,
    Or,
    Xor,
    Lt,
    Gt,
    Eq,
    Unknown,
}

#[derive(Debug)]
pub enum IRStatement {
    Print { out: IRExpr },
    Alloc { lhs: Name, slots: u64 },
    VarAssign { lhs: Name, rhs: IRExpr },
    Phi { lhs: Name, opts: Vec<(Name, IRExpr)> },
    Call { lhs: Name, code: IRExpr, receiver: IRExpr, args: Vec<IRExpr> },
    SetElt { base: IRExpr, offset: IRExpr, val: IRExpr },
    GetElt { lhs: Name, base: IRExpr, offset: IRExpr },
    Load { lhs: Name, base: IRExpr },
    Store { base: IRExpr, val: IRExpr },
    Op { lhs: Name, arg1: IRExpr, op: BinOp, arg2: IRExpr },
}

/// How a block ends.
#[derive(Debug)]
pub enum ControlXfer {
    Fail { reason: String },
    Ret { val: IRExpr },
    Jump { block: Name },
    If { cond: IRExpr, tblock: Name, fblock: Name },
}

#[derive(Debug)]
pub struct BasicBlock {
    pub name: Name,
    /// Formal parameters; the receiver comes first.
    pub formals: Vec<Name>,
    pub instrs: Vec<IRStatement>,
    pub next: ControlXfer,
}

/// A global static array, laid out in memory word by word.
#[derive(Debug)]
pub enum GlobalStatic {
    Array { name: Name, vals: Vec<Value> },
}

/// A parsed program: its globals in declaration order and its blocks.
#[derive(Debug)]
pub struct IRProgram {
    pub globals: Vec<GlobalStatic>,
    pub blocks: Vec<BasicBlock>,
}

} // verus!
