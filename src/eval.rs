use vstd::prelude::*;
use crate::value::{Name, Value, RuntimeError};
use crate::ir::{IRExpr, BinOp, BasicBlock, IRProgram};
use crate::locals::Locals;
use crate::memory::Globals;

verus! {

broadcast use vstd::std_specs::hash::group_hash_axioms;

/// The number of distinct machine words.
pub open spec fn word_range() -> int {
    0x1_0000_0000_0000_0000
}

/// Some block of `blocks` is named `b`.
pub open spec fn has_block(blocks: Seq<BasicBlock>, b: Name) -> bool {
    exists|i: int| 0 <= i < blocks.len() && blocks[i].name == b
}

/// `i` is the first block named `b`, the one that a name refers to.
pub open spec fn first_block(blocks: Seq<BasicBlock>, b: Name, i: int) -> bool {
    &&& 0 <= i < blocks.len()
    &&& blocks[i].name == b
    &&& forall|j: int| 0 <= j < i ==> blocks[j].name != b
}

pub proof fn lemma_first_block_unique(blocks: Seq<BasicBlock>, b: Name, i: int, j: int)
    requires
        first_block(blocks, b, i),
        first_block(blocks, b, j),
    ensures
        i == j,
{
    if i < j {
        assert(blocks[i].name != b);
    } else if j < i {
        assert(blocks[j].name != b);
    }
}

/// Finds the block named `b`.
pub fn find_block(prog: &IRProgram, b: Name) -> (r: Option<usize>)
    ensures
        match r {
            Some(i) => first_block(prog.blocks@, b, i as int),
            None => !has_block(prog.blocks@, b),
        },
{
    let mut i: usize = 0;
    while i < prog.blocks.len()
        invariant
            i <= prog.blocks@.len(),
            forall|j: int| 0 <= j < i ==> prog.blocks@[j].name != b,
        decreases prog.blocks@.len() - i,
    {
        if prog.blocks[i].name == b {
            return Some(i);
        }
        i = i + 1;
    }
    None
}

/// The value of an operand.
pub open spec fn expr_spec(
    l: Map<Name, Value>,
    g: Map<Name, u64>,
    blocks: Seq<BasicBlock>,
    e: IRExpr,
) -> Result<Value, RuntimeError> {
    match e {
        IRExpr::IntLit { val } => Ok(Value::Data(val)),
        IRExpr::Var { id } => if l.contains_key(id) {
            Ok(l[id])
        } else {
            Err(RuntimeError::UninitializedVariable { name: id })
        },
        IRExpr::BlockRef { bname } => if has_block(blocks, bname) {
            Ok(Value::CodePtr(bname))
        } else {
            Err(RuntimeError::InvalidBlock { bname })
        },
        IRExpr::GlobalRef { name } => if g.contains_key(name) {
            Ok(Value::Data(g[name]))
        } else {
            Err(RuntimeError::UndefinedGlobal { name })
        },
    }
}

/// Evaluates an operand against the locals, the globals and the program.
pub fn expr_val(l: &Locals, globs: &Globals, prog: &IRProgram, e: &IRExpr) -> (r: Result<
    Value,
    RuntimeError,
>)
    requires
        l.wf(),
    ensures
        r == expr_spec(l@, globs@, prog.blocks@, *e),
{
    match e {
        IRExpr::IntLit { val } => Ok(Value::Data(*val)),
        IRExpr::Var { id } => crate::locals::read_var(l, *id),
        IRExpr::BlockRef { bname } => match find_block(prog, *bname) {
            None => Err(RuntimeError::InvalidBlock { bname: *bname }),
            Some(_) => Ok(Value::CodePtr(*bname)),
        },
        IRExpr::GlobalRef { name } => match globs.get(name) {
            None => Err(RuntimeError::UndefinedGlobal { name: *name }),
            Some(v) => Ok(Value::Data(*v)),
        },
    }
}

/// Whether an operator counts as a slow ALU operation.
pub open spec fn is_slow(op: BinOp) -> bool {
    op is Mul || op is Div
}

pub open spec fn flag(b: bool) -> u64 {
    if b {
        1
    } else {
        0
    }
}

/// What `op` gives on two words: arithmetic is modulo 2^64, shifts by 64 or
/// more give 0, comparisons give 1 or 0.
pub open spec fn binop_spec(op: BinOp, a: u64, b: u64) -> Result<u64, RuntimeError> {
    match op {
        BinOp::Add => Ok(((a + b) % word_range()) as u64),
        BinOp::Sub => Ok(((a - b + word_range()) % word_range()) as u64),
        BinOp::Mul => Ok(((a * b) % word_range()) as u64),
        BinOp::Div => if b == 0 {
            Err(RuntimeError::DivideByZero)
        } else {
            Ok(a / b)
        },
        BinOp::Shl => Ok(if b >= 64 { 0 } else { a << b }),
        BinOp::Shr => Ok(if b >= 64 { 0 } else { a >> b }),
        BinOp::And => Ok(a & b),
        BinOp::Or => Ok(a | b),
        BinOp::Xor => Ok(a ^ b),
        BinOp::Lt => Ok(flag(a < b)),
        BinOp::Gt => Ok(flag(a > b)),
        BinOp::Eq => Ok(flag(a == b)),
        BinOp::Unknown => Err(RuntimeError::NYI),
    }
}

/// Applies a binary operator to two words.
pub fn binop(op: BinOp, a: u64, b: u64) -> (r: Result<u64, RuntimeError>)
    ensures
        r == binop_spec(op, a, b),
{
    match op {
        BinOp::Add => Ok(a.wrapping_add(b)),
        BinOp::Sub => Ok(a.wrapping_sub(b)),
        BinOp::Mul => Ok(a.wrapping_mul(b)),
        BinOp::Div => if b == 0 {
            Err(RuntimeError::DivideByZero)
        } else {
            Ok(a / b)
        },
        BinOp::Shl => Ok(if b >= 64 { 0 } else { a << b }),
        BinOp::Shr => Ok(if b >= 64 { 0 } else { a >> b }),
        BinOp::And => Ok(a & b),
        BinOp::Or => Ok(a | b),
        BinOp::Xor => Ok(a ^ b),
        BinOp::Lt => Ok(if a < b { 1 } else { 0 }),
        BinOp::Gt => Ok(if a > b { 1 } else { 0 }),
        BinOp::Eq => Ok(if a == b { 1 } else { 0 }),
        BinOp::Unknown => Err(RuntimeError::NYI),
    }
}

} // verus!
