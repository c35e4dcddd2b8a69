use vstd::prelude::*;
use crate::value::{Name, Value, RuntimeError};
use crate::ir::{IRExpr, BinOp, IRStatement, ControlXfer, IRProgram, BasicBlock};
use crate::locals::{Locals, set_var};
use crate::memory::{Memory, MemState, Globals, flat_globals, laid_out, lemma_flat_step, lemma_flat_prefix, relocated, cap_of};
use crate::stats::{ExecStats, bump};
use crate::eval::{expr_val, expr_spec, binop, binop_spec, find_block, first_block, has_block, is_slow};

verus! {

/// The outcome of `Op` on two operand values.
pub open spec fn op_spec(v1: Value, op: BinOp, v2: Value) -> Result<u64, RuntimeError> {
    match (v1, v2) {
        (Value::CodePtr(b), _) => Err(RuntimeError::CodeAddressArithmetic { bname: b }),
        (_, Value::CodePtr(b)) => Err(RuntimeError::CodeAddressArithmetic { bname: b }),
        (Value::GCTombstone, _) => Err(RuntimeError::ReadFromGCedData),
        (_, Value::GCTombstone) => Err(RuntimeError::ReadFromGCedData),
        (Value::Data(n1), Value::Data(n2)) => binop_spec(op, n1, n2),
    }
}

/// Applies `op` to two operand values, which must both be data words.
pub fn op_value(v1: Value, op: BinOp, v2: Value) -> (r: Result<u64, RuntimeError>)
    ensures
        r == op_spec(v1, op, v2),
{
    match (v1, v2) {
        (Value::CodePtr(b), _) => Err(RuntimeError::CodeAddressArithmetic { bname: b }),
        (_, Value::CodePtr(b)) => Err(RuntimeError::CodeAddressArithmetic { bname: b }),
        (Value::GCTombstone, _) => Err(RuntimeError::ReadFromGCedData),
        (_, Value::GCTombstone) => Err(RuntimeError::ReadFromGCedData),
        (Value::Data(n1), Value::Data(n2)) => binop(op, n1, n2),
    }
}

/// The address of element `off` of the array at `base`, for a write when
/// `write` holds and for a read otherwise.
pub open spec fn element_spec(base: Value, off: Value, write: bool) -> Result<u64, RuntimeError> {
    match base {
        Value::CodePtr(b) => Err(RuntimeError::AccessingCodeInMemory { bname: b }),
        Value::GCTombstone => if write {
            Err(RuntimeError::WriteToGCedData)
        } else {
            Err(RuntimeError::ReadFromGCedData)
        },
        Value::Data(n) => match off {
            Value::CodePtr(b) => Err(RuntimeError::AccessingCodeInMemory { bname: b }),
            Value::GCTombstone => Err(RuntimeError::ReadFromGCedData),
            Value::Data(k) => Ok(((n + 8 * k) % crate::eval::word_range()) as u64),
        },
    }
}

pub fn element_address(base: Value, off: Value, write: bool) -> (r: Result<u64, RuntimeError>)
    ensures
        r == element_spec(base, off, write),
{
    match base {
        Value::CodePtr(b) => Err(RuntimeError::AccessingCodeInMemory { bname: b }),
        Value::GCTombstone => if write {
            Err(RuntimeError::WriteToGCedData)
        } else {
            Err(RuntimeError::ReadFromGCedData)
        },
        Value::Data(n) => match off {
            Value::CodePtr(b) => Err(RuntimeError::AccessingCodeInMemory { bname: b }),
            Value::GCTombstone => Err(RuntimeError::ReadFromGCedData),
            Value::Data(k) => {
                let scaled = k.wrapping_mul(8);
                proof {
                    assert(scaled == (k * 8) % crate::eval::word_range());
                    vstd::arithmetic::div_mod::lemma_add_mod_noop_right(
                        n as int,
                        8 * k,
                        crate::eval::word_range(),
                    );
                }
                Ok(n.wrapping_add(scaled))
            },
        },
    }
}

/// The block that `If` goes to: only the word 0 is false.
pub open spec fn branch_spec(v: Value, tblock: Name, fblock: Name) -> Name {
    if v == Value::Data(0) {
        fblock
    } else {
        tblock
    }
}

pub fn branch_target(v: Value, tblock: Name, fblock: Name) -> (r: Name)
    ensures
        r == branch_spec(v, tblock, fblock),
{
    match v {
        Value::Data(0) => fblock,
        _ => tblock,
    }
}

/// The position of the first option of a phi that names `pred`.
pub open spec fn phi_choice(opts: Seq<(Name, IRExpr)>, pred: Name, i: int) -> bool {
    &&& 0 <= i < opts.len()
    &&& opts[i].0 == pred
    &&& forall|j: int| 0 <= j < i ==> opts[j].0 != pred
}

pub fn phi_source(opts: &Vec<(Name, IRExpr)>, pred: Name) -> (r: Option<usize>)
    ensures
        match r {
            Some(i) => phi_choice(opts@, pred, i as int),
            None => forall|j: int| 0 <= j < opts@.len() ==> opts@[j].0 != pred,
        },
{
    let mut i: usize = 0;
    while i < opts.len()
        invariant
            i <= opts@.len(),
            forall|j: int| 0 <= j < i ==> opts@[j].0 != pred,
        decreases opts@.len() - i,
    {
        if opts[i].0 == pred {
            return Some(i);
        }
        i = i + 1;
    }
    None
}

/// The locals of a fresh activation: formal `i` bound to value `i`, in order.
pub open spec fn bind_spec(formals: Seq<Name>, vals: Seq<Value>) -> Map<Name, Value>
    decreases formals.len(),
{
    if formals.len() == 0 || vals.len() == 0 {
        Map::empty()
    } else {
        bind_spec(formals.drop_last(), vals.drop_last()).insert(formals.last(), vals.last())
    }
}

/// Binds each formal to the value at the same position.
pub fn bind_formals(formals: &Vec<Name>, vals: &Vec<Value>) -> (r: Locals)
    requires
        formals@.len() == vals@.len(),
    ensures
        r.wf(),
        r@ == bind_spec(formals@, vals@),
{
    let mut l = Locals::new();
    let mut i: usize = 0;
    while i < formals.len()
        invariant
            formals@.len() == vals@.len(),
            i <= formals@.len(),
            l.wf(),
            l@ == bind_spec(formals@.take(i as int), vals@.take(i as int)),
        decreases formals@.len() - i,
    {
        let _ = set_var(&mut l, formals[i], vals[i]);
        proof {
            assert(formals@.take(i + 1).drop_last() =~= formals@.take(i as int));
            assert(vals@.take(i + 1).drop_last() =~= vals@.take(i as int));
        }
        i = i + 1;
    }
    proof {
        assert(formals@.take(i as int) =~= formals@);
        assert(vals@.take(i as int) =~= vals@);
    }
    l
}

/// One activation: where it stands and its variables.
pub struct Frame {
    /// The block being run.
    pub block: Name,
    /// The next instruction of that block; past the last, the terminator.
    pub pc: usize,
    /// The block that control came from, if any.
    pub prev: Option<Name>,
    pub locals: Locals,
    /// The caller's variable that receives what this activation returns.
    pub dest: Name,
}

/// What running one instruction or terminator asks of the frame stack.
enum Action {
    Next,
    Print(Value),
    Call(Frame),
    Return(Value),
    Fail,
}

/// What one step did, for the loop that drives the machine.
#[derive(Debug, Clone, Copy, PartialEq, Eq, Structural)]
pub enum Event {
    /// An instruction or a transfer ran; nothing to show.
    Continue,
    /// A `Print` produced this value.
    Print(Value),
    /// The entry activation returned this value; the run is over.
    Done(Value),
    /// The terminator of this block is `Fail`.
    Fail(Name),
}

/// The counters after `instr` has run to completion.
pub open spec fn counted(instr: IRStatement, s: ExecStats) -> ExecStats {
    match instr {
        IRStatement::Print { .. } => ExecStats { prints: bump(s.prints), ..s },
        IRStatement::Alloc { .. } => ExecStats { allocs: bump(s.allocs), ..s },
        IRStatement::VarAssign { .. } => ExecStats { fast_alu_ops: bump(s.fast_alu_ops), ..s },
        IRStatement::Phi { .. } => ExecStats { phis: bump(s.phis), ..s },
        IRStatement::Call { .. } => ExecStats { calls: bump(s.calls), ..s },
        IRStatement::SetElt { .. } => ExecStats {
            slow_alu_ops: bump(s.slow_alu_ops),
            fast_alu_ops: bump(s.fast_alu_ops),
            mem_writes: bump(s.mem_writes),
            ..s
        },
        IRStatement::GetElt { .. } => ExecStats {
            slow_alu_ops: bump(s.slow_alu_ops),
            fast_alu_ops: bump(s.fast_alu_ops),
            mem_reads: bump(s.mem_reads),
            ..s
        },
        IRStatement::Load { .. } => ExecStats { mem_reads: bump(s.mem_reads), ..s },
        IRStatement::Store { .. } => ExecStats { mem_writes: bump(s.mem_writes), ..s },
        IRStatement::Op { op, .. } => if is_slow(op) {
            ExecStats { slow_alu_ops: bump(s.slow_alu_ops), ..s }
        } else {
            ExecStats { fast_alu_ops: bump(s.fast_alu_ops), ..s }
        },
    }
}

/// The heap after a successful write of `v` at `a`.
pub open spec fn stored(m: MemState, a: u64, v: Value) -> MemState {
    MemState { cells: m.cells.insert(a, v), ..m }
}

/// The heap and locals after an instruction that neither allocates nor
/// calls, or the error that it stops with.
pub open spec fn simple_step(
    blocks: Seq<BasicBlock>,
    g: Map<Name, u64>,
    m: MemState,
    l: Map<Name, Value>,
    prev: Option<Name>,
    instr: IRStatement,
) -> Result<(MemState, Map<Name, Value>), RuntimeError> {
    match instr {
        IRStatement::Print { out } => match expr_spec(l, g, blocks, out) {
            Ok(_) => Ok((m, l)),
            Err(e) => Err(e),
        },
        IRStatement::VarAssign { lhs, rhs } => match expr_spec(l, g, blocks, rhs) {
            Ok(v) => Ok((m, l.insert(lhs, v))),
            Err(e) => Err(e),
        },
        IRStatement::Phi { lhs, opts } => match prev {
            None => Err(RuntimeError::PhiInFirstBlock),
            Some(p) => if exists|i: int| phi_choice(opts@, p, i) {
                let i = choose|i: int| phi_choice(opts@, p, i);
                match expr_spec(l, g, blocks, opts@[i].1) {
                    Ok(v) => Ok((m, l.insert(lhs, v))),
                    Err(e) => Err(e),
                }
            } else {
                Err(RuntimeError::BadPhiPredecessor { actual_predecessor: p })
            },
        },
        IRStatement::SetElt { base, offset, val } => match expr_spec(l, g, blocks, base) {
            Err(e) => Err(e),
            Ok(vb) => match expr_spec(l, g, blocks, offset) {
                Err(e) => Err(e),
                Ok(vo) => match expr_spec(l, g, blocks, val) {
                    Err(e) => Err(e),
                    Ok(v) => match element_spec(vb, vo, true) {
                        Err(e) => Err(e),
                        Ok(a) => match m.store(a) {
                            Err(e) => Err(e),
                            Ok(_) => Ok((stored(m, a, v), l)),
                        },
                    },
                },
            },
        },
        IRStatement::GetElt { lhs, base, offset } => match expr_spec(l, g, blocks, base) {
            Err(e) => Err(e),
            Ok(vb) => match expr_spec(l, g, blocks, offset) {
                Err(e) => Err(e),
                Ok(vo) => match element_spec(vb, vo, false) {
                    Err(e) => Err(e),
                    Ok(a) => match m.lookup(a) {
                        Err(e) => Err(e),
                        Ok(v) => Ok((m, l.insert(lhs, v))),
                    },
                },
            },
        },
        IRStatement::Load { lhs, base } => match expr_spec(l, g, blocks, base) {
            Err(e) => Err(e),
            Ok(Value::CodePtr(b)) => Err(RuntimeError::AccessingCodeInMemory { bname: b }),
            Ok(Value::GCTombstone) => Err(RuntimeError::ReadFromGCedData),
            Ok(Value::Data(a)) => match m.lookup(a) {
                Err(e) => Err(e),
                Ok(v) => Ok((m, l.insert(lhs, v))),
            },
        },
        IRStatement::Store { base, val } => match expr_spec(l, g, blocks, base) {
            Err(e) => Err(e),
            Ok(vb) => match expr_spec(l, g, blocks, val) {
                Err(e) => Err(e),
                Ok(v) => match vb {
                    Value::CodePtr(b) => Err(RuntimeError::AccessingCodeInMemory { bname: b }),
                    Value::GCTombstone => Err(RuntimeError::WriteToGCedData),
                    Value::Data(a) => match m.store(a) {
                        Err(e) => Err(e),
                        Ok(_) => Ok((stored(m, a, v), l)),
                    },
                },
            },
        },
        IRStatement::Op { lhs, arg1, op, arg2 } => match expr_spec(l, g, blocks, arg1) {
            Err(e) => Err(e),
            Ok(v1) => match expr_spec(l, g, blocks, arg2) {
                Err(e) => Err(e),
                Ok(v2) => match op_spec(v1, op, v2) {
                    Err(e) => Err(e),
                    Ok(n) => Ok((m, l.insert(lhs, Value::Data(n)))),
                },
            },
        },
        IRStatement::Alloc { .. } => Err(RuntimeError::NYI),
        IRStatement::Call { .. } => Err(RuntimeError::NYI),
    }
}

/// The values of the arguments of a call.
pub open spec fn arg_values(
    l: Map<Name, Value>,
    g: Map<Name, u64>,
    blocks: Seq<BasicBlock>,
    args: Seq<IRExpr>,
) -> Seq<Value> {
    args.map_values(|e: IRExpr| expr_spec(l, g, blocks, e)->Ok_0)
}

proof fn lemma_phi_choice_unique(opts: Seq<(Name, IRExpr)>, p: Name, i: int, j: int)
    requires
        phi_choice(opts, p, i),
        phi_choice(opts, p, j),
    ensures
        i == j,
{
    if i < j {
        assert(opts[i].0 != p);
    } else if j < i {
        assert(opts[j].0 != p);
    }
}

/// Argument `j` is the first argument of a call whose value is an error.
pub open spec fn first_arg_err(
    l: Map<Name, Value>,
    g: Map<Name, u64>,
    blocks: Seq<BasicBlock>,
    args: Seq<IRExpr>,
    j: int,
) -> bool {
    &&& 0 <= j < args.len()
    &&& expr_spec(l, g, blocks, args[j]) is Err
    &&& forall|k: int| 0 <= k < j ==> expr_spec(l, g, blocks, args[k]) is Ok
}

/// Once the callee and the arity are right: the receiver's error, else the
/// first argument's error, else success (`ok`).
pub open spec fn call_args_outcome<A>(
    l: Map<Name, Value>,
    g: Map<Name, u64>,
    blocks: Seq<BasicBlock>,
    receiver: IRExpr,
    args: Seq<IRExpr>,
    ok: bool,
    r: Result<A, RuntimeError>,
) -> bool {
    match expr_spec(l, g, blocks, receiver) {
        Err(e) => r == Err::<A, RuntimeError>(e),
        Ok(_) => {
            &&& forall|j: int| #[trigger] first_arg_err(l, g, blocks, args, j)
                ==> r == Err::<A, RuntimeError>(expr_spec(l, g, blocks, args[j])->Err_0)
            &&& (forall|j: int| 0 <= j < args.len() ==> expr_spec(l, g, blocks, #[trigger] args[j]) is Ok) ==> ok
        },
    }
}

/// Runs one instruction in frame `f`.
fn exec_instr(
    prog: &IRProgram,
    mem: &mut Memory,
    globs: &Globals,
    f: &mut Frame,
    instr: &IRStatement,
    stats: &mut ExecStats,
) -> (r: Result<Action, RuntimeError>)
    requires
        old(mem)@.wf(),
        old(f).locals.wf(),
    ensures
        final(mem)@.wf(),
        final(f).locals.wf(),
        final(f).block == old(f).block,
        final(f).pc == old(f).pc,
        final(f).prev == old(f).prev,
        final(f).dest == old(f).dest,
        final(mem)@.first_writable == old(mem)@.first_writable,
        old(stats).le(*final(stats)),
        r matches Ok(Action::Call(c)) ==> c.locals.wf(),
        !(instr is Alloc) && r is Err ==> final(mem)@ == old(mem)@ && final(f).locals == old(f).locals,
        (instr is Print || instr is VarAssign || instr is Op || instr is Call || instr is Alloc) && r is Err
            ==> *final(stats) == *old(stats),
        !(instr is Alloc) && !(instr is Call) ==> ({
            let out = simple_step(
                prog.blocks@,
                globs@,
                old(mem)@,
                old(f).locals@,
                old(f).prev,
                *instr,
            );
            &&& (r is Ok <==> out is Ok)
            &&& out matches Err(e) ==> r == Err::<Action, RuntimeError>(e)
            &&& out matches Ok((m1, l1)) ==> {
                &&& final(mem)@ == m1
                &&& final(f).locals@ == l1
                &&& *final(stats) == counted(*instr, *old(stats))
                &&& instr matches IRStatement::Print { out: e } ==> (r matches Ok(Action::Print(v))
                    && Ok::<Value, RuntimeError>(v) == expr_spec(old(f).locals@, globs@, prog.blocks@, *e))
                &&& !(instr is Print) ==> (r matches Ok(Action::Next))
            }
        }),
        instr matches IRStatement::Alloc { lhs, slots } ==> ({
            let m0 = old(mem)@;
            &&& r is Ok ==> (r matches Ok(Action::Next)) && *final(stats) == counted(*instr, *old(stats))
                && final(f).locals@.contains_key(*lhs) && final(f).locals@[*lhs] == Value::Data(
                (final(mem)@.next_alloc - 8 * *slots) as u64,
            )
            &&& r != Err::<Action, RuntimeError>(RuntimeError::GCRequired)
            &&& (m0.needs_gc(*slots) && (forall|k: Name| #[trigger] old(f).locals@.contains_key(k)
                ==> old(f).locals@[k] is CodePtr) && *slots + 1 <= cap_of(m0.slot_cap) && m0.next_alloc
                + 8 + 8 * *slots <= u64::MAX) ==> r is Ok
            &&& m0.needs_gc(*slots) && r is Ok ==> {
                &&& final(mem)@.base == m0.next_alloc
                &&& forall|k: Name| #[trigger] final(f).locals@.contains_key(k) ==> relocated(
                    final(f).locals@[k],
                    final(mem)@.base,
                )
            }
            &&& !m0.needs_gc(*slots) && m0.next_alloc + 8 + 8 * *slots > u64::MAX ==> r
                == Err::<Action, RuntimeError>(RuntimeError::OutOfMemory)
            &&& !m0.needs_gc(*slots) && m0.next_alloc + 8 + 8 * *slots <= u64::MAX ==> {
                &&& r matches Ok(Action::Next)
                &&& final(f).locals@ == old(f).locals@.insert(*lhs, Value::Data((m0.next_alloc + 8) as u64))
                &&& final(mem)@ == (MemState {
                    cells: m0.zero_fill(m0.next_alloc + 8, *slots as int),
                    next_alloc: (m0.next_alloc + 8 + 8 * *slots) as u64,
                    slots_alloced: (m0.slots_alloced + *slots) as u64,
                    ..m0
                })
            }
        }),
        instr matches IRStatement::Call { lhs, code, receiver, args } ==> ({
            let l = old(f).locals@;
            let c = expr_spec(l, globs@, prog.blocks@, *code);
            &&& match c {
                Err(e) => r == Err::<Action, RuntimeError>(e),
                Ok(Value::CodePtr(b)) => {
                    &&& !has_block(prog.blocks@, b) ==> r == Err::<Action, RuntimeError>(
                        RuntimeError::InvalidBlock { bname: b },
                    )
                    &&& forall|i: int|
                        first_block(prog.blocks@, b, i) && prog.blocks@[i].formals@.len() != args@.len() + 1
                            ==> r == Err::<Action, RuntimeError>(RuntimeError::BadCallArity)
                    &&& forall|i: int|
                        #[trigger] first_block(prog.blocks@, b, i) && prog.blocks@[i].formals@.len() == args@.len() + 1
                            ==> call_args_outcome(l, globs@, prog.blocks@, *receiver, args@, r is Ok, r)
                },
                Ok(_) => r == Err::<Action, RuntimeError>(RuntimeError::CallingNonCode),
            }
            &&& r matches Ok(a) ==> {
                &&& a matches Action::Call(callee)
                &&& c == Ok::<Value, RuntimeError>(Value::CodePtr(callee.block))
                &&& callee.pc == 0
                &&& callee.prev is None
                &&& callee.dest == *lhs
                &&& expr_spec(l, globs@, prog.blocks@, *receiver) is Ok
                &&& forall|j: int| 0 <= j < args@.len() ==> expr_spec(l, globs@, prog.blocks@, #[trigger] args@[j]) is Ok
                &&& forall|i: int| first_block(prog.blocks@, callee.block, i) ==> callee.locals@ == bind_spec(
                    prog.blocks@[i].formals@,
                    seq![expr_spec(l, globs@, prog.blocks@, *receiver)->Ok_0] + arg_values(l, globs@, prog.blocks@, args@),
                )
                &&& final(mem)@ == old(mem)@
                &&& final(f).locals == old(f).locals
                &&& *final(stats) == counted(*instr, *old(stats))
            }
        }),
{
    match instr {
        IRStatement::Print { out } => {
            let v = expr_val(&f.locals, globs, prog, out)?;
            stats.print();
            Ok(Action::Print(v))
        },
        IRStatement::Alloc { lhs, slots } => {
            let addr = match mem.allocate(*slots) {
                Ok(a) => a,
                Err(RuntimeError::GCRequired) => {
                    let ghost l0 = f.locals@;
                    match mem.gc(&mut f.locals) {
                        Ok(()) => {},
                        Err(e) => {
                            return Err(e);
                        },
                    }
                    match mem.allocate(*slots) {
                        Ok(a) => a,
                        Err(RuntimeError::GCRequired) => return Err(RuntimeError::OutOfMemory),
                        Err(e) => return Err(e),
                    }
                },
                Err(e) => return Err(e),
            };
            stats.allocation();
            set_var(&mut f.locals, *lhs, Value::Data(addr))?;
            Ok(Action::Next)
        },
        IRStatement::VarAssign { lhs, rhs } => {
            let v = expr_val(&f.locals, globs, prog, rhs)?;
            stats.fast_op();
            set_var(&mut f.locals, *lhs, v)?;
            Ok(Action::Next)
        },
        IRStatement::Phi { lhs, opts } => {
            let pred = match f.prev {
                None => return Err(RuntimeError::PhiInFirstBlock),
                Some(p) => p,
            };
            stats.phi();
            match phi_source(opts, pred) {
                None => Err(RuntimeError::BadPhiPredecessor { actual_predecessor: pred }),
                Some(i) => {
                    proof {
                        let p = pred;
                        assert(phi_choice(opts@, p, i as int));
                        let c = choose|c: int| phi_choice(opts@, p, c);
                        lemma_phi_choice_unique(opts@, p, i as int, c);
                    }
                    let v = expr_val(&f.locals, globs, prog, &opts[i].1)?;
                    set_var(&mut f.locals, *lhs, v)?;
                    Ok(Action::Next)
                },
            }
        },
        IRStatement::Call { lhs, code, receiver, args } => {
            let vcode = expr_val(&f.locals, globs, prog, code)?;
            let target = match vcode {
                Value::CodePtr(b) => b,
                _ => return Err(RuntimeError::CallingNonCode),
            };
            let bi = match find_block(prog, target) {
                Some(i) => i,
                None => return Err(RuntimeError::InvalidBlock { bname: target }),
            };
            let formals = &prog.blocks[bi].formals;
            if formals.len() == 0 || args.len() != formals.len() - 1 {
                return Err(RuntimeError::BadCallArity);
            }
            proof {
                assert forall|i: int| first_block(prog.blocks@, target, i) implies i == bi by {
                    crate::eval::lemma_first_block_unique(prog.blocks@, target, i, bi as int);
                }
            }
            let vrec = expr_val(&f.locals, globs, prog, receiver)?;
            let mut vals: Vec<Value> = Vec::new();
            vals.push(vrec);
            let mut i: usize = 0;
            while i < args.len()
                invariant
                    i <= args@.len(),
                    vals@.len() == i + 1,
                    vals@[0] == vrec,
                    expr_spec(f.locals@, globs@, prog.blocks@, *code) == Ok::<Value, RuntimeError>(Value::CodePtr(target)),
                    forall|i2: int| first_block(prog.blocks@, target, i2) ==> i2 == bi,
                    first_block(prog.blocks@, target, bi as int),
                    *formals == prog.blocks@[bi as int].formals,
                    formals@.len() == args@.len() + 1,
                    expr_spec(f.locals@, globs@, prog.blocks@, *receiver) == Ok::<Value, RuntimeError>(vrec),
                    forall|j: int| 0 <= j < i ==> expr_spec(f.locals@, globs@, prog.blocks@, #[trigger] args@[j]) == Ok::<Value, RuntimeError>(vals@[j + 1]),
                    f.locals.wf(),
                    *mem == *old(mem),
                    *f == *old(f),
                    *stats == *old(stats),
                    *instr == (IRStatement::Call { lhs: *lhs, code: *code, receiver: *receiver, args: *args }),
                    old(mem)@.wf(),
                decreases args@.len() - i,
            {
                let v = match expr_val(&f.locals, globs, prog, &args[i]) {
                    Ok(v) => v,
                    Err(e) => {
                        proof {
                            assert(first_arg_err(f.locals@, globs@, prog.blocks@, args@, i as int));
                            assert forall|j: int| #[trigger] first_arg_err(f.locals@, globs@, prog.blocks@, args@, j) implies j == i by {
                                if j < i {
                                    assert(expr_spec(f.locals@, globs@, prog.blocks@, args@[j]) is Ok);
                                }
                            }
                            assert forall|i2: int| first_block(prog.blocks@, target, i2) implies i2 == bi by {
                                crate::eval::lemma_first_block_unique(prog.blocks@, target, i2, bi as int);
                            }
                        }
                        return Err(e);
                    },
                };
                vals.push(v);
                i = i + 1;
            }
            proof {
                assert(vals@ =~= seq![vrec] + arg_values(f.locals@, globs@, prog.blocks@, args@));
            }
            let locals = bind_formals(formals, &vals);
            stats.call();
            Ok(Action::Call(Frame { block: target, pc: 0, prev: None, locals, dest: *lhs }))
        },
        IRStatement::SetElt { base, offset, val } => {
            let vbase = expr_val(&f.locals, globs, prog, base)?;
            let voff = expr_val(&f.locals, globs, prog, offset)?;
            let v = expr_val(&f.locals, globs, prog, val)?;
            let a = element_address(vbase, voff, true)?;
            stats.slow_op();
            stats.fast_op();
            stats.write();
            mem.mem_store(a, v)?;
            Ok(Action::Next)
        },
        IRStatement::GetElt { lhs, base, offset } => {
            let vbase = expr_val(&f.locals, globs, prog, base)?;
            let voff = expr_val(&f.locals, globs, prog, offset)?;
            let a = element_address(vbase, voff, false)?;
            stats.slow_op();
            stats.fast_op();
            stats.read();
            let v = mem.mem_lookup(a)?;
            set_var(&mut f.locals, *lhs, v)?;
            Ok(Action::Next)
        },
        IRStatement::Load { lhs, base } => {
            let vbase = expr_val(&f.locals, globs, prog, base)?;
            match vbase {
                Value::CodePtr(b) => Err(RuntimeError::AccessingCodeInMemory { bname: b }),
                Value::GCTombstone => Err(RuntimeError::ReadFromGCedData),
                Value::Data(n) => {
                    stats.read();
                    let v = mem.mem_lookup(n)?;
                    set_var(&mut f.locals, *lhs, v)?;
                    Ok(Action::Next)
                },
            }
        },
        IRStatement::Store { base, val } => {
            let vbase = expr_val(&f.locals, globs, prog, base)?;
            let v = expr_val(&f.locals, globs, prog, val)?;
            match vbase {
                Value::CodePtr(b) => Err(RuntimeError::AccessingCodeInMemory { bname: b }),
                Value::GCTombstone => Err(RuntimeError::WriteToGCedData),
                Value::Data(n) => {
                    stats.write();
                    mem.mem_store(n, v)?;
                    Ok(Action::Next)
                },
            }
        },
        IRStatement::Op { lhs, arg1, op, arg2 } => {
            let v1 = expr_val(&f.locals, globs, prog, arg1)?;
            let v2 = expr_val(&f.locals, globs, prog, arg2)?;
            let n = op_value(v1, *op, v2)?;
            match op {
                BinOp::Mul | BinOp::Div => stats.slow_op(),
                _ => stats.fast_op(),
            }
            set_var(&mut f.locals, *lhs, Value::Data(n))?;
            Ok(Action::Next)
        },
    }
}

/// The counters after a terminator has run to completion.
pub open spec fn xfer_counted(next: ControlXfer, s: ExecStats) -> ExecStats {
    match next {
        ControlXfer::Fail { .. } => s,
        ControlXfer::Ret { .. } => ExecStats { rets: bump(s.rets), ..s },
        ControlXfer::Jump { .. } => ExecStats { unconditional_branches: bump(s.unconditional_branches), ..s },
        ControlXfer::If { .. } => ExecStats { conditional_branches: bump(s.conditional_branches), ..s },
    }
}

/// Moves frame `f` to the start of block `b`, coming from its current block.
fn transfer(prog: &IRProgram, f: &mut Frame, b: Name) -> (r: Result<(), RuntimeError>)
    ensures
        r is Ok <==> has_block(prog.blocks@, b),
        r is Err ==> r == Err::<(), RuntimeError>(RuntimeError::InvalidBlockInControl { bname: b }) && *final(f) == *old(f),
        r is Ok ==> final(f).block == b && final(f).pc == 0 && final(f).prev == Some(old(f).block)
            && final(f).locals == old(f).locals && final(f).dest == old(f).dest,
{
    match find_block(prog, b) {
        None => Err(RuntimeError::InvalidBlockInControl { bname: b }),
        Some(_) => {
            f.prev = Some(f.block);
            f.block = b;
            f.pc = 0;
            Ok(())
        },
    }
}

/// Runs the terminator `next` of frame `f`'s block.
fn exec_xfer(
    prog: &IRProgram,
    globs: &Globals,
    f: &mut Frame,
    next: &ControlXfer,
    stats: &mut ExecStats,
) -> (r: Result<Action, RuntimeError>)
    requires
        old(f).locals.wf(),
    ensures
        final(f).locals == old(f).locals,
        final(f).dest == old(f).dest,
        old(stats).le(*final(stats)),
        r is Ok ==> *final(stats) == xfer_counted(*next, *old(stats)),
        r matches Ok(Action::Return(_)) ==> *final(f) == *old(f),
        r matches Ok(Action::Fail) ==> *final(f) == *old(f),
        (match next {
            ControlXfer::Fail { .. } => r matches Ok(Action::Fail),
            ControlXfer::Ret { val } => match expr_spec(old(f).locals@, globs@, prog.blocks@, *val) {
                Ok(v) => r matches Ok(Action::Return(w)) && w == v,
                Err(e) => r == Err::<Action, RuntimeError>(e),
            },
            ControlXfer::Jump { block } => if has_block(prog.blocks@, *block) {
                r matches Ok(Action::Next) && final(f).block == *block && final(f).pc == 0
                    && final(f).prev == Some(old(f).block)
            } else {
                r == Err::<Action, RuntimeError>(RuntimeError::InvalidBlockInControl { bname: *block })
            },
            ControlXfer::If { cond, tblock, fblock } => match expr_spec(
                old(f).locals@,
                globs@,
                prog.blocks@,
                *cond,
            ) {
                Ok(v) => {
                    let b = branch_spec(v, *tblock, *fblock);
                    if has_block(prog.blocks@, b) {
                        r matches Ok(Action::Next) && final(f).block == b && final(f).pc == 0
                            && final(f).prev == Some(old(f).block)
                    } else {
                        r == Err::<Action, RuntimeError>(RuntimeError::InvalidBlockInControl { bname: b })
                    }
                },
                Err(e) => r == Err::<Action, RuntimeError>(e),
            },
        }),
{
    match next {
        ControlXfer::Fail { .. } => Ok(Action::Fail),
        ControlXfer::Ret { val } => {
            let v = expr_val(&f.locals, globs, prog, val)?;
            stats.ret();
            Ok(Action::Return(v))
        },
        ControlXfer::Jump { block } => {
            transfer(prog, f, *block)?;
            stats.uncond();
            Ok(Action::Next)
        },
        ControlXfer::If { cond, tblock, fblock } => {
            let v = expr_val(&f.locals, globs, prog, cond)?;
            let b = branch_target(v, *tblock, *fblock);
            transfer(prog, f, b)?;
            stats.cond();
            Ok(Action::Next)
        },
    }
}

/// The number of words that the globals of `prog` take, if they fit in
/// memory from address 32 on.
pub fn global_words(prog: &IRProgram) -> (r: Option<u64>)
    ensures
        match r {
            Some(n) => n == flat_globals(prog.globals@).len() && 32 + 8 * n <= u64::MAX,
            None => 32 + 8 * flat_globals(prog.globals@).len() > u64::MAX,
        },
{
    let ghost gs = prog.globals@;
    let mut total: u64 = 0;
    let mut i: usize = 0;
    proof {
        assert(gs.take(0) =~= Seq::<crate::ir::GlobalStatic>::empty());
    }
    while i < prog.globals.len()
        invariant
            gs == prog.globals@,
            i <= gs.len(),
            total == flat_globals(gs.take(i as int)).len(),
            32 + 8 * total <= u64::MAX,
        decreases gs.len() - i,
    {
        proof {
            lemma_flat_step(gs, i as int);
        }
        let n = match &prog.globals[i] {
            crate::ir::GlobalStatic::Array { vals, .. } => vals.len(),
        };
        if n as u64 > (u64::MAX - 32) / 8 - total {
            proof {
                lemma_flat_prefix(gs, i + 1);
            }
            return None;
        }
        total = total + n as u64;
        i = i + 1;
    }
    proof {
        assert(gs.take(i as int) =~= gs);
    }
    Some(total)
}

/// What one step of the machine does: from `o` with counters `so` to `n`
/// with counters `sn`, returning `r`.
pub open spec fn step_spec(prog: &IRProgram, o: Machine, so: ExecStats, n: Machine, sn: ExecStats, r: Result<Event, RuntimeError>) -> bool {
    &&& so.le(sn)
    &&& n.mem_view().first_writable == o.mem_view().first_writable
    &&& o.result_view() matches Some(v) ==> r == Ok::<Event, RuntimeError>(Event::Done(v)) && n == o
        && sn == so
    &&& r matches Ok(Event::Done(v)) ==> n.result_view() == Some(v)
    &&& n.globs_view() == o.globs_view()
    &&& o.result_view() is None ==> {
        let t = o.top();
        if !has_block(prog.blocks@, t.block) {
            r == Err::<Event, RuntimeError>(RuntimeError::InvalidBlock { bname: t.block })
        } else {
            forall|bi: int| #[trigger] first_block(prog.blocks@, t.block, bi) ==> {
                let blk = prog.blocks@[bi];
                if t.pc < blk.instrs@.len() {
                    let instr = blk.instrs@[t.pc as int];
                    &&& !(instr is Alloc) && !(instr is Call) ==> n.after_simple(&o, prog, instr, r)
                    &&& instr is Call ==> n.after_call(&o, prog, instr, r)
                    &&& instr is Alloc ==> n.after_alloc(&o, instr, r)
                    &&& r is Ok ==> sn == counted(instr, so)
                    &&& (instr is Print || instr is VarAssign || instr is Op || instr is Call
                        || instr is Alloc) && r is Err ==> sn == so
                } else {
                    &&& n.after_xfer(&o, prog, blk.next, r)
                    &&& r is Ok ==> sn == xfer_counted(blk.next, so)
                }
            }
        }
    }
}

/// The values that a sequence of events printed, in order.
pub open spec fn prints(es: Seq<Event>) -> Seq<Value>
    decreases es.len(),
{
    if es.len() == 0 {
        Seq::empty()
    } else {
        let p = prints(es.drop_last());
        match es.last() {
            Event::Print(v) => p.push(v),
            _ => p,
        }
    }
}

/// Machines `ms` with counters `ss` follow each other by steps that went on
/// (`Continue` or `Print`), step `i` returning `es[i]`.
pub open spec fn chain(prog: &IRProgram, ms: Seq<Machine>, ss: Seq<ExecStats>, es: Seq<Event>) -> bool {
    &&& ms.len() == es.len() + 1
    &&& ss.len() == es.len() + 1
    &&& forall|i: int|
        0 <= i < es.len() ==> step_spec(prog, ms[i], ss[i], ms[i + 1], ss[i + 1], Ok(#[trigger] es[i]))
            && (es[i] is Continue || es[i] is Print)
}

/// An interpreter run in progress: the heap, the global addresses, the
/// stack of activations and, once the entry activation has returned, its
/// result.
pub struct Machine {
    mem: Memory,
    globs: Globals,
    frames: Vec<Frame>,
    result: Option<Value>,
}

impl Machine {
    pub closed spec fn mem_view(&self) -> MemState {
        self.mem@
    }

    pub closed spec fn frames_view(&self) -> Seq<Frame> {
        self.frames@
    }

    pub closed spec fn result_view(&self) -> Option<Value> {
        self.result
    }

    pub closed spec fn globs_view(&self) -> Map<Name, u64> {
        self.globs@
    }

    /// The innermost activation.
    pub open spec fn top(&self) -> Frame {
        self.frames_view().last()
    }

    /// The first `k` activations of `self` are those of `o`.
    pub open spec fn same_below(&self, o: &Machine, k: int) -> bool {
        forall|i: int| 0 <= i < k ==> #[trigger] self.frames_view()[i] == o.frames_view()[i]
    }

    /// What a step of `self` that ran instruction `instr` of the innermost
    /// activation, without calling, turned `o` into.
    pub open spec fn after_simple(&self, o: &Machine, prog: &IRProgram, instr: IRStatement, r: Result<Event, RuntimeError>) -> bool {
        let t = o.top();
        let n = o.frames_view().len();
        match simple_step(prog.blocks@, o.globs_view(), o.mem_view(), t.locals@, t.prev, instr) {
            Err(e) => r == Err::<Event, RuntimeError>(e) && self.mem_view() == o.mem_view()
                && self.frames_view() == o.frames_view(),
            Ok((m1, l1)) => {
                &&& self.mem_view() == m1
                &&& self.frames_view().len() == n
                &&& self.same_below(o, n - 1)
                &&& self.top().block == t.block
                &&& self.top().pc == t.pc + 1
                &&& self.top().prev == t.prev
                &&& self.top().dest == t.dest
                &&& self.top().locals@ == l1
                &&& self.result_view() is None
                &&& match instr {
                    IRStatement::Print { out } => r matches Ok(Event::Print(v))
                        && Ok::<Value, RuntimeError>(v) == expr_spec(t.locals@, o.globs_view(), prog.blocks@, out),
                    _ => r == Ok::<Event, RuntimeError>(Event::Continue),
                }
            },
        }
    }

    /// What a step of `self` that ran terminator `next` of the innermost
    /// activation turned `o` into.
    pub open spec fn after_xfer(&self, o: &Machine, prog: &IRProgram, next: ControlXfer, r: Result<Event, RuntimeError>) -> bool {
        let t = o.top();
        let n = o.frames_view().len();
        let ev = |e: IRExpr| expr_spec(t.locals@, o.globs_view(), prog.blocks@, e);
        &&& self.mem_view() == o.mem_view()
        &&& match next {
            ControlXfer::Fail { .. } => r == Ok::<Event, RuntimeError>(Event::Fail(t.block)),
            ControlXfer::Ret { val } => match ev(val) {
                Err(e) => r == Err::<Event, RuntimeError>(e),
                Ok(v) => if n == 1 {
                    r == Ok::<Event, RuntimeError>(Event::Done(v)) && self.result_view() == Some(v)
                        && self.frames_view().len() == 0
                } else {
                    &&& r == Ok::<Event, RuntimeError>(Event::Continue)
                    &&& self.frames_view().len() == n - 1
                    &&& self.same_below(o, n - 2)
                    &&& self.top().block == o.frames_view()[n - 2].block
                    &&& self.top().pc == o.frames_view()[n - 2].pc
                    &&& self.top().prev == o.frames_view()[n - 2].prev
                    &&& self.top().locals@ == o.frames_view()[n - 2].locals@.insert(t.dest, v)
                },
            },
            ControlXfer::Jump { block } => self.after_transfer(o, prog, block, r),
            ControlXfer::If { cond, tblock, fblock } => match ev(cond) {
                Err(e) => r == Err::<Event, RuntimeError>(e),
                Ok(v) => self.after_transfer(o, prog, branch_spec(v, tblock, fblock), r),
            },
        }
    }

    /// What a step of `self` that ran `Call` instruction `instr` of the
    /// innermost activation turned `o` into.
    pub open spec fn after_call(&self, o: &Machine, prog: &IRProgram, instr: IRStatement, r: Result<Event, RuntimeError>) -> bool {
        let t = o.top();
        let n = o.frames_view().len();
        let l = t.locals@;
        let g = o.globs_view();
        match instr {
            IRStatement::Call { lhs, code, receiver, args } => match expr_spec(l, g, prog.blocks@, code) {
                Err(e) => r == Err::<Event, RuntimeError>(e),
                Ok(Value::CodePtr(b)) => {
                    &&& !has_block(prog.blocks@, b) ==> r == Err::<Event, RuntimeError>(
                        RuntimeError::InvalidBlock { bname: b },
                    )
                    &&& forall|i: int|
                        first_block(prog.blocks@, b, i) && prog.blocks@[i].formals@.len() != args@.len() + 1
                            ==> r == Err::<Event, RuntimeError>(RuntimeError::BadCallArity)
                    &&& forall|i: int|
                        #[trigger] first_block(prog.blocks@, b, i) && prog.blocks@[i].formals@.len() == args@.len() + 1
                            ==> call_args_outcome(l, g, prog.blocks@, receiver, args@, r is Ok, r)
                    &&& r is Ok ==> {
                        &&& r == Ok::<Event, RuntimeError>(Event::Continue)
                        &&& self.mem_view() == o.mem_view()
                        &&& self.frames_view().len() == n + 1
                        &&& self.same_below(o, n - 1)
                        &&& self.frames_view()[n - 1].block == t.block
                        &&& self.frames_view()[n - 1].pc == t.pc + 1
                        &&& self.frames_view()[n - 1].prev == t.prev
                        &&& self.frames_view()[n - 1].locals == t.locals
                        &&& self.top().block == b
                        &&& self.top().pc == 0
                        &&& self.top().prev is None
                        &&& self.top().dest == lhs
                        &&& forall|i: int| first_block(prog.blocks@, b, i) ==> self.top().locals@ == bind_spec(
                            prog.blocks@[i].formals@,
                            seq![expr_spec(l, g, prog.blocks@, receiver)->Ok_0] + arg_values(l, g, prog.blocks@, args@),
                        )
                    }
                },
                Ok(_) => r == Err::<Event, RuntimeError>(RuntimeError::CallingNonCode),
            },
            _ => true,
        }
    }

    /// What a step of `self` that ran `Alloc` instruction `instr` of the
    /// innermost activation turned `o` into, where no collection was needed.
    pub open spec fn after_alloc(&self, o: &Machine, instr: IRStatement, r: Result<Event, RuntimeError>) -> bool {
        let t = o.top();
        let n = o.frames_view().len();
        let m0 = o.mem_view();
        match instr {
            IRStatement::Alloc { lhs, slots } => {
                &&& r is Ok ==> r == Ok::<Event, RuntimeError>(Event::Continue) && self.frames_view().len() == n
                    && self.top().pc == t.pc + 1 && self.top().locals@.contains_key(lhs)
                    && self.top().locals@[lhs] == Value::Data((self.mem_view().next_alloc - 8 * slots) as u64)
                &&& r != Err::<Event, RuntimeError>(RuntimeError::GCRequired)
                &&& (m0.needs_gc(slots) && (forall|k: Name| #[trigger] t.locals@.contains_key(k)
                    ==> t.locals@[k] is CodePtr) && slots + 1 <= cap_of(m0.slot_cap) && m0.next_alloc
                    + 8 + 8 * slots <= u64::MAX) ==> r is Ok
                &&& m0.needs_gc(slots) && r is Ok ==> {
                    &&& self.mem_view().base == m0.next_alloc
                    &&& forall|k: Name| #[trigger] self.top().locals@.contains_key(k) ==> relocated(
                        self.top().locals@[k],
                        self.mem_view().base,
                    )
                }
                &&& !m0.needs_gc(slots) && m0.next_alloc + 8 + 8 * slots > u64::MAX ==> r
                    == Err::<Event, RuntimeError>(RuntimeError::OutOfMemory)
                &&& !m0.needs_gc(slots) && m0.next_alloc + 8 + 8 * slots <= u64::MAX ==> {
                    &&& r == Ok::<Event, RuntimeError>(Event::Continue)
                    &&& self.same_below(o, n - 1)
                    &&& self.top().block == t.block
                    &&& self.top().prev == t.prev
                    &&& self.top().locals@ == t.locals@.insert(lhs, Value::Data((m0.next_alloc + 8) as u64))
                    &&& self.mem_view() == (MemState {
                        cells: m0.zero_fill(m0.next_alloc + 8, slots as int),
                        next_alloc: (m0.next_alloc + 8 + 8 * slots) as u64,
                        slots_alloced: (m0.slots_alloced + slots) as u64,
                        ..m0
                    })
                }
            },
            _ => true,
        }
    }

    /// The innermost activation of `o` went on to the start of block `b`.
    pub open spec fn after_transfer(&self, o: &Machine, prog: &IRProgram, b: Name, r: Result<Event, RuntimeError>) -> bool {
        let t = o.top();
        let n = o.frames_view().len();
        if has_block(prog.blocks@, b) {
            &&& r == Ok::<Event, RuntimeError>(Event::Continue)
            &&& self.frames_view().len() == n
            &&& self.same_below(o, n - 1)
            &&& self.top().block == b
            &&& self.top().pc == 0
            &&& self.top().prev == Some(t.block)
            &&& self.top().locals == t.locals
        } else {
            r == Err::<Event, RuntimeError>(RuntimeError::InvalidBlockInControl { bname: b })
        }
    }

    pub open spec fn wf(&self) -> bool {
        &&& self.mem_view().wf()
        &&& forall|i: int| 0 <= i < self.frames_view().len() ==> #[trigger] self.frames_view()[i].locals.wf()
        &&& (self.result_view() is None <==> self.frames_view().len() > 0)
    }

    /// Lays out the globals and makes an activation of block `entry` with
    /// no variables.
    pub fn start(prog: &IRProgram, entry: Name, cap: Option<u64>) -> (r: Result<Machine, RuntimeError>)
        ensures
            !has_block(prog.blocks@, entry) ==> r == Err::<Machine, RuntimeError>(RuntimeError::MissingMain),
            has_block(prog.blocks@, entry) && 32 + 8 * flat_globals(prog.globals@).len() > u64::MAX
                ==> r == Err::<Machine, RuntimeError>(RuntimeError::OutOfMemory),
            has_block(prog.blocks@, entry) && 32 + 8 * flat_globals(prog.globals@).len() <= u64::MAX
                ==> r is Ok,
            r matches Ok(m) ==> {
                let end = 32 + 8 * flat_globals(prog.globals@).len();
                &&& m.wf()
                &&& m.mem_view().cells == laid_out(flat_globals(prog.globals@))
                &&& m.mem_view().first_writable == end
                &&& m.mem_view().base == end
                &&& m.mem_view().next_alloc == end
                &&& m.mem_view().slot_cap == cap
                &&& m.mem_view().slots_alloced == 0
                &&& m.result_view() is None
                &&& m.frames_view().len() == 1
                &&& m.frames_view()[0].block == entry
                &&& m.frames_view()[0].pc == 0
                &&& m.frames_view()[0].prev is None
                &&& m.frames_view()[0].locals@ == Map::<Name, Value>::empty()
            },
    {
        if find_block(prog, entry).is_none() {
            return Err(RuntimeError::MissingMain);
        }
        if global_words(prog).is_none() {
            return Err(RuntimeError::OutOfMemory);
        }
        let (mem, globs) = Memory::new(prog, cap);
        let mut frames: Vec<Frame> = Vec::new();
        frames.push(Frame { block: entry, pc: 0, prev: None, locals: Locals::new(), dest: entry });
        Ok(Machine { mem, globs, frames, result: None })
    }

    pub fn memory(&self) -> (r: &Memory)
        ensures
            r@ == self.mem_view(),
    {
        &self.mem
    }

    pub fn globals(&self) -> (r: &Globals)
        ensures
            r@ == self.globs_view(),
    {
        &self.globs
    }

    /// The result of the entry activation, once it has returned.
    pub fn result(&self) -> (r: Option<Value>)
        ensures
            r == self.result_view(),
    {
        self.result
    }

    /// The block and instruction index that the next step runs.
    pub fn position(&self) -> (r: Option<(Name, usize)>)
        ensures
            self.frames_view().len() == 0 ==> r is None,
            self.frames_view().len() > 0 ==> r == Some(
                (self.frames_view().last().block, self.frames_view().last().pc),
            ),
    {
        if self.frames.len() == 0 {
            None
        } else {
            let f = &self.frames[self.frames.len() - 1];
            Some((f.block, f.pc))
        }
    }

    /// The variables of the innermost activation.
    pub fn current_locals(&self) -> (r: Option<&Locals>)
        ensures
            self.frames_view().len() == 0 ==> r is None,
            self.frames_view().len() > 0 ==> r == Some(&self.frames_view().last().locals),
    {
        if self.frames.len() == 0 {
            None
        } else {
            Some(&self.frames[self.frames.len() - 1].locals)
        }
    }

    /// Runs one instruction or one terminator of the innermost activation.
    /// A call pushes an activation; a return pops one and binds the result
    /// in the caller, or ends the run when the entry activation returns.
    pub fn step(&mut self, prog: &IRProgram, stats: &mut ExecStats) -> (r: Result<Event, RuntimeError>)
        requires
            old(self).wf(),
        ensures
            final(self).wf(),
            step_spec(prog, *old(self), *old(stats), *final(self), *final(stats), r),
    {
        if let Some(v) = self.result {
            return Ok(Event::Done(v));
        }
        let mut f = match self.frames.pop() {
            Some(f) => f,
            None => return Err(RuntimeError::MissingMain),
        };
        proof {
            assert(f.locals.wf()) by {
                assert(old(self).frames_view()[old(self).frames_view().len() - 1] == f);
            }
            assert forall|i: int| 0 <= i < self.frames@.len() implies #[trigger] self.frames@[i].locals.wf() by {
                assert(self.frames@[i] == old(self).frames@[i]);
            }
        }
        let bi = match find_block(prog, f.block) {
            Some(i) => i,
            None => {
                let b = f.block;
                self.frames.push(f);
                return Err(RuntimeError::InvalidBlock { bname: b });
            },
        };
        let blk = &prog.blocks[bi];
        let pc = f.pc;
        let in_body = pc < blk.instrs.len();
        let ghost f0 = f;
        let act = if in_body {
            exec_instr(prog, &mut self.mem, &self.globs, &mut f, &blk.instrs[pc], stats)
        } else {
            exec_xfer(prog, &self.globs, &mut f, &blk.next, stats)
        };
        match act {
            Err(e) => {
                proof {
                    if f.block == f0.block && f.pc == f0.pc && f.prev == f0.prev && f.dest == f0.dest
                        && f.locals == f0.locals {
                        assert(f == f0);
                        assert(self.frames@.push(f) =~= old(self).frames@);
                    }
                }
                self.frames.push(f);
                Err(e)
            },
            Ok(Action::Next) => {
                if in_body {
                    f.pc = pc + 1;
                }
                self.frames.push(f);
                Ok(Event::Continue)
            },
            Ok(Action::Print(v)) => {
                if in_body {
                    f.pc = pc + 1;
                }
                self.frames.push(f);
                Ok(Event::Print(v))
            },
            Ok(Action::Call(callee)) => {
                if in_body {
                    f.pc = pc + 1;
                }
                self.frames.push(f);
                self.frames.push(callee);
                Ok(Event::Continue)
            },
            Ok(Action::Return(v)) => {
                match self.frames.pop() {
                    None => {
                        self.result = Some(v);
                        Ok(Event::Done(v))
                    },
                    Some(mut caller) => {
                        proof {
                            assert(old(self).frames_view()[self.frames@.len() as int] == caller);
                            assert forall|i: int| 0 <= i < self.frames@.len() implies #[trigger] self.frames@[i].locals.wf() by {
                                assert(self.frames@[i] == old(self).frames@[i]);
                            }
                        }
                        let _ = set_var(&mut caller.locals, f.dest, v);
                        self.frames.push(caller);
                        Ok(Event::Continue)
                    },
                }
            },
            Ok(Action::Fail) => {
                let b = f.block;
                self.frames.push(f);
                Ok(Event::Fail(b))
            },
        }
    }

    /// Steps until the run ends, a terminator fails or `fuel` steps have
    /// been taken. Printed values are appended to `out`. Returns the last
    /// event: `Done`, `Fail`, or `Continue` when the fuel ran out.
    pub fn run_steps(
        &mut self,
        prog: &IRProgram,
        stats: &mut ExecStats,
        fuel: u64,
        out: &mut Vec<Value>,
    ) -> (r: Result<Event, RuntimeError>)
        requires
            old(self).wf(),
        ensures
            final(self).wf(),
            old(stats).le(*final(stats)),
            final(self).mem_view().first_writable == old(self).mem_view().first_writable,
            r matches Ok(Event::Done(v)) ==> final(self).result_view() == Some(v),
            !(r matches Ok(Event::Print(_))),
            fuel > 0 && old(self).result_view() is Some ==> r == Ok::<Event, RuntimeError>(
                Event::Done(old(self).result_view()->Some_0),
            ),
            exists|ms: Seq<Machine>, ss: Seq<ExecStats>, es: Seq<Event>|
                #[trigger] chain(prog, ms, ss, es) && {
                    &&& ms[0] == *old(self)
                    &&& ss[0] == *old(stats)
                    &&& final(out)@ == old(out)@ + prints(es)
                    &&& r == Ok::<Event, RuntimeError>(Event::Continue) ==> es.len() == fuel && ms.last()
                        == *final(self) && ss.last() == *final(stats)
                    &&& r != Ok::<Event, RuntimeError>(Event::Continue) ==> es.len() < fuel && step_spec(
                        prog,
                        ms.last(),
                        ss.last(),
                        *final(self),
                        *final(stats),
                        r,
                    )
                },
    {
        let mut n: u64 = 0;
        let ghost mut ms: Seq<Machine> = seq![*self];
        let ghost mut ss: Seq<ExecStats> = seq![*stats];
        let ghost mut es: Seq<Event> = Seq::empty();
        proof {
            assert(old(out)@ + prints(es) =~= out@);
        }
        while n < fuel
            invariant
                self.wf(),
                old(stats).le(*stats),
                self.mem_view().first_writable == old(self).mem_view().first_writable,
                n <= fuel,
                chain(prog, ms, ss, es),
                es.len() == n,
                ms[0] == *old(self),
                ss[0] == *old(stats),
                ms.last() == *self,
                ss.last() == *stats,
                out@ == old(out)@ + prints(es),
                old(self).result_view() is Some ==> n == 0 && *self == *old(self) && *stats == *old(stats),
            decreases fuel - n,
        {
            let e = self.step(prog, stats);
            match e {
                Ok(Event::Continue) => {},
                Ok(Event::Print(v)) => {
                    out.push(v);
                },
                _ => {
                    assert(chain(prog, ms, ss, es));
                    return e;
                },
            }
            proof {
                let ev = e->Ok_0;
                let es2 = es.push(ev);
                assert(es2.drop_last() =~= es);
                assert(out@ =~= old(out)@ + prints(es2));
                let ms2 = ms.push(*self);
                let ss2 = ss.push(*stats);
                assert forall|i: int| 0 <= i < es2.len() implies step_spec(prog, ms2[i], ss2[i], ms2[i + 1], ss2[i + 1], Ok(#[trigger] es2[i]))
                    && (es2[i] is Continue || es2[i] is Print) by {
                    if i < es.len() {
                        assert(es2[i] == es[i]);
                        assert(ms2[i] == ms[i] && ms2[i + 1] == ms[i + 1]);
                        assert(ss2[i] == ss[i] && ss2[i + 1] == ss[i + 1]);
                    }
                }
                ms = ms2;
                ss = ss2;
                es = es2;
            }
            n = n + 1;
        }
        Ok(Event::Continue)
    }
}

} // verus!
