use ir441::exec::{Event, Machine};
use ir441::ir::{BasicBlock, BinOp, ControlXfer, GlobalStatic, IRExpr, IRProgram, IRStatement};
use ir441::stats::ExecStats;
use ir441::value::{Name, RuntimeError, Value};

const MAIN: Name = 1;
const T: Name = 2;
const F: Name = 3;
const JOIN: Name = 4;
const BB: Name = 5;
const FOO: Name = 6;
const X: Name = 10;
const Y: Name = 11;
const P: Name = 12;
const V: Name = 13;
const C: Name = 14;
const R: Name = 15;
const SELF: Name = 16;
const TMP: Name = 17;
const LEAF: Name = 18;
const ROOT: Name = 19;
const W: Name = 20;

fn lit(n: u64) -> IRExpr {
    IRExpr::IntLit { val: n }
}

fn var(id: Name) -> IRExpr {
    IRExpr::Var { id }
}

fn block(name: Name, instrs: Vec<IRStatement>, next: ControlXfer) -> BasicBlock {
    BasicBlock { name, formals: vec![], instrs, next }
}

fn op(lhs: Name, a: IRExpr, o: BinOp, b: IRExpr) -> IRStatement {
    IRStatement::Op { lhs, arg1: a, op: o, arg2: b }
}

fn ret(e: IRExpr) -> ControlXfer {
    ControlXfer::Ret { val: e }
}

fn run(prog: &IRProgram, cap: Option<u64>, stats: &mut ExecStats) -> (Result<Event, RuntimeError>, Machine) {
    let mut m = Machine::start(prog, MAIN, cap).unwrap();
    let mut out = Vec::new();
    let r = m.run_steps(prog, stats, 100_000, &mut out);
    (r, m)
}

#[test]
fn arithmetic_return() {
    let prog = IRProgram {
        globals: vec![],
        blocks: vec![block(
            MAIN,
            vec![op(X, lit(2), BinOp::Add, lit(3)), op(Y, var(X), BinOp::Mul, lit(4))],
            ret(var(Y)),
        )],
    };
    let mut stats = ExecStats::new();
    let (r, m) = run(&prog, None, &mut stats);
    assert_eq!(r, Ok(Event::Done(Value::Data(20))));
    assert_eq!(m.result(), Some(Value::Data(20)));
    assert_eq!(stats.fast_alu_ops, 1);
    assert_eq!(stats.slow_alu_ops, 1);
    assert_eq!(stats.rets, 1);
}

#[test]
fn store_load_round_trip() {
    let prog = IRProgram {
        globals: vec![],
        blocks: vec![block(
            MAIN,
            vec![
                IRStatement::Alloc { lhs: P, slots: 1 },
                IRStatement::Store { base: var(P), val: lit(7) },
                IRStatement::Load { lhs: V, base: var(P) },
            ],
            ret(var(V)),
        )],
    };
    let mut stats = ExecStats::new();
    let (r, _) = run(&prog, None, &mut stats);
    assert_eq!(r, Ok(Event::Done(Value::Data(7))));
    assert_eq!(stats.allocs, 1);
    assert_eq!(stats.mem_writes, 1);
    assert_eq!(stats.mem_reads, 1);
    assert_eq!(stats.rets, 1);
}

#[test]
fn missing_main() {
    let prog = IRProgram { globals: vec![], blocks: vec![block(FOO, vec![], ret(lit(0)))] };
    assert!(matches!(Machine::start(&prog, MAIN, None), Err(RuntimeError::MissingMain)));
}

fn phi_program(cond: u64) -> IRProgram {
    IRProgram {
        globals: vec![],
        blocks: vec![
            block(
                MAIN,
                vec![IRStatement::VarAssign { lhs: C, rhs: lit(cond) }],
                ControlXfer::If { cond: var(C), tblock: T, fblock: F },
            ),
            block(T, vec![], ControlXfer::Jump { block: JOIN }),
            block(F, vec![], ControlXfer::Jump { block: JOIN }),
            block(
                JOIN,
                vec![IRStatement::Phi { lhs: R, opts: vec![(T, lit(1)), (F, lit(2))] }],
                ret(var(R)),
            ),
        ],
    }
}

#[test]
fn phi_two_predecessors() {
    let prog = phi_program(1);
    let mut stats = ExecStats::new();
    let (r, _) = run(&prog, None, &mut stats);
    assert_eq!(r, Ok(Event::Done(Value::Data(1))));
    assert_eq!(stats.conditional_branches, 1);
    assert_eq!(stats.unconditional_branches, 1);
    assert_eq!(stats.phis, 1);
    assert_eq!(stats.rets, 1);
}

#[test]
fn phi_false_branch() {
    let prog = phi_program(0);
    let mut stats = ExecStats::new();
    let (r, _) = run(&prog, None, &mut stats);
    assert_eq!(r, Ok(Event::Done(Value::Data(2))));
}

#[test]
fn bad_call_arity() {
    let prog = IRProgram {
        globals: vec![],
        blocks: vec![
            block(
                MAIN,
                vec![IRStatement::Call {
                    lhs: R,
                    code: IRExpr::BlockRef { bname: BB },
                    receiver: var(SELF),
                    args: vec![lit(1), lit(2)],
                }],
                ret(var(R)),
            ),
            BasicBlock { name: BB, formals: vec![SELF, X], instrs: vec![], next: ret(var(X)) },
        ],
    };
    let mut stats = ExecStats::new();
    let (r, _) = run(&prog, None, &mut stats);
    assert_eq!(r, Err(RuntimeError::BadCallArity));
}

#[test]
fn call_binds_receiver_and_arguments() {
    let prog = IRProgram {
        globals: vec![],
        blocks: vec![
            block(
                MAIN,
                vec![IRStatement::Call {
                    lhs: R,
                    code: IRExpr::BlockRef { bname: BB },
                    receiver: lit(100),
                    args: vec![lit(5)],
                }],
                ret(var(R)),
            ),
            BasicBlock {
                name: BB,
                formals: vec![SELF, X],
                instrs: vec![op(Y, var(SELF), BinOp::Sub, var(X))],
                next: ret(var(Y)),
            },
        ],
    };
    let mut stats = ExecStats::new();
    let (r, _) = run(&prog, None, &mut stats);
    assert_eq!(r, Ok(Event::Done(Value::Data(95))));
    assert_eq!(stats.calls, 1);
    assert_eq!(stats.rets, 2);
}

fn set_elt(base: Name, off: u64, val: IRExpr) -> IRStatement {
    IRStatement::SetElt { base: var(base), offset: lit(off), val }
}

/// Allocates garbage, a leaf and a root that refers to the leaf, then
/// allocates once more, which needs a collection.
fn gc_program() -> IRProgram {
    IRProgram {
        globals: vec![],
        blocks: vec![block(
            MAIN,
            vec![
                IRStatement::Alloc { lhs: TMP, slots: 4 },
                IRStatement::Alloc { lhs: TMP, slots: 4 },
                set_elt(TMP, 0, lit(4)),
                set_elt(TMP, 1, lit(0)),
                set_elt(TMP, 2, lit(0)),
                set_elt(TMP, 3, lit(42)),
                op(LEAF, var(TMP), BinOp::Add, lit(24)),
                IRStatement::Alloc { lhs: TMP, slots: 4 },
                set_elt(TMP, 0, lit(4)),
                set_elt(TMP, 1, lit(0)),
                set_elt(TMP, 2, lit(1)),
                set_elt(TMP, 3, var(LEAF)),
                op(ROOT, var(TMP), BinOp::Add, lit(24)),
                IRStatement::VarAssign { lhs: TMP, rhs: var(ROOT) },
                IRStatement::VarAssign { lhs: LEAF, rhs: var(ROOT) },
                IRStatement::Alloc { lhs: TMP, slots: 4 },
                IRStatement::GetElt { lhs: V, base: var(ROOT), offset: lit(0) },
                IRStatement::GetElt { lhs: W, base: var(V), offset: lit(0) },
            ],
            ret(var(W)),
        )],
    }
}

#[test]
fn gc_relocation() {
    let prog = gc_program();
    let mut stats = ExecStats::new();
    let (r, m) = run(&prog, Some(13), &mut stats);
    assert_eq!(r, Ok(Event::Done(Value::Data(42))));
    let mem = m.memory();
    assert_eq!(mem.base(), 152);
    // the old root and the old leaf are in the evacuated region
    assert_eq!(mem.mem_lookup(144), Err(RuntimeError::ReadFromGCedData));
    assert_eq!(mem.mem_lookup(104), Err(RuntimeError::ReadFromGCedData));
    // the copies keep size, slot map and the scalar payload
    assert_eq!(mem.mem_lookup(152), Ok(Value::Data(4)));
    assert_eq!(mem.mem_lookup(168), Ok(Value::Data(1)));
    assert_eq!(mem.mem_lookup(176), Ok(Value::Data(208)));
    assert_eq!(mem.mem_lookup(184), Ok(Value::Data(4)));
    assert_eq!(mem.mem_lookup(200), Ok(Value::Data(0)));
    assert_eq!(mem.mem_lookup(208), Ok(Value::Data(42)));
    // evacuated cells hold tombstones
    assert_eq!(mem.cell(144), Some(Value::GCTombstone));
    assert_eq!(stats.allocs, 4);
}

#[test]
fn gc_relocates_every_local() {
    let prog = gc_program();
    let mut m = Machine::start(&prog, MAIN, Some(13)).unwrap();
    let mut stats = ExecStats::new();
    // run up to and including the allocation that collects
    for _ in 0..16 {
        assert!(matches!(m.step(&prog, &mut stats), Ok(Event::Continue)));
    }
    let base = m.memory().base();
    assert_eq!(base, 152);
    let locals = m.current_locals().unwrap();
    for j in 0..locals.len() {
        match locals.entry(j).1 {
            Value::Data(p) => assert!(p >= base),
            Value::CodePtr(_) => {}
            Value::GCTombstone => panic!("tombstone in a local"),
        }
    }
}

#[test]
fn out_of_memory_after_gc() {
    let prog = IRProgram {
        globals: vec![],
        blocks: vec![block(
            MAIN,
            vec![IRStatement::Alloc { lhs: P, slots: 3 }, IRStatement::Alloc { lhs: P, slots: 3 }],
            ret(lit(0)),
        )],
    };
    let mut stats = ExecStats::new();
    let (r, _) = run(&prog, Some(2), &mut stats);
    assert_eq!(r, Err(RuntimeError::OutOfMemory));
}

#[test]
fn globals_are_laid_out_and_immutable() {
    const G: Name = 30;
    const H: Name = 31;
    let prog = IRProgram {
        globals: vec![
            GlobalStatic::Array { name: G, vals: vec![Value::Data(5), Value::CodePtr(MAIN)] },
            GlobalStatic::Array { name: H, vals: vec![Value::Data(9)] },
        ],
        blocks: vec![block(
            MAIN,
            vec![
                IRStatement::VarAssign { lhs: P, rhs: IRExpr::GlobalRef { name: H } },
                IRStatement::Load { lhs: V, base: var(P) },
                IRStatement::Store { base: var(P), val: lit(1) },
            ],
            ret(var(V)),
        )],
    };
    let m = Machine::start(&prog, MAIN, None).unwrap();
    assert_eq!(m.globals().get(&G), Some(&32));
    assert_eq!(m.globals().get(&H), Some(&48));
    assert_eq!(m.memory().first_writable(), 56);
    assert_eq!(m.memory().mem_lookup(40), Ok(Value::CodePtr(MAIN)));
    let mut stats = ExecStats::new();
    let (r, _) = run(&prog, None, &mut stats);
    assert_eq!(r, Err(RuntimeError::WriteToImmutableData));
}

#[test]
fn print_events() {
    let prog = IRProgram {
        globals: vec![],
        blocks: vec![block(
            MAIN,
            vec![IRStatement::Print { out: lit(3) }, IRStatement::Print { out: IRExpr::BlockRef { bname: MAIN } }],
            ret(lit(0)),
        )],
    };
    let mut m = Machine::start(&prog, MAIN, None).unwrap();
    let mut stats = ExecStats::new();
    let mut out = Vec::new();
    assert_eq!(m.run_steps(&prog, &mut stats, 10, &mut out), Ok(Event::Done(Value::Data(0))));
    assert_eq!(out, vec![Value::Data(3), Value::CodePtr(MAIN)]);
    assert_eq!(stats.prints, 2);
}

#[test]
fn fail_terminator() {
    let prog = IRProgram {
        globals: vec![],
        blocks: vec![block(MAIN, vec![], ControlXfer::Fail { reason: String::from("boom") })],
    };
    let mut stats = ExecStats::new();
    let (r, _) = run(&prog, None, &mut stats);
    assert_eq!(r, Ok(Event::Fail(MAIN)));
}

#[test]
fn fuel_runs_out_on_a_loop() {
    let prog = IRProgram {
        globals: vec![],
        blocks: vec![block(MAIN, vec![], ControlXfer::Jump { block: MAIN })],
    };
    let mut m = Machine::start(&prog, MAIN, None).unwrap();
    let mut stats = ExecStats::new();
    let mut out = Vec::new();
    assert_eq!(m.run_steps(&prog, &mut stats, 50, &mut out), Ok(Event::Continue));
    assert_eq!(stats.unconditional_branches, 50);
}

#[test]
fn counters_never_decrease() {
    let prog = gc_program();
    let mut m = Machine::start(&prog, MAIN, Some(13)).unwrap();
    let mut stats = ExecStats::new();
    loop {
        let before = stats;
        let e = m.step(&prog, &mut stats).unwrap();
        assert!(stats.fast_alu_ops >= before.fast_alu_ops);
        assert!(stats.slow_alu_ops >= before.slow_alu_ops);
        assert!(stats.mem_reads >= before.mem_reads);
        assert!(stats.mem_writes >= before.mem_writes);
        assert!(stats.allocs >= before.allocs);
        assert!(stats.rets >= before.rets);
        if matches!(e, Event::Done(_)) {
            break;
        }
    }
}

#[test]
fn cap_does_not_matter_without_allocation() {
    let prog = phi_program(1);
    let mut s1 = ExecStats::new();
    let mut s2 = ExecStats::new();
    let (r1, _) = run(&prog, None, &mut s1);
    let (r2, _) = run(&prog, Some(u64::MAX), &mut s2);
    assert_eq!(r1, r2);
    assert_eq!(s1, s2);
}

#[test]
fn heap_cells_aligned_and_regions_ordered() {
    let prog = gc_program();
    let mut stats = ExecStats::new();
    let (_, m) = run(&prog, Some(13), &mut stats);
    let mem = m.memory();
    assert!(mem.first_writable() <= mem.base());
    assert!(mem.base() <= mem.next_alloc());
    for a in 0..mem.next_alloc() + 64 {
        if a % 8 != 0 {
            assert_eq!(mem.cell(a), None);
        }
    }
}

fn error_of(instrs: Vec<IRStatement>) -> RuntimeError {
    let prog = IRProgram { globals: vec![], blocks: vec![block(MAIN, instrs, ret(lit(0)))] };
    let mut stats = ExecStats::new();
    match run(&prog, None, &mut stats).0 {
        Err(e) => e,
        Ok(e) => panic!("expected an error, got {:?}", e),
    }
}

#[test]
fn null_pointer_store_and_load() {
    assert_eq!(error_of(vec![IRStatement::Store { base: lit(0), val: lit(1) }]), RuntimeError::NullPointer);
    assert_eq!(error_of(vec![IRStatement::Load { lhs: V, base: lit(0) }]), RuntimeError::NullPointer);
}

#[test]
fn unaligned_load_at_one() {
    assert_eq!(
        error_of(vec![IRStatement::Load { lhs: V, base: lit(1) }]),
        RuntimeError::UnalignedAccess { addr: 1 }
    );
}

#[test]
fn write_below_mutable_region() {
    assert_eq!(error_of(vec![IRStatement::Store { base: lit(8), val: lit(1) }]), RuntimeError::WriteToImmutableData);
}

#[test]
fn unallocated_read_and_write() {
    assert_eq!(
        error_of(vec![IRStatement::Load { lhs: V, base: lit(4096) }]),
        RuntimeError::UnallocatedAddressRead { addr: 4096 }
    );
    assert_eq!(
        error_of(vec![IRStatement::Store { base: lit(4096), val: lit(1) }]),
        RuntimeError::UnallocatedAddressWrite { addr: 4096 }
    );
    // the gap word below an allocation is never allocated
    assert_eq!(
        error_of(vec![
            IRStatement::Alloc { lhs: P, slots: 1 },
            IRStatement::GetElt { lhs: V, base: var(P), offset: lit(u64::MAX) },
        ]),
        RuntimeError::UnallocatedAddressRead { addr: 32 }
    );
}

#[test]
fn program_integrity_errors() {
    assert_eq!(error_of(vec![IRStatement::Print { out: var(X) }]), RuntimeError::UninitializedVariable { name: X });
    assert_eq!(
        error_of(vec![IRStatement::Print { out: IRExpr::BlockRef { bname: 99 } }]),
        RuntimeError::InvalidBlock { bname: 99 }
    );
    assert_eq!(
        error_of(vec![IRStatement::Print { out: IRExpr::GlobalRef { name: 99 } }]),
        RuntimeError::UndefinedGlobal { name: 99 }
    );
    assert_eq!(
        error_of(vec![IRStatement::Call { lhs: R, code: lit(8), receiver: lit(0), args: vec![] }]),
        RuntimeError::CallingNonCode
    );
    assert_eq!(
        error_of(vec![IRStatement::Phi { lhs: R, opts: vec![(T, lit(1))] }]),
        RuntimeError::PhiInFirstBlock
    );
}

#[test]
fn code_pointer_misuse() {
    let code = IRExpr::BlockRef { bname: MAIN };
    assert_eq!(
        error_of(vec![op(X, code, BinOp::Add, lit(1))]),
        RuntimeError::CodeAddressArithmetic { bname: MAIN }
    );
    assert_eq!(
        error_of(vec![op(X, lit(1), BinOp::Add, code)]),
        RuntimeError::CodeAddressArithmetic { bname: MAIN }
    );
    assert_eq!(
        error_of(vec![IRStatement::Load { lhs: V, base: code }]),
        RuntimeError::AccessingCodeInMemory { bname: MAIN }
    );
    assert_eq!(
        error_of(vec![IRStatement::Store { base: code, val: lit(1) }]),
        RuntimeError::AccessingCodeInMemory { bname: MAIN }
    );
    assert_eq!(
        error_of(vec![IRStatement::GetElt { lhs: V, base: lit(64), offset: code }]),
        RuntimeError::AccessingCodeInMemory { bname: MAIN }
    );
}

#[test]
fn operator_errors() {
    assert_eq!(error_of(vec![op(X, lit(1), BinOp::Div, lit(0))]), RuntimeError::DivideByZero);
    assert_eq!(error_of(vec![op(X, lit(1), BinOp::Unknown, lit(0))]), RuntimeError::NYI);
}

#[test]
fn bad_phi_predecessor() {
    let prog = IRProgram {
        globals: vec![],
        blocks: vec![
            block(MAIN, vec![], ControlXfer::Jump { block: JOIN }),
            block(JOIN, vec![IRStatement::Phi { lhs: R, opts: vec![(T, lit(1))] }], ret(var(R))),
        ],
    };
    let mut stats = ExecStats::new();
    let (r, _) = run(&prog, None, &mut stats);
    assert_eq!(r, Err(RuntimeError::BadPhiPredecessor { actual_predecessor: MAIN }));
}

#[test]
fn invalid_block_in_control() {
    let prog = IRProgram { globals: vec![], blocks: vec![block(MAIN, vec![], ControlXfer::Jump { block: 77 })] };
    let mut stats = ExecStats::new();
    let (r, _) = run(&prog, None, &mut stats);
    assert_eq!(r, Err(RuntimeError::InvalidBlockInControl { bname: 77 }));
}

#[test]
fn code_pointer_is_true() {
    let prog = IRProgram {
        globals: vec![],
        blocks: vec![
            block(MAIN, vec![], ControlXfer::If { cond: IRExpr::BlockRef { bname: MAIN }, tblock: T, fblock: F }),
            block(T, vec![], ret(lit(1))),
            block(F, vec![], ret(lit(2))),
        ],
    };
    let mut stats = ExecStats::new();
    let (r, _) = run(&prog, None, &mut stats);
    assert_eq!(r, Ok(Event::Done(Value::Data(1))));
}
