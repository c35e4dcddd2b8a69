use ir441::eval::{binop, expr_val};
use ir441::exec::{element_address, op_value, branch_target, phi_source};
use ir441::ir::{BasicBlock, BinOp, ControlXfer, GlobalStatic, IRExpr, IRProgram};
use ir441::locals::{read_var, set_var, Locals};
use ir441::memory::Memory;
use ir441::stats::ExecStats;
use ir441::value::{RuntimeError, Value};

fn empty_program() -> IRProgram {
    IRProgram { globals: vec![], blocks: vec![] }
}

/// A heap with one object of `size` slots whose header is written, and
/// the address of its first payload slot.
fn with_object(mem: &mut Memory, size: u64, slotmap: u64) -> u64 {
    let raw = mem.allocate(size).unwrap();
    mem.mem_store(raw, Value::Data(size)).unwrap();
    mem.mem_store(raw + 8, Value::Data(0)).unwrap();
    mem.mem_store(raw + 16, Value::Data(slotmap)).unwrap();
    raw + 24
}

#[test]
fn new_memory_starts_after_globals() {
    let prog = IRProgram {
        globals: vec![GlobalStatic::Array { name: 7, vals: vec![Value::Data(1), Value::Data(2), Value::Data(3)] }],
        blocks: vec![],
    };
    let (mem, globs) = Memory::new(&prog, Some(10));
    assert_eq!(globs.get(&7), Some(&32));
    assert_eq!(mem.first_writable(), 56);
    assert_eq!(mem.base(), 56);
    assert_eq!(mem.next_alloc(), 56);
    assert_eq!(mem.slots_alloced(), 0);
    assert_eq!(mem.slot_cap(), Some(10));
    assert_eq!(mem.mem_lookup(48), Ok(Value::Data(3)));
    assert_eq!(mem.mem_lookup(56), Err(RuntimeError::UnallocatedAddressRead { addr: 56 }));
}

#[test]
fn later_global_of_same_name_wins() {
    let prog = IRProgram {
        globals: vec![
            GlobalStatic::Array { name: 7, vals: vec![Value::Data(1)] },
            GlobalStatic::Array { name: 7, vals: vec![Value::Data(2)] },
        ],
        blocks: vec![],
    };
    let (_, globs) = Memory::new(&prog, None);
    assert_eq!(globs.get(&7), Some(&40));
}

#[test]
fn allocate_leaves_a_gap_word() {
    let (mut mem, _) = Memory::new(&empty_program(), None);
    assert_eq!(mem.allocate(2), Ok(40));
    assert_eq!(mem.next_alloc(), 56);
    assert_eq!(mem.slots_alloced(), 2);
    assert_eq!(mem.mem_lookup(40), Ok(Value::Data(0)));
    assert_eq!(mem.mem_lookup(48), Ok(Value::Data(0)));
    assert_eq!(mem.cell(32), None);
    assert_eq!(mem.allocate(1), Ok(64));
}

#[test]
fn allocate_asks_for_gc_at_the_cap() {
    let (mut mem, _) = Memory::new(&empty_program(), Some(5));
    assert_eq!(mem.allocate(4), Ok(40));
    assert_eq!(mem.allocate(1), Err(RuntimeError::GCRequired));
    assert_eq!(mem.next_alloc(), 72);
}

#[test]
fn allocate_out_of_address_space() {
    let (mut mem, _) = Memory::new(&empty_program(), None);
    assert_eq!(mem.allocate(u64::MAX / 8), Err(RuntimeError::OutOfMemory));
    assert_eq!(mem.next_alloc(), 32);
}

#[test]
fn reserve_has_no_gap_and_enforces_the_cap() {
    let (mut mem, _) = Memory::new(&empty_program(), Some(4));
    assert_eq!(mem.reserve(3), Ok(32));
    assert_eq!(mem.next_alloc(), 56);
    assert_eq!(mem.mem_lookup(32), Ok(Value::Data(0)));
    assert_eq!(mem.reserve(2), Err(RuntimeError::OutOfMemory));
    assert_eq!(mem.reserve(1), Ok(56));
}

#[test]
fn store_returns_previous_value() {
    let (mut mem, _) = Memory::new(&empty_program(), None);
    let a = mem.allocate(1).unwrap();
    assert_eq!(mem.mem_store(a, Value::Data(9)), Ok(Value::Data(0)));
    assert_eq!(mem.mem_store(a, Value::Data(10)), Ok(Value::Data(9)));
    assert_eq!(mem.mem_lookup(a), Ok(Value::Data(10)));
    assert_eq!(mem.mem_store(a + 1, Value::Data(1)), Err(RuntimeError::UnalignedAccess { addr: a + 1 }));
}

#[test]
fn tombstone_in_a_global_is_deallocated() {
    let prog = IRProgram {
        globals: vec![GlobalStatic::Array { name: 1, vals: vec![Value::GCTombstone] }],
        blocks: vec![],
    };
    let (mem, _) = Memory::new(&prog, None);
    assert_eq!(mem.mem_lookup(32), Err(RuntimeError::AccessingDeallocatedAddress { addr: 32 }));
}

#[test]
fn gc_moves_roots_and_tombstones_the_old_space() {
    let (mut mem, _) = Memory::new(&empty_program(), Some(20));
    let obj = with_object(&mut mem, 4, 0);
    mem.mem_store(obj, Value::Data(77)).unwrap();
    let mut locals = Locals::new();
    set_var(&mut locals, 1, Value::Data(obj)).unwrap();
    set_var(&mut locals, 2, Value::CodePtr(5)).unwrap();
    set_var(&mut locals, 3, Value::Data(obj)).unwrap();
    let old_next = mem.next_alloc();
    assert_eq!(mem.gc(&mut locals), Ok(()));
    assert_eq!(mem.base(), old_next);
    let moved = match read_var(&locals, 1) {
        Ok(Value::Data(p)) => p,
        other => panic!("{:?}", other),
    };
    assert!(moved >= mem.base());
    assert_eq!(read_var(&locals, 3), Ok(Value::Data(moved)));
    assert_eq!(read_var(&locals, 2), Ok(Value::CodePtr(5)));
    assert_eq!(mem.mem_lookup(moved), Ok(Value::Data(77)));
    assert_eq!(mem.mem_lookup(moved - 24), Ok(Value::Data(4)));
    assert_eq!(mem.mem_lookup(obj), Err(RuntimeError::ReadFromGCedData));
    assert_eq!(mem.mem_store(obj, Value::Data(1)), Err(RuntimeError::WriteToGCedData));
    assert_eq!(mem.cell(obj), Some(Value::GCTombstone));
    assert_eq!(mem.slots_alloced(), 4);
}

#[test]
fn trace_handles_cycles() {
    let (mut mem, _) = Memory::new(&empty_program(), Some(20));
    let a = with_object(&mut mem, 4, 1);
    let b = with_object(&mut mem, 4, 1);
    mem.mem_store(a, Value::Data(b)).unwrap();
    mem.mem_store(b, Value::Data(a)).unwrap();
    let new_base = mem.next_alloc();
    let na = mem.trace(a, new_base).unwrap();
    let nb = match mem.mem_lookup(na) {
        Ok(Value::Data(p)) => p,
        other => panic!("{:?}", other),
    };
    assert_eq!(mem.mem_lookup(nb), Ok(Value::Data(na)));
    assert_eq!(mem.trace(a, new_base), Ok(na));
    assert_eq!(mem.slots_alloced(), 8 + 8);
}

#[test]
fn trace_reports_bad_metadata() {
    let (mut mem, _) = Memory::new(&empty_program(), Some(40));
    let code_field = with_object(&mut mem, 4, 1);
    mem.mem_store(code_field, Value::CodePtr(3)).unwrap();
    let nb = mem.next_alloc();
    assert_eq!(mem.trace(code_field, nb), Err(RuntimeError::BadGCField));

    let bad_fwd = with_object(&mut mem, 4, 0);
    mem.mem_store(bad_fwd - 16, Value::CodePtr(3)).unwrap();
    assert_eq!(mem.trace(bad_fwd, nb), Err(RuntimeError::CorruptGCMetadata { val: Value::CodePtr(3) }));

    assert_eq!(mem.trace(1_000_000, nb), Err(RuntimeError::UnallocatedAddressRead { addr: 1_000_000 }));
}

#[test]
fn gc_on_a_scalar_local_fails() {
    let (mut mem, _) = Memory::new(&empty_program(), Some(20));
    let mut locals = Locals::new();
    set_var(&mut locals, 1, Value::Data(5)).unwrap();
    assert_eq!(mem.gc(&mut locals), Err(RuntimeError::UnallocatedAddressRead { addr: 5 }));
}

#[test]
fn gc_rejects_a_tombstone_local() {
    let (mut mem, _) = Memory::new(&empty_program(), Some(20));
    let mut locals = Locals::new();
    set_var(&mut locals, 1, Value::GCTombstone).unwrap();
    assert_eq!(
        mem.gc(&mut locals),
        Err(RuntimeError::CorruptGCMetadata { val: Value::GCTombstone })
    );
}

#[test]
fn locals_rebind() {
    let mut l = Locals::new();
    assert_eq!(read_var(&l, 4), Err(RuntimeError::UninitializedVariable { name: 4 }));
    set_var(&mut l, 4, Value::Data(1)).unwrap();
    set_var(&mut l, 4, Value::Data(2)).unwrap();
    assert_eq!(read_var(&l, 4), Ok(Value::Data(2)));
    assert_eq!(l.len(), 1);
}

#[test]
fn operator_values() {
    assert_eq!(binop(BinOp::Add, u64::MAX, 2), Ok(1));
    assert_eq!(binop(BinOp::Sub, 1, 2), Ok(u64::MAX));
    assert_eq!(binop(BinOp::Mul, 1 << 63, 2), Ok(0));
    assert_eq!(binop(BinOp::Mul, 6, 7), Ok(42));
    assert_eq!(binop(BinOp::Div, 7, 2), Ok(3));
    assert_eq!(binop(BinOp::Shl, 1, 3), Ok(8));
    assert_eq!(binop(BinOp::Shl, 1, 64), Ok(0));
    assert_eq!(binop(BinOp::Shr, 16, 2), Ok(4));
    assert_eq!(binop(BinOp::Shr, u64::MAX, 70), Ok(0));
    assert_eq!(binop(BinOp::And, 12, 10), Ok(8));
    assert_eq!(binop(BinOp::Or, 12, 10), Ok(14));
    assert_eq!(binop(BinOp::Xor, 12, 10), Ok(6));
    assert_eq!(binop(BinOp::Lt, 1, 2), Ok(1));
    assert_eq!(binop(BinOp::Gt, 1, 2), Ok(0));
    assert_eq!(binop(BinOp::Eq, 2, 2), Ok(1));
    assert_eq!(op_value(Value::GCTombstone, BinOp::Add, Value::Data(1)), Err(RuntimeError::ReadFromGCedData));
}

#[test]
fn element_addresses() {
    assert_eq!(element_address(Value::Data(64), Value::Data(2), false), Ok(80));
    assert_eq!(element_address(Value::Data(64), Value::Data(u64::MAX), false), Ok(56));
    assert_eq!(element_address(Value::GCTombstone, Value::Data(0), true), Err(RuntimeError::WriteToGCedData));
    assert_eq!(element_address(Value::GCTombstone, Value::Data(0), false), Err(RuntimeError::ReadFromGCedData));
    assert_eq!(element_address(Value::Data(8), Value::GCTombstone, true), Err(RuntimeError::ReadFromGCedData));
}

#[test]
fn branches_and_phi_options() {
    assert_eq!(branch_target(Value::Data(0), 1, 2), 2);
    assert_eq!(branch_target(Value::Data(5), 1, 2), 1);
    assert_eq!(branch_target(Value::CodePtr(9), 1, 2), 1);
    let opts = vec![(3, IRExpr::IntLit { val: 1 }), (4, IRExpr::IntLit { val: 2 }), (3, IRExpr::IntLit { val: 3 })];
    assert_eq!(phi_source(&opts, 3), Some(0));
    assert_eq!(phi_source(&opts, 4), Some(1));
    assert_eq!(phi_source(&opts, 5), None);
}

#[test]
fn counters_increment_one_at_a_time() {
    let mut s = ExecStats::new();
    s.fast_op();
    s.slow_op();
    s.slow_op();
    s.cond();
    s.uncond();
    s.call();
    s.ret();
    s.read();
    s.write();
    s.allocation();
    s.print();
    s.phi();
    assert_eq!(s.fast_alu_ops, 1);
    assert_eq!(s.slow_alu_ops, 2);
    assert_eq!(s.conditional_branches, 1);
    assert_eq!(s.unconditional_branches, 1);
    assert_eq!(s.calls, 1);
    assert_eq!(s.rets, 1);
    assert_eq!(s.mem_reads, 1);
    assert_eq!(s.mem_writes, 1);
    assert_eq!(s.allocs, 1);
    assert_eq!(s.prints, 1);
    assert_eq!(s.phis, 1);
    s.fast_alu_ops = u64::MAX;
    s.fast_op();
    assert_eq!(s.fast_alu_ops, u64::MAX);
}

#[test]
fn operand_values() {
    let prog = IRProgram {
        globals: vec![GlobalStatic::Array { name: 9, vals: vec![Value::Data(1)] }],
        blocks: vec![BasicBlock { name: 3, formals: vec![], instrs: vec![], next: ControlXfer::Ret { val: IRExpr::IntLit { val: 0 } } }],
    };
    let (_, globs) = Memory::new(&prog, None);
    let mut l = Locals::new();
    set_var(&mut l, 4, Value::Data(11)).unwrap();
    assert_eq!(expr_val(&l, &globs, &prog, &IRExpr::IntLit { val: 5 }), Ok(Value::Data(5)));
    assert_eq!(expr_val(&l, &globs, &prog, &IRExpr::Var { id: 4 }), Ok(Value::Data(11)));
    assert_eq!(expr_val(&l, &globs, &prog, &IRExpr::BlockRef { bname: 3 }), Ok(Value::CodePtr(3)));
    assert_eq!(expr_val(&l, &globs, &prog, &IRExpr::GlobalRef { name: 9 }), Ok(Value::Data(32)));
    assert_eq!(
        expr_val(&l, &globs, &prog, &IRExpr::BlockRef { bname: 4 }),
        Err(RuntimeError::InvalidBlock { bname: 4 })
    );
}

#[test]
fn trace_reads_payload_slots_raw() {
    let (mut mem, _) = Memory::new(&empty_program(), Some(40));
    // a reference slot holding a tombstone is corrupt metadata
    let obj = with_object(&mut mem, 4, 1);
    mem.mem_store(obj, Value::GCTombstone).unwrap();
    let nb = mem.next_alloc();
    assert_eq!(mem.trace(obj, nb), Err(RuntimeError::CorruptGCMetadata { val: Value::GCTombstone }));
    // nothing was reserved for it
    assert_eq!(mem.next_alloc(), nb);
    // a payload slot past the allocation is reported at its own address
    let short = with_object(&mut mem, 5, 0);
    mem.mem_store(short - 24, Value::Data(6)).unwrap();
    let nb = mem.next_alloc();
    assert_eq!(mem.trace(short, nb), Err(RuntimeError::UnallocatedAddressRead { addr: short + 16 }));
}

#[test]
fn trace_refuses_an_object_in_the_new_space() {
    let (mut mem, _) = Memory::new(&empty_program(), Some(40));
    let obj = with_object(&mut mem, 4, 0);
    let nb = obj - 24;
    assert_eq!(mem.trace(obj, nb), Err(RuntimeError::CorruptGCMetadata { val: Value::Data(0) }));
}

#[test]
fn gc_counts_copied_slots_and_keeps_sharing() {
    let (mut mem, _) = Memory::new(&empty_program(), Some(40));
    let a = with_object(&mut mem, 5, 0);
    let b = with_object(&mut mem, 4, 0);
    let mut locals = Locals::new();
    set_var(&mut locals, 1, Value::Data(a)).unwrap();
    set_var(&mut locals, 2, Value::Data(b)).unwrap();
    set_var(&mut locals, 3, Value::Data(a)).unwrap();
    let old_next = mem.next_alloc();
    assert_eq!(mem.gc(&mut locals), Ok(()));
    assert_eq!(mem.slots_alloced(), 9);
    assert_eq!(mem.next_alloc(), old_next + 72);
    assert_eq!(read_var(&locals, 1), Ok(Value::Data(old_next + 24)));
    assert_eq!(read_var(&locals, 3), Ok(Value::Data(old_next + 24)));
    assert_eq!(read_var(&locals, 2), Ok(Value::Data(old_next + 64)));
}
