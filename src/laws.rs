use vstd::prelude::*;
use crate::value::{Value, RuntimeError};
use crate::memory::MemState;
use crate::exec::{Machine, simple_step};
use crate::ir::{BasicBlock, IRStatement};
use crate::value::Name;

verus! {

/// Every address that holds a cell is a multiple of 8.
pub proof fn lemma_cells_aligned(s: MemState)
    requires
        s.wf(),
    ensures
        forall|a: u64| #[trigger] s.cells.contains_key(a) ==> a % 8 == 0,
{
}

/// The globals end where the mutable region starts, the evacuated region
/// ends where the current semispace starts, and the bump pointer is never
/// below either.
pub proof fn lemma_region_order(s: MemState)
    requires
        s.wf(),
    ensures
        s.first_writable <= s.base <= s.next_alloc,
{
}

/// Both laws above hold of the heap of a machine at every step, since
/// `Machine::start` establishes `wf` and `Machine::step` keeps it.
pub proof fn lemma_machine_heap(m: Machine)
    requires
        m.wf(),
    ensures
        forall|a: u64| #[trigger] m.mem_view().cells.contains_key(a) ==> a % 8 == 0,
        m.mem_view().first_writable <= m.mem_view().base <= m.mem_view().next_alloc,
{
}

/// A read that succeeds returns a cell that is present, holds no tombstone,
/// and lies outside the evacuated region.
pub proof fn lemma_lookup_ok(s: MemState, a: u64)
    requires
        s.lookup(a) is Ok,
    ensures
        s.cells.contains_key(a),
        s.lookup(a) == Ok::<Value, RuntimeError>(s.cells[a]),
        !(s.cells[a] is GCTombstone),
        !(s.first_writable <= a < s.base),
{
}

/// Reads and writes do not depend on the slot cap.
pub proof fn lemma_access_ignores_cap(s: MemState, cap: Option<u64>, a: u64)
    ensures
        (MemState { slot_cap: cap, ..s }).lookup(a) == s.lookup(a),
        (MemState { slot_cap: cap, ..s }).store(a) == s.store(a),
{
}

/// Address 0 is null, for reads and for writes.
pub proof fn lemma_null(s: MemState)
    ensures
        s.lookup(0) == Err::<Value, RuntimeError>(RuntimeError::NullPointer),
        s.store(0) == Err::<Value, RuntimeError>(RuntimeError::NullPointer),
{
}

/// Address 1 is reported as unaligned, not as unallocated.
pub proof fn lemma_unaligned_one(s: MemState)
    requires
        s.wf(),
    ensures
        s.lookup(1) == Err::<Value, RuntimeError>(RuntimeError::UnalignedAccess { addr: 1 }),
{
}

/// A write anywhere below the mutable region, but at 0, is a write to
/// immutable data, whether or not a cell is there.
pub proof fn lemma_globals_immutable(s: MemState, a: u64)
    requires
        0 < a < s.first_writable,
    ensures
        s.store(a) == Err::<Value, RuntimeError>(RuntimeError::WriteToImmutableData),
{
}

/// An instruction that neither allocates nor calls does the same with any
/// slot cap: the same error, or the same locals and the same heap but for
/// the cap.
pub proof fn lemma_step_ignores_cap(
    blocks: Seq<BasicBlock>,
    g: Map<Name, u64>,
    m: MemState,
    l: Map<Name, Value>,
    prev: Option<Name>,
    instr: IRStatement,
    cap: Option<u64>,
)
    requires
        !(instr is Alloc),
        !(instr is Call),
    ensures
        simple_step(blocks, g, MemState { slot_cap: cap, ..m }, l, prev, instr) == match simple_step(
            blocks,
            g,
            m,
            l,
            prev,
            instr,
        ) {
            Ok((m1, l1)) => Ok((MemState { slot_cap: cap, ..m1 }, l1)),
            Err(e) => Err(e),
        },
{
    let m2 = MemState { slot_cap: cap, ..m };
    assert forall|a: u64| m2.lookup(a) == m.lookup(a) && m2.store(a) == m.store(a) by {
        lemma_access_ignores_cap(m, cap, a);
    }
}

} // verus!
