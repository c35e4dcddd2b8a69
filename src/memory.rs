use vstd::prelude::*;
use std::collections::{BTreeMap, HashMap};
use crate::value::{Name, Value, RuntimeError};
use crate::ir::{GlobalStatic, IRProgram};
use crate::locals::{Locals, map_of, lemma_map_of_at, lemma_same_names};

verus! {

broadcast use {vstd::std_specs::btree::group_btree_axioms, vstd::std_specs::hash::group_hash_axioms};

/// The address `back` bytes below `addr`, wrapping around below 0.
pub open spec fn header_slot(addr: u64, back: u64) -> u64 {
    ((addr - back + 0x1_0000_0000_0000_0000) % 0x1_0000_0000_0000_0000) as u64
}

/// Where payload slot `i` of the object at `addr` lies, wrapping around.
pub open spec fn slot_addr(addr: u64, i: int) -> u64 {
    ((addr + 8 * i) % 0x1_0000_0000_0000_0000) as u64
}

/// Payload slot `i` holds a reference, by slot map `sm`; slots from 64 on
/// never do.
pub open spec fn is_ref(sm: u64, i: int) -> bool {
    0 <= i < 64 && (sm >> (i as u64)) & 1u64 == 1u64
}

/// Payload slot `i` of the object at `addr` can be copied: it is present,
/// and a data word where the slot map marks a reference.
pub open spec fn slot_ok(cells: Map<u64, Value>, addr: u64, sm: u64, i: int) -> bool {
    &&& cells.contains_key(slot_addr(addr, i))
    &&& is_ref(sm, i) ==> cells[slot_addr(addr, i)] is Data
}

/// Slot `i` is the first of `count` payload slots that cannot be copied.
pub open spec fn first_bad(cells: Map<u64, Value>, addr: u64, sm: u64, count: int, i: int) -> bool {
    &&& 0 <= i < count
    &&& !slot_ok(cells, addr, sm, i)
    &&& forall|j: int| 0 <= j < i ==> slot_ok(cells, addr, sm, j)
}

/// Why payload slot `i` cannot be copied.
pub open spec fn slot_error(cells: Map<u64, Value>, addr: u64, sm: u64, i: int) -> RuntimeError {
    let a = slot_addr(addr, i);
    if !cells.contains_key(a) {
        RuntimeError::UnallocatedAddressRead { addr: a }
    } else if cells[a] is CodePtr {
        RuntimeError::BadGCField
    } else {
        RuntimeError::CorruptGCMetadata { val: cells[a] }
    }
}

/// Slot `i` of the copy at `p` in `t`, of the object at `addr` in `s`: a
/// scalar is copied as it was; a reference holds the address that the
/// header of its target forwards to, in the new semispace.
pub open spec fn copied_slot(s: MemState, t: MemState, addr: u64, sm: u64, p: u64, i: int, new_base: u64) -> bool {
    let c = t.cells.get((p + 8 * i) as u64);
    if is_ref(sm, i) {
        match (s.cells.get(slot_addr(addr, i)), c) {
            (Some(Value::Data(q)), Some(Value::Data(u))) => t.cells.get(header_slot(q, 16)) == Some(
                Value::Data(u),
            ) && new_base <= u,
            _ => false,
        }
    } else {
        c == s.cells.get(slot_addr(addr, i))
    }
}

proof fn lemma_copied_ref(s: MemState, t: MemState, addr: u64, sm: u64, p: u64, i: int, new_base: u64, q: u64, u: u64)
    requires
        is_ref(sm, i),
        s.cells.get(slot_addr(addr, i)) == Some(Value::Data(q)),
        t.cells.get((p + 8 * i) as u64) == Some(Value::Data(u)),
        t.cells.get(header_slot(q, 16)) == Some(Value::Data(u)),
        new_base <= u,
    ensures
        copied_slot(s, t, addr, sm, p, i, new_base),
{
}

proof fn lemma_copied_scalar(s: MemState, t: MemState, addr: u64, sm: u64, p: u64, i: int, new_base: u64)
    requires
        !is_ref(sm, i),
        t.cells.get((p + 8 * i) as u64) == s.cells.get(slot_addr(addr, i)),
    ensures
        copied_slot(s, t, addr, sm, p, i, new_base),
{
}

/// What a collection step leaves alone: the cells below `base`, the cells
/// from `new_base` up to the old bump pointer, and every other old cell
/// that did not hold the word 0 (only such a cell can become a forwarding
/// word). Cells are only ever added above the old bump pointer.
#[verifier::opaque]
pub open spec fn kept(s: MemState, t: MemState, new_base: u64) -> bool {
    &&& forall|a: u64| #![trigger t.cells.get(a)] a < s.base ==> t.cells.get(a) == s.cells.get(a)
    &&& forall|a: u64| #![trigger t.cells.get(a)]
        new_base <= a < s.next_alloc ==> t.cells.get(a) == s.cells.get(a)
    &&& forall|a: u64| #![trigger t.cells.get(a)]
        s.cells.contains_key(a) && s.cells[a] != Value::Data(0) ==> t.cells.get(a) == s.cells.get(a)
    &&& forall|a: u64| #[trigger] s.cells.contains_key(a) ==> t.cells.contains_key(a)
    &&& forall|a: u64| #[trigger] t.cells.contains_key(a) ==> s.cells.contains_key(a) || s.next_alloc <= a
}

pub proof fn lemma_kept_refl(s: MemState, new_base: u64)
    ensures
        kept(s, s, new_base),
{
    reveal(kept);
}

pub proof fn lemma_kept_trans(s0: MemState, s1: MemState, s2: MemState, new_base: u64)
    requires
        kept(s0, s1, new_base),
        kept(s1, s2, new_base),
        s0.next_alloc <= s1.next_alloc,
        s0.base == s1.base,
    ensures
        kept(s0, s2, new_base),
{
    reveal(kept);
    assert forall|a: u64| s0.cells.contains_key(a) && s0.cells[a] != Value::Data(0) implies #[trigger] s2.cells.get(a) == s0.cells.get(a) by {
        assert(s1.cells.get(a) == s0.cells.get(a));
    }
    assert forall|a: u64| new_base <= a < s0.next_alloc implies #[trigger] s2.cells.get(a) == s0.cells.get(a) by {
        assert(s1.cells.get(a) == s0.cells.get(a));
    }
    assert forall|a: u64| a < s0.base implies #[trigger] s2.cells.get(a) == s0.cells.get(a) by {
        assert(s1.cells.get(a) == s0.cells.get(a));
    }
}

/// Writing a cell at or above the old bump pointer keeps what `kept` keeps.
pub proof fn lemma_kept_fresh_write(s0: MemState, s1: MemState, x: u64, w: Value, new_base: u64)
    requires
        s0.wf(),
        kept(s0, s1, new_base),
        s0.next_alloc <= x,
        s1.cells.contains_key(x),
    ensures
        kept(s0, MemState { cells: s1.cells.insert(x, w), ..s1 }, new_base),
{
    reveal(kept);
    let t = MemState { cells: s1.cells.insert(x, w), ..s1 };
    assert forall|a: u64| a != x implies #[trigger] t.cells.get(a) == s1.cells.get(a) by {}
    assert forall|a: u64| #[trigger] s0.cells.contains_key(a) implies a != x by {}
}

/// Writing a word 0 of the old semispace, as a forwarding word, keeps what
/// `kept` keeps.
pub proof fn lemma_kept_forward_write(s0: MemState, s1: MemState, x: u64, w: Value, new_base: u64)
    requires
        kept(s0, s1, new_base),
        s0.base <= x < new_base,
        s0.cells.get(x) == Some(Value::Data(0)),
    ensures
        kept(s0, MemState { cells: s1.cells.insert(x, w), ..s1 }, new_base),
{
    reveal(kept);
    let t = MemState { cells: s1.cells.insert(x, w), ..s1 };
    assert forall|a: u64| a != x implies #[trigger] t.cells.get(a) == s1.cells.get(a) by {}
    assert(s1.cells.contains_key(x)) by {
        assert(s0.cells.contains_key(x));
    }
}

/// What evacuating the object at `addr`, whose header does not forward yet,
/// does from `s` to `t`; `same` tells whether nothing changed.
pub open spec fn evacuation(s: MemState, t: MemState, same: bool, addr: u64, new_base: u64, r: Result<u64, RuntimeError>) -> bool {
    let fl = header_slot(addr, 16);
    if new_base <= fl {
        r == Err::<u64, RuntimeError>(RuntimeError::CorruptGCMetadata { val: Value::Data(0) }) && same
    } else {
        match s.cells.get(header_slot(addr, 24)) {
            None => r == Err::<u64, RuntimeError>(RuntimeError::UnallocatedAddressRead { addr }) && same,
            Some(Value::Data(n)) => match s.cells.get(header_slot(addr, 8)) {
                None => r == Err::<u64, RuntimeError>(RuntimeError::UnallocatedAddressRead { addr }) && same,
                Some(Value::Data(sm)) => if n < 3 {
                    r == Err::<u64, RuntimeError>(RuntimeError::CorruptGCMetadata { val: Value::Data(n) }) && same
                } else if exists|i: int| #[trigger] first_bad(s.cells, addr, sm, n - 3, i) {
                    same && forall|i: int| #[trigger] first_bad(s.cells, addr, sm, n - 3, i)
                        ==> r == Err::<u64, RuntimeError>(slot_error(s.cells, addr, sm, i))
                } else if s.slots_alloced + n > cap_of(s.slot_cap) || s.next_alloc + 8 * n > u64::MAX {
                    r == Err::<u64, RuntimeError>(RuntimeError::OutOfMemory) && same
                } else {
                    &&& fl < s.base ==> r is Err
                    &&& (s.base <= fl && forall|i: int| 0 <= i < n - 3 ==> !is_ref(sm, i)) ==> r
                        == Ok::<u64, RuntimeError>((s.next_alloc + 24) as u64)
                    &&& r matches Ok(p) ==> {
                        &&& p == s.next_alloc + 24
                        &&& t.cells.get(s.next_alloc) == Some(Value::Data(n))
                        &&& t.cells.get((s.next_alloc + 8) as u64) == Some(Value::Data(0))
                        &&& t.cells.get((s.next_alloc + 16) as u64) == Some(Value::Data(sm))
                        &&& forall|i: int| 0 <= i < n - 3 ==> #[trigger] copied_slot(s, t, addr, sm, p, i, new_base)
                    }
                },
                Some(v) => r == Err::<u64, RuntimeError>(RuntimeError::CorruptGCMetadata { val: v }) && same,
            },
            Some(v) => r == Err::<u64, RuntimeError>(RuntimeError::CorruptGCMetadata { val: v }) && same,
        }
    }
}

/// A local after a collection: no tombstone, and a word at or above `base`.
pub open spec fn relocated(v: Value, base: u64) -> bool {
    match v {
        Value::Data(p) => base <= p,
        Value::CodePtr(_) => true,
        Value::GCTombstone => false,
    }
}

/// Where each global array starts in memory.
pub type Globals = HashMap<Name, u64>;

pub open spec fn gname(g: GlobalStatic) -> Name {
    match g {
        GlobalStatic::Array { name, .. } => name,
    }
}

pub open spec fn gvals(g: GlobalStatic) -> Seq<Value> {
    match g {
        GlobalStatic::Array { vals, .. } => vals@,
    }
}

/// The words of all global arrays, one after the other in declaration order.
pub open spec fn flat_globals(gs: Seq<GlobalStatic>) -> Seq<Value>
    decreases gs.len(),
{
    if gs.len() == 0 {
        Seq::empty()
    } else {
        flat_globals(gs.drop_last()) + gvals(gs.last())
    }
}

/// The address of the first word of global array `i`.
#[verifier::opaque]
pub open spec fn global_addr(gs: Seq<GlobalStatic>, i: int) -> int {
    32 + 8 * (flat_globals(gs.take(i)).len() as int)
}

/// The cells that hold `vals` word by word from address 32 on.
pub open spec fn laid_out(vals: Seq<Value>) -> Map<u64, Value> {
    Map::new(
        |a: u64| 32 <= a < 32 + 8 * vals.len() && a % 8 == 0,
        |a: u64| vals[(a - 32) / 8],
    )
}

/// Global array `i` is the last one declared under its name.
pub open spec fn last_of_name(gs: Seq<GlobalStatic>, i: int) -> bool {
    forall|j: int| i < j < gs.len() ==> gname(gs[j]) != gname(gs[i])
}

/// The first `n` global arrays are placed in `g`, each name at the address
/// of the last array declared under it.
#[verifier::opaque]
spec fn globals_placed(gs: Seq<GlobalStatic>, n: int, g: Map<Name, u64>) -> bool {
    &&& forall|k: Name| g.contains_key(k) <==> exists|i: int| 0 <= i < n && gname(#[trigger] gs[i]) == k
    &&& forall|i: int|
        0 <= i < n && last_of_name(gs.take(n), i) ==> g[gname(#[trigger] gs[i])] == global_addr(gs, i)
}

proof fn lemma_globals_step(gs: Seq<GlobalStatic>, i: int, g0: Map<Name, u64>, g1: Map<Name, u64>)
    requires
        0 <= i < gs.len(),
        globals_placed(gs, i, g0),
        g1 == g0.insert(gname(gs[i]), global_addr(gs, i) as u64),
        0 <= global_addr(gs, i) <= u64::MAX,
    ensures
        globals_placed(gs, i + 1, g1),
{
    reveal(globals_placed);
    let n = gname(gs[i]);
    assert forall|k: Name| g1.contains_key(k) <==> exists|i2: int| 0 <= i2 < i + 1 && gname(#[trigger] gs[i2]) == k by {
        if k == n {
            assert(gname(gs[i]) == k);
        }
        if g0.contains_key(k) {
            let i2 = choose|i2: int| 0 <= i2 < i && gname(#[trigger] gs[i2]) == k;
            assert(gname(gs[i2]) == k);
        }
    }
    assert forall|i2: int| 0 <= i2 < i + 1 && last_of_name(gs.take(i + 1), i2) implies g1[gname(#[trigger] gs[i2])] == global_addr(gs, i2) by {
        if i2 < i {
            assert(gs.take(i + 1)[i] == gs[i]);
            assert forall|j: int| i2 < j < gs.take(i).len() implies gname(gs.take(i)[j]) != gname(gs.take(i)[i2]) by {
                assert(gs.take(i)[j] == gs.take(i + 1)[j]);
            }
        }
    }
}

proof fn lemma_globals_empty(gs: Seq<GlobalStatic>)
    ensures
        globals_placed(gs, 0, Map::empty()),
{
    reveal(globals_placed);
}

proof fn lemma_start(gs: Seq<GlobalStatic>)
    ensures
        global_addr(gs, 0) == 32,
        flat_globals(gs.take(0)) == Seq::<Value>::empty(),
{
    reveal(global_addr);
    assert(gs.take(0) =~= Seq::<GlobalStatic>::empty());
}

proof fn lemma_globals_done(gs: Seq<GlobalStatic>, g: Map<Name, u64>)
    requires
        globals_placed(gs, gs.len() as int, g),
    ensures
        forall|k: Name| g.contains_key(k) <==> exists|i: int| 0 <= i < gs.len() && gname(#[trigger] gs[i]) == k,
        forall|i: int|
            0 <= i < gs.len() && last_of_name(gs, i) ==> g[gname(#[trigger] gs[i])] == global_addr(gs, i),
{
    reveal(globals_placed);
    assert(gs.take(gs.len() as int) =~= gs);
}

pub proof fn lemma_flat_step(gs: Seq<GlobalStatic>, i: int)
    requires
        0 <= i < gs.len(),
    ensures
        flat_globals(gs.take(i + 1)) == flat_globals(gs.take(i)) + gvals(gs[i]),
{
    assert(gs.take(i + 1).drop_last() =~= gs.take(i));
}

proof fn lemma_laid_out_push(p: Seq<Value>, v: Value)
    requires
        32 + 8 * p.len() + 8 <= u64::MAX,
    ensures
        laid_out(p.push(v)) == laid_out(p).insert((32 + 8 * p.len()) as u64, v),
{
    assert(laid_out(p.push(v)) =~= laid_out(p).insert((32 + 8 * p.len()) as u64, v));
}

/// Writes `vs` into successive cells from `next_free` on.
fn write_words(
    m: &mut BTreeMap<u64, Value>,
    next_free: &mut u64,
    vs: &Vec<Value>,
    before: Ghost<Seq<Value>>,
)
    requires
        *old(next_free) == 32 + 8 * before@.len(),
        old(m)@ == laid_out(before@),
        32 + 8 * (before@.len() + vs@.len()) <= u64::MAX,
    ensures
        *final(next_free) == 32 + 8 * (before@.len() + vs@.len()),
        final(m)@ == laid_out(before@ + vs@),
{
    let mut j: usize = 0;
    assert(before@ + vs@.take(0) =~= before@);
    while j < vs.len()
        invariant
            32 + 8 * (before@.len() + vs@.len()) <= u64::MAX,
            0 <= j <= vs@.len(),
            *next_free == 32 + 8 * (before@.len() + j),
            m@ == laid_out(before@ + vs@.take(j as int)),
        decreases vs@.len() - j,
    {
        let ghost p = before@ + vs@.take(j as int);
        proof {
            lemma_laid_out_push(p, vs@[j as int]);
        }
        m.insert(*next_free, vs[j]);
        *next_free = *next_free + 8;
        j = j + 1;
        proof {
            assert(p.push(vs@[j - 1]) =~= before@ + vs@.take(j as int));
        }
    }
    assert(vs@.take(j as int) =~= vs@);
}

pub proof fn lemma_flat_prefix(gs: Seq<GlobalStatic>, i: int)
    requires
        0 <= i <= gs.len(),
    ensures
        flat_globals(gs.take(i)).len() <= flat_globals(gs).len(),
    decreases gs.len(),
{
    if i == gs.len() {
        assert(gs.take(i) =~= gs);
    } else {
        let d = gs.drop_last();
        assert(d.take(i) =~= gs.take(i));
        lemma_flat_prefix(d, i);
    }
}

/// The slot cap in force: none means the whole address space.
pub open spec fn cap_of(c: Option<u64>) -> u64 {
    match c {
        Some(n) => n,
        None => u64::MAX,
    }
}

/// What a `Memory` holds, as mathematical values.
pub struct MemState {
    pub cells: Map<u64, Value>,
    pub first_writable: u64,
    pub base: u64,
    pub next_alloc: u64,
    pub slot_cap: Option<u64>,
    pub slots_alloced: u64,
}

impl MemState {
    /// The layout invariants of the simulated heap.
    pub open spec fn wf(self) -> bool {
        &&& forall|a: u64| #[trigger]
            self.cells.contains_key(a) ==> a % 8 == 0 && 32 <= a < self.next_alloc
        &&& 32 <= self.first_writable <= self.base <= self.next_alloc
        &&& self.first_writable % 8 == 0
        &&& self.base % 8 == 0
        &&& self.next_alloc % 8 == 0
        &&& 8 * self.slots_alloced <= self.next_alloc
        &&& self.slots_alloced <= cap_of(self.slot_cap)
    }

    /// The outcome of reading address `addr`.
    pub open spec fn lookup(self, addr: u64) -> Result<Value, RuntimeError> {
        if addr == 0 {
            Err(RuntimeError::NullPointer)
        } else if self.first_writable <= addr < self.base {
            Err(RuntimeError::ReadFromGCedData)
        } else if addr % 8 != 0 {
            Err(RuntimeError::UnalignedAccess { addr })
        } else if !self.cells.contains_key(addr) {
            Err(RuntimeError::UnallocatedAddressRead { addr })
        } else if self.cells[addr] is GCTombstone {
            Err(RuntimeError::AccessingDeallocatedAddress { addr })
        } else {
            Ok(self.cells[addr])
        }
    }

    /// The outcome of writing address `addr`: on success, the value it held.
    pub open spec fn store(self, addr: u64) -> Result<Value, RuntimeError> {
        if addr == 0 {
            Err(RuntimeError::NullPointer)
        } else if addr < self.first_writable {
            Err(RuntimeError::WriteToImmutableData)
        } else if addr < self.base {
            Err(RuntimeError::WriteToGCedData)
        } else if addr % 8 != 0 {
            Err(RuntimeError::UnalignedAccess { addr })
        } else if !self.cells.contains_key(addr) {
            Err(RuntimeError::UnallocatedAddressWrite { addr })
        } else if self.cells[addr] is GCTombstone {
            Err(RuntimeError::AccessingDeallocatedAddress { addr })
        } else {
            Ok(self.cells[addr])
        }
    }

    /// The cells after `n` zeroed slots are added from `start` on.
    pub open spec fn zero_fill(self, start: int, n: int) -> Map<u64, Value> {
        Map::new(
            |a: u64| self.cells.contains_key(a) || (start <= a < start + 8 * n && a % 8 == 0),
            |a: u64|
                if self.cells.contains_key(a) {
                    self.cells[a]
                } else {
                    Value::Data(0)
                },
        )
    }

    /// Whether a program allocation of `n` slots asks for a collection first.
    pub open spec fn needs_gc(self, n: u64) -> bool {
        self.slot_cap is Some && self.slots_alloced + n + 1 > cap_of(self.slot_cap)
    }
}

/// The simulated heap: immutable globals, then the mutable region, whose
/// part below `base` has been evacuated by the collector.
pub struct Memory {
    map: BTreeMap<u64, Value>,
    base: u64,
    first_writable: u64,
    next_alloc: u64,
    slot_cap: Option<u64>,
    slots_alloced: u64,
}

impl View for Memory {
    type V = MemState;

    closed spec fn view(&self) -> MemState {
        MemState {
            cells: self.map@,
            first_writable: self.first_writable,
            base: self.base,
            next_alloc: self.next_alloc,
            slot_cap: self.slot_cap,
            slots_alloced: self.slots_alloced,
        }
    }
}

impl Memory {
    /// Lays the globals out from address 32 on and starts the mutable region
    /// right after them.
    #[verifier::rlimit(40)]
    pub fn new(prog: &IRProgram, slot_cap: Option<u64>) -> (r: (Memory, Globals))
        requires
            32 + 8 * flat_globals(prog.globals@).len() <= u64::MAX,
        ensures
            ({
                let (m, globs) = r;
                let gs = prog.globals@;
                let end = 32 + 8 * flat_globals(gs).len();
                &&& m@.wf()
                &&& m@.cells == laid_out(flat_globals(gs))
                &&& m@.first_writable == end
                &&& m@.base == end
                &&& m@.next_alloc == end
                &&& m@.slot_cap == slot_cap
                &&& m@.slots_alloced == 0
                &&& forall|k: Name|
                    globs@.contains_key(k) <==> exists|i: int|
                        0 <= i < gs.len() && gname(#[trigger] gs[i]) == k
                &&& forall|i: int|
                    0 <= i < gs.len() && last_of_name(gs, i) ==> globs@[gname(#[trigger] gs[i])]
                        == global_addr(gs, i)
            }),
    {
        let ghost gs = prog.globals@;
        let mut next_free: u64 = 32;
        let mut m: BTreeMap<u64, Value> = BTreeMap::new();
        let mut globs: Globals = HashMap::new();
        let mut i: usize = 0;
        proof {
            lemma_globals_empty(gs);
            lemma_start(gs);
            assert(m@ =~= laid_out(flat_globals(gs.take(0))));
        }
        while i < prog.globals.len()
            invariant
                gs == prog.globals@,
                0 <= i <= gs.len(),
                32 + 8 * flat_globals(gs).len() <= u64::MAX,
                next_free == global_addr(gs, i as int),
                m@ == laid_out(flat_globals(gs.take(i as int))),
                globals_placed(gs, i as int, globs@),
            decreases gs.len() - i,
        {
            let g = &prog.globals[i];
            proof {
                reveal(global_addr);
                lemma_flat_step(gs, i as int);
                lemma_flat_prefix(gs, i as int + 1);
            }
            let ghost before = flat_globals(gs.take(i as int));
            assert(next_free == 32 + 8 * before.len());
            match g {
                GlobalStatic::Array { name: n, vals: vs } => {
                    let ghost old_globs = globs@;
                    globs.insert(*n, next_free);
                    proof {
                        lemma_globals_step(gs, i as int, old_globs, globs@);
                    }
                    write_words(&mut m, &mut next_free, vs, Ghost(before));
                    assert(next_free == global_addr(gs, i + 1)) by {
                        reveal(global_addr);
                    }
                },
            }
            i = i + 1;
        }
        proof {
            assert(gs.take(i as int) =~= gs);
            lemma_globals_done(gs, globs@);
            assert(forall|a: u64| #[trigger] m@.contains_key(a) ==> a % 8 == 0 && 32 <= a < next_free) by {
                reveal(global_addr);
            }
            assert(next_free == 32 + 8 * flat_globals(gs).len()) by {
                reveal(global_addr);
            }
        }
        let mem = Memory {
            map: m,
            first_writable: next_free,
            base: next_free,
            next_alloc: next_free,
            slot_cap,
            slots_alloced: 0,
        };
        (mem, globs)
    }

    pub fn base(&self) -> (r: u64)
        ensures
            r == self@.base,
    {
        self.base
    }

    pub fn first_writable(&self) -> (r: u64)
        ensures
            r == self@.first_writable,
    {
        self.first_writable
    }

    pub fn next_alloc(&self) -> (r: u64)
        ensures
            r == self@.next_alloc,
    {
        self.next_alloc
    }

    pub fn slots_alloced(&self) -> (r: u64)
        ensures
            r == self@.slots_alloced,
    {
        self.slots_alloced
    }

    pub fn slot_cap(&self) -> (r: Option<u64>)
        ensures
            r == self@.slot_cap,
    {
        self.slot_cap
    }

    /// The raw content of a cell, without any access check.
    pub fn cell(&self, addr: u64) -> (r: Option<Value>)
        ensures
            r == self@.cells.get(addr),
    {
        match self.map.get(&addr) {
            Some(v) => Some(*v),
            None => None,
        }
    }

    /// Reads the word at `addr`.
    pub fn mem_lookup(&self, addr: u64) -> (r: Result<Value, RuntimeError>)
        ensures
            r == self@.lookup(addr),
    {
        if addr == 0 {
            Err(RuntimeError::NullPointer)
        } else if addr >= self.first_writable && addr < self.base {
            Err(RuntimeError::ReadFromGCedData)
        } else if addr % 8 == 0 {
            match self.map.get(&addr) {
                None => Err(RuntimeError::UnallocatedAddressRead { addr }),
                Some(Value::GCTombstone) => Err(RuntimeError::AccessingDeallocatedAddress { addr }),
                Some(v) => Ok(*v),
            }
        } else {
            Err(RuntimeError::UnalignedAccess { addr })
        }
    }

    /// Writes `val` at `addr` and hands back the value it replaced.
    pub fn mem_store(&mut self, addr: u64, val: Value) -> (r: Result<Value, RuntimeError>)
        requires
            old(self)@.wf(),
        ensures
            final(self)@.wf(),
            r == old(self)@.store(addr),
            final(self)@ == (if r is Ok {
                MemState { cells: old(self)@.cells.insert(addr, val), ..old(self)@ }
            } else {
                old(self)@
            }),
            forall|a: u64| #![trigger final(self)@.cells.get(a)]
                a < old(self)@.base ==> final(self)@.cells.get(a) == old(self)@.cells.get(a),
    {
        if addr == 0 {
            Err(RuntimeError::NullPointer)
        } else if addr < self.first_writable {
            Err(RuntimeError::WriteToImmutableData)
        } else if addr < self.base {
            Err(RuntimeError::WriteToGCedData)
        } else if addr % 8 == 0 {
            match self.map.get(&addr) {
                None => Err(RuntimeError::UnallocatedAddressWrite { addr }),
                Some(Value::GCTombstone) => Err(RuntimeError::AccessingDeallocatedAddress { addr }),
                Some(v) => {
                    let prev = *v;
                    self.map.insert(addr, val);
                    Ok(prev)
                },
            }
        } else {
            Err(RuntimeError::UnalignedAccess { addr })
        }
    }

    /// Adds `n` zeroed cells from `next_alloc` on and moves `next_alloc` past them.
    fn fill_zero(&mut self, n: u64)
        requires
            old(self)@.wf(),
            old(self)@.next_alloc + 8 * n <= u64::MAX,
            old(self)@.slots_alloced + n <= cap_of(old(self)@.slot_cap),
        ensures
            final(self)@ == (MemState {
                cells: old(self)@.zero_fill(old(self)@.next_alloc as int, n as int),
                next_alloc: (old(self)@.next_alloc + 8 * n) as u64,
                slots_alloced: (old(self)@.slots_alloced + n) as u64,
                ..old(self)@
            }),
            final(self)@.wf(),
    {
        let ghost s0 = self@;
        let start = self.next_alloc;
        let mut i: u64 = 0;
        assert(s0.cells =~= s0.zero_fill(start as int, 0));
        while i < n
            invariant
                0 <= i <= n,
                start == s0.next_alloc,
                start + 8 * n <= u64::MAX,
                self.next_alloc == start + 8 * i,
                self.map@ == s0.zero_fill(start as int, i as int),
                self.base == s0.base,
                self.first_writable == s0.first_writable,
                self.slot_cap == s0.slot_cap,
                self.slots_alloced == s0.slots_alloced,
                s0.wf(),
            decreases n - i,
        {
            let a = self.next_alloc;
            self.map.insert(a, Value::Data(0));
            self.next_alloc = a + 8;
            i = i + 1;
            proof {
                assert(!s0.cells.contains_key(a));
                assert(self.map@ =~= s0.zero_fill(start as int, i as int));
            }
        }
        self.slots_alloced = self.slots_alloced + n;
    }

    /// Reserves `n` slots for a program object, one gap word above the
    /// previous allocation, and returns the address of the first slot.
    pub fn allocate(&mut self, n: u64) -> (r: Result<u64, RuntimeError>)
        requires
            old(self)@.wf(),
        ensures
            final(self)@.wf(),
            old(self)@.needs_gc(n) ==> r == Err::<u64, RuntimeError>(RuntimeError::GCRequired),
            !old(self)@.needs_gc(n) && old(self)@.next_alloc + 8 + 8 * n > u64::MAX ==> r
                == Err::<u64, RuntimeError>(RuntimeError::OutOfMemory),
            r is Err ==> *final(self) == *old(self),
            !old(self)@.needs_gc(n) && old(self)@.next_alloc + 8 + 8 * n <= u64::MAX ==> r
                == Ok::<u64, RuntimeError>((old(self)@.next_alloc + 8) as u64) && final(self)@
                == (MemState {
                cells: old(self)@.zero_fill(old(self)@.next_alloc + 8, n as int),
                next_alloc: (old(self)@.next_alloc + 8 + 8 * n) as u64,
                slots_alloced: (old(self)@.slots_alloced + n) as u64,
                ..old(self)@
            }),
    {
        if let Some(c) = self.slot_cap {
            if n >= c - self.slots_alloced {
                return Err(RuntimeError::GCRequired);
            }
        }
        if self.next_alloc > u64::MAX - 8 || n > (u64::MAX - 8 - self.next_alloc) / 8 {
            return Err(RuntimeError::OutOfMemory);
        }
        proof {
            assert(self.slots_alloced + n <= cap_of(self.slot_cap)) by {
                assert(8 * self.slots_alloced <= self.next_alloc);
            }
        }
        self.next_alloc = self.next_alloc + 8;
        let r = self.next_alloc;
        self.fill_zero(n);
        Ok(r)
    }

    /// Reserves `n` consecutive slots with no gap word, for the collector.
    pub fn reserve(&mut self, slots_including_metadata: u64) -> (r: Result<u64, RuntimeError>)
        requires
            old(self)@.wf(),
        ensures
            final(self)@.wf(),
            ({
                let n = slots_including_metadata;
                let s = old(self)@;
                if s.slots_alloced + n > cap_of(s.slot_cap) || s.next_alloc + 8 * n > u64::MAX {
                    r == Err::<u64, RuntimeError>(RuntimeError::OutOfMemory) && *final(self)
                        == *old(self)
                } else {
                    r == Ok::<u64, RuntimeError>(s.next_alloc) && final(self)@ == (MemState {
                        cells: s.zero_fill(s.next_alloc as int, n as int),
                        next_alloc: (s.next_alloc + 8 * n) as u64,
                        slots_alloced: (s.slots_alloced + n) as u64,
                        ..s
                    })
                }
            }),
    {
        let n = slots_including_metadata;
        let cap = match self.slot_cap {
            Some(c) => c,
            None => u64::MAX,
        };
        if n > cap - self.slots_alloced {
            return Err(RuntimeError::OutOfMemory);
        }
        if n > (u64::MAX - self.next_alloc) / 8 {
            return Err(RuntimeError::OutOfMemory);
        }
        let metadata_base = self.next_alloc;
        self.fill_zero(n);
        Ok(metadata_base)
    }

    /// Evacuates the object whose first payload slot is at `addr` into fresh
    /// slots at the bump pointer, above `new_base`, and returns its new
    /// payload address. An object already evacuated gives back its
    /// forwarding address. The old object is read whole before anything is
    /// written; its header then forwards to the copy before the references
    /// of the copy are traced, so that a cycle stops at it.
    #[verifier::rlimit(60)]
    pub fn trace(&mut self, addr: u64, new_base: u64) -> (r: Result<u64, RuntimeError>)
        requires
            old(self)@.wf(),
            old(self)@.slot_cap is Some,
            old(self)@.base <= new_base <= old(self)@.next_alloc,
        ensures
            final(self)@.wf(),
            final(self)@.first_writable == old(self)@.first_writable,
            final(self)@.base == old(self)@.base,
            final(self)@.slot_cap == old(self)@.slot_cap,
            old(self)@.next_alloc <= final(self)@.next_alloc,
            old(self)@.slots_alloced <= final(self)@.slots_alloced,
            8 * (final(self)@.slots_alloced - old(self)@.slots_alloced) == final(self)@.next_alloc
                - old(self)@.next_alloc,
            kept(old(self)@, final(self)@, new_base),
            r != Err::<u64, RuntimeError>(RuntimeError::GCRequired),
            r matches Ok(p) ==> new_base <= p && final(self)@.cells.get(header_slot(addr, 16))
                == Some(Value::Data(p)),
            r is Ok && old(self)@.cells.get(header_slot(addr, 16)) == Some(Value::Data(0))
                ==> header_slot(addr, 16) < new_base,
            match old(self)@.cells.get(header_slot(addr, 16)) {
                None => r == Err::<u64, RuntimeError>(RuntimeError::UnallocatedAddressRead { addr })
                    && *final(self) == *old(self),
                Some(Value::Data(f)) => if f != 0 {
                    if new_base <= f && old(self)@.cells.contains_key(f) {
                        r == Ok::<u64, RuntimeError>(f) && *final(self) == *old(self)
                    } else {
                        r == Err::<u64, RuntimeError>(RuntimeError::CorruptGCMetadata { val: Value::Data(f) })
                            && *final(self) == *old(self)
                    }
                } else {
                    evacuation(old(self)@, final(self)@, *final(self) == *old(self), addr, new_base, r)
                },
                Some(v) => r == Err::<u64, RuntimeError>(RuntimeError::CorruptGCMetadata { val: v })
                    && *final(self) == *old(self),
            },
        decreases cap_of(old(self)@.slot_cap) - old(self)@.slots_alloced,
    {
        let ghost s0 = self@;
        proof {
            lemma_kept_refl(s0, new_base);
        }
        let fwd_loc = addr.wrapping_sub(16);
        let fwd = match self.map.get(&fwd_loc) {
            None => return Err(RuntimeError::UnallocatedAddressRead { addr }),
            Some(v) => *v,
        };
        match fwd {
            Value::Data(f) => {
                if f != 0 {
                    if f >= new_base && self.map.contains_key(&f) {
                        return Ok(f);
                    } else {
                        return Err(RuntimeError::CorruptGCMetadata { val: fwd });
                    }
                }
            },
            _ => return Err(RuntimeError::CorruptGCMetadata { val: fwd }),
        }
        // Only an object of the old semispace can be evacuated.
        if fwd_loc >= new_base {
            return Err(RuntimeError::CorruptGCMetadata { val: fwd });
        }
        let sizev = match self.map.get(&addr.wrapping_sub(24)) {
            None => return Err(RuntimeError::UnallocatedAddressRead { addr }),
            Some(v) => *v,
        };
        let allocsize = match sizev {
            Value::Data(n) => n,
            _ => return Err(RuntimeError::CorruptGCMetadata { val: sizev }),
        };
        let mapv = match self.map.get(&addr.wrapping_sub(8)) {
            None => return Err(RuntimeError::UnallocatedAddressRead { addr }),
            Some(v) => *v,
        };
        let slotmap = match mapv {
            Value::Data(n) => n,
            _ => return Err(RuntimeError::CorruptGCMetadata { val: mapv }),
        };
        if allocsize < 3 {
            return Err(RuntimeError::CorruptGCMetadata { val: sizev });
        }
        let count = allocsize - 3;
        let vals = self.read_payload(addr, slotmap, count)?;
        let new_meta = self.reserve(allocsize)?;
        proof {
            assert(kept(s0, self@, new_base)) by {
                reveal(kept);
            }
        }
        let ghost r0 = self@;
        self.map.insert(new_meta, sizev);
        proof {
            lemma_kept_fresh_write(s0, r0, new_meta, sizev, new_base);
        }
        let ghost r1 = self@;
        self.map.insert(new_meta + 8, Value::Data(0));
        proof {
            lemma_kept_fresh_write(s0, r1, (new_meta + 8) as u64, Value::Data(0), new_base);
        }
        let ghost r2 = self@;
        self.map.insert(new_meta + 16, mapv);
        proof {
            lemma_kept_fresh_write(s0, r2, (new_meta + 16) as u64, mapv, new_base);
        }
        let new_payload = new_meta + 24;
        proof {
            assert(self@.cells.dom() =~= s0.zero_fill(s0.next_alloc as int, allocsize as int).dom());
            assert forall|j: int| 0 <= j < count implies #[trigger] self@.cells.get(
                (new_payload + 8 * j) as u64,
            ) == Some(Value::Data(0)) by {
                let a = (new_payload + 8 * j) as u64;
                assert(s0.zero_fill(s0.next_alloc as int, allocsize as int).contains_key(a));
            }
        }
        let ghost r3 = self@;
        self.mem_store(fwd_loc, Value::Data(new_payload))?;
        proof {
            lemma_kept_forward_write(s0, r3, fwd_loc, Value::Data(new_payload), new_base);
        }
        let mut i: u64 = 0;
        while i < count
            invariant
                s0 == old(self)@,
                s0.wf(),
                s0.cells.get(header_slot(addr, 16)) == Some(Value::Data(0)),
                fwd_loc == header_slot(addr, 16),
                fwd_loc < new_base,
                self@.wf(),
                self@.first_writable == s0.first_writable,
                self@.base == s0.base,
                self@.slot_cap == s0.slot_cap,
                s0.slot_cap is Some,
                s0.base <= new_base <= s0.next_alloc,
                new_meta == s0.next_alloc,
                new_meta + 8 * allocsize <= self@.next_alloc,
                new_meta + 8 * allocsize <= u64::MAX,
                new_payload == new_meta + 24,
                3 <= allocsize,
                count == allocsize - 3,
                i <= count,
                s0.slots_alloced + allocsize <= self@.slots_alloced,
                8 * (self@.slots_alloced - s0.slots_alloced) == self@.next_alloc - s0.next_alloc,
                s0.cells.get(header_slot(addr, 24)) == Some(sizev),
                s0.cells.get(header_slot(addr, 8)) == Some(mapv),
                sizev == Value::Data(allocsize),
                mapv == Value::Data(slotmap),
                vals@.len() == count,
                forall|j: int|
                    0 <= j < count ==> slot_ok(s0.cells, addr, slotmap, j) && vals@[j]
                        == s0.cells[#[trigger] slot_addr(addr, j)],
                self@.cells.get(new_meta) == Some(sizev),
                self@.cells.get((new_meta + 8) as u64) == Some(Value::Data(0)),
                self@.cells.get((new_meta + 16) as u64) == Some(mapv),
                self@.cells.get(fwd_loc) == Some(Value::Data(new_payload)),
                forall|j: int|
                    0 <= j < i ==> #[trigger] copied_slot(s0, self@, addr, slotmap, new_payload, j, new_base),
                forall|j: int|
                    i <= j < count ==> #[trigger] self@.cells.get((new_payload + 8 * j) as u64)
                        == Some(Value::Data(0)),
                kept(s0, self@, new_base),
            decreases count - i,
        {
            let v = vals[i as usize];
            let is_ref_slot = i < 64 && (slotmap >> i) & 1 == 1;
            assert(is_ref_slot == is_ref(slotmap, i as int));
            let ghost before = self@;
            let ghost x = (new_payload + 8 * i) as u64;
            assert(before.cells.get(x) == Some(Value::Data(0)));
            assert(vals@[i as int] == s0.cells[slot_addr(addr, i as int)] && slot_ok(s0.cells, addr, slotmap, i as int));
            let ghost mut tres: u64 = 0;
            let w = if is_ref_slot {
                match v {
                    Value::Data(q) => {
                        let t = match self.trace(q, new_base) {
                            Ok(t) => t,
                            Err(e) => {
                                proof {
                                    lemma_kept_trans(s0, before, self@, new_base);
                                }
                                return Err(e);
                            },
                        };
                        proof {
                            let m = self@;
                            assert(m.cells.get(header_slot(q, 16)) == Some(Value::Data(t)));
                            tres = t;
                            lemma_kept_trans(s0, before, m, new_base);
                            assert(m.cells.get(new_meta) == Some(sizev)
                                && m.cells.get((new_meta + 8) as u64) == Some(Value::Data(0))
                                && m.cells.get((new_meta + 16) as u64) == Some(mapv)
                                && m.cells.get(fwd_loc) == Some(Value::Data(new_payload))) by {
                                reveal(kept);
                            }
                            assert forall|j: int| i <= j < count implies #[trigger] m.cells.get((new_payload + 8 * j) as u64)
                                == Some(Value::Data(0)) by {
                                reveal(kept);
                                assert(before.cells.get((new_payload + 8 * j) as u64) == Some(Value::Data(0)));
                            }
                            assert forall|j: int| 0 <= j < i implies #[trigger] copied_slot(s0, m, addr, slotmap, new_payload, j, new_base) by {
                                assert(copied_slot(s0, before, addr, slotmap, new_payload, j, new_base));
                                reveal(kept);
                                if is_ref(slotmap, j) {
                                    let q2 = s0.cells[slot_addr(addr, j)]->Data_0;
                                    assert(before.cells.get(header_slot(q2, 16)) == m.cells.get(header_slot(q2, 16)));
                                }
                                assert(before.cells.get((new_payload + 8 * j) as u64) == m.cells.get((new_payload + 8 * j) as u64));
                            }
                        }
                        Value::Data(t)
                    },
                    _ => v,
                }
            } else {
                v
            };
            let a = new_payload + i * 8;
            let ghost mid = self@;
            assert(a == x);
            assert(mid.cells.get(x) == Some(Value::Data(0)));
            self.map.insert(a, w);
            proof {
                lemma_kept_fresh_write(s0, mid, x, w, new_base);
                assert(self@ == MemState { cells: mid.cells.insert(x, w), ..mid });
                assert(self@.cells.dom() =~= mid.cells.dom());
                assert forall|j: int| i + 1 <= j < count implies #[trigger] self@.cells.get((new_payload + 8 * j) as u64)
                    == Some(Value::Data(0)) by {
                    assert(mid.cells.get((new_payload + 8 * j) as u64) == Some(Value::Data(0)));
                }
                assert(self@.cells.get(x) == Some(w));
                if is_ref(slotmap, i as int) {
                    assert(v is Data);
                    let q = v->Data_0;
                    let t = tres;
                    assert(w == Value::Data(t));
                    assert(s0.cells.get(slot_addr(addr, i as int)) == Some(Value::Data(q)));
                    assert(mid.cells.get(header_slot(q, 16)) == Some(Value::Data(t)));
                    assert(header_slot(q, 16) != x);
                    assert(self@.cells.get(header_slot(q, 16)) == Some(Value::Data(t)));
                    assert(new_base <= t);
                    assert(self@.cells.get((new_payload + 8 * (i as int)) as u64) == Some(Value::Data(t)));
                    lemma_copied_ref(s0, self@, addr, slotmap, new_payload, i as int, new_base, q, t);
                } else {
                    assert(s0.cells.contains_key(slot_addr(addr, i as int)));
                    assert(s0.cells.get(slot_addr(addr, i as int)) == Some(v));
                    assert(w == v);
                    assert(self@.cells.get((new_payload + 8 * (i as int)) as u64) == Some(v));
                    lemma_copied_scalar(s0, self@, addr, slotmap, new_payload, i as int, new_base);
                }
                assert forall|j: int| 0 <= j < i + 1 implies #[trigger] copied_slot(s0, self@, addr, slotmap, new_payload, j, new_base) by {
                    if j < i {
                        assert(copied_slot(s0, mid, addr, slotmap, new_payload, j, new_base));
                    }
                }
            }
            i = i + 1;
        }
        Ok(new_payload)
    }

    /// Reads the `count` payload slots of the object at `addr`, each of which
    /// must be present, and a data word where `slotmap` marks a reference.
    fn read_payload(&self, addr: u64, slotmap: u64, count: u64) -> (r: Result<Vec<Value>, RuntimeError>)
        ensures
            match r {
                Ok(vals) => vals@.len() == count && forall|j: int|
                    0 <= j < count ==> slot_ok(self@.cells, addr, slotmap, j) && vals@[j]
                        == self@.cells[#[trigger] slot_addr(addr, j)],
                Err(e) => exists|i: int| #[trigger] first_bad(self@.cells, addr, slotmap, count as int, i)
                    && e == slot_error(self@.cells, addr, slotmap, i),
            },
    {
        let mut vals: Vec<Value> = Vec::new();
        let mut i: u64 = 0;
        while i < count
            invariant
                i <= count,
                vals@.len() == i,
                forall|j: int|
                    0 <= j < i ==> slot_ok(self@.cells, addr, slotmap, j) && vals@[j]
                        == self@.cells[#[trigger] slot_addr(addr, j)],
            decreases count - i,
        {
            let scaled = i.wrapping_mul(8);
            let a = addr.wrapping_add(scaled);
            proof {
                assert(scaled == (i * 8) % 0x1_0000_0000_0000_0000);
                vstd::arithmetic::div_mod::lemma_add_mod_noop_right(
                    addr as int,
                    8 * i,
                    0x1_0000_0000_0000_0000,
                );
                assert(a == slot_addr(addr, i as int));
            }
            let v = match self.map.get(&a) {
                None => {
                    assert(first_bad(self@.cells, addr, slotmap, count as int, i as int));
                    return Err(RuntimeError::UnallocatedAddressRead { addr: a });
                },
                Some(v) => *v,
            };
            let is_ref_slot = i < 64 && (slotmap >> i) & 1 == 1;
            if is_ref_slot {
                match v {
                    Value::Data(_) => {},
                    Value::CodePtr(_) => {
                        assert(first_bad(self@.cells, addr, slotmap, count as int, i as int));
                        return Err(RuntimeError::BadGCField);
                    },
                    Value::GCTombstone => {
                        assert(first_bad(self@.cells, addr, slotmap, count as int, i as int));
                        return Err(RuntimeError::CorruptGCMetadata { val: v });
                    },
                }
            }
            vals.push(v);
            i = i + 1;
        }
        Ok(vals)
    }

    /// Copying collection: evacuates everything reachable from `locals` into
    /// a fresh semispace, rewrites the locals to the new addresses, puts
    /// tombstones in every cell of the old semispace and moves `base` up.
    pub fn gc(&mut self, locals: &mut Locals) -> (r: Result<(), RuntimeError>)
        requires
            old(self)@.wf(),
            old(self)@.slot_cap is Some,
            old(locals).wf(),
        ensures
            final(self)@.wf(),
            final(locals).wf(),
            final(self)@.first_writable == old(self)@.first_writable,
            final(self)@.slot_cap == old(self)@.slot_cap,
            forall|a: u64| #![trigger final(self)@.cells.get(a)]
                a < old(self)@.base ==> final(self)@.cells.get(a) == old(self)@.cells.get(a),
            final(locals)@.dom() == old(locals)@.dom(),
            r != Err::<(), RuntimeError>(RuntimeError::GCRequired),
            (forall|k: Name| #[trigger] old(locals)@.contains_key(k) ==> old(locals)@[k] is CodePtr)
                ==> r is Ok && final(self)@.next_alloc == old(self)@.next_alloc,
            (exists|k: Name| #[trigger] old(locals)@.contains_key(k) && old(locals)@[k] is GCTombstone)
                ==> r is Err,
            r is Ok ==> {
                &&& final(self)@.base == old(self)@.next_alloc
                &&& 8 * final(self)@.slots_alloced == final(self)@.next_alloc - old(self)@.next_alloc
                &&& forall|k: Name| #[trigger]
                    final(locals)@.contains_key(k) ==> relocated(final(locals)@[k], final(self)@.base)
                &&& forall|k: Name| #[trigger]
                    old(locals)@.contains_key(k) ==> (old(locals)@[k] is CodePtr ==> final(locals)@[k]
                        == old(locals)@[k]) && (old(locals)@[k] is Data ==> final(locals)@[k] is Data)
                &&& forall|k1: Name, k2: Name|
                    #![trigger old(locals)@[k1], old(locals)@[k2]]
                    old(locals)@.contains_key(k1) && old(locals)@.contains_key(k2) && old(locals)@[k1]
                        == old(locals)@[k2] && old(locals)@[k1] is Data ==> final(locals)@[k1]
                        == final(locals)@[k2]
                &&& forall|a: u64| #[trigger]
                    old(self)@.cells.contains_key(a) && old(self)@.base <= a < old(self)@.next_alloc
                        ==> final(self)@.cells[a] == Value::GCTombstone
            },
    {
        let ghost s0 = self@;
        let ghost e0 = locals.entries();
        proof {
            locals.lemma_view();
            lemma_same_names(e0, e0);
        }
        let new_base = self.next_alloc;
        self.slots_alloced = 0;
        proof {
            assert(kept(s0, self@, new_base)) by {
                reveal(kept);
            }
        }
        let mut j: usize = 0;
        let n = locals.len();
        while j < n
            invariant
                s0 == old(self)@,
                s0.wf(),
                e0 == old(locals).entries(),
                old(locals)@ == map_of(e0),
                old(locals).wf(),
                locals.wf(),
                locals@.dom() == old(locals)@.dom(),
                self@.wf(),
                self@.first_writable == s0.first_writable,
                self@.base == s0.base,
                self@.slot_cap == s0.slot_cap,
                s0.slot_cap is Some,
                s0.base <= new_base <= self@.next_alloc,
                new_base == s0.next_alloc,
                8 * self@.slots_alloced == self@.next_alloc - new_base,
                kept(s0, self@, new_base),
                (forall|i: int| 0 <= i < n ==> (#[trigger] e0[i]).1 is CodePtr) ==> self@.next_alloc == new_base,
                n == e0.len(),
                j <= n,
                locals.entries().len() == n,
                forall|i: int| 0 <= i < n ==> #[trigger] locals.entries()[i].0 == e0[i].0,
                forall|i: int| j <= i < n ==> #[trigger] locals.entries()[i] == e0[i],
                forall|i: int|
                    0 <= i < j ==> relocated(#[trigger] locals.entries()[i].1, new_base)
                        && !(e0[i].1 is GCTombstone),
                forall|i: int|
                    0 <= i < j && e0[i].1 is CodePtr ==> #[trigger] locals.entries()[i] == e0[i],
                forall|i: int|
                    0 <= i < j && e0[i].1 is Data ==> (#[trigger] locals.entries()[i].1 matches Value::Data(b)
                        && self@.cells.get(header_slot(e0[i].1->Data_0, 16)) == Some(Value::Data(b))),
            decreases n - j,
        {
            let (_x, v) = locals.entry(j);
            match v {
                Value::CodePtr(_) => {},
                Value::Data(p) => {
                    let ghost before = self@;
                    let newloc = match self.trace(p, new_base) {
                        Ok(t) => t,
                        Err(e) => {
                            proof {
                                lemma_kept_trans(s0, before, self@, new_base);
                                lemma_map_of_at(e0, j as int);
                                assert(old(locals)@.contains_key(e0[j as int].0));
                                reveal(kept);
                            }
                            return Err(e);
                        },
                    };
                    proof {
                        lemma_kept_trans(s0, before, self@, new_base);
                        assert forall|i: int| 0 <= i < j && e0[i].1 is Data implies self@.cells.get(
                            header_slot(e0[i].1->Data_0, 16),
                        ) == before.cells.get(header_slot(e0[i].1->Data_0, 16)) by {
                            reveal(kept);
                            let h = header_slot(e0[i].1->Data_0, 16);
                            let b = locals.entries()[i].1->Data_0;
                            assert(relocated(locals.entries()[i].1, new_base));
                            assert(before.cells.get(h) == Some(Value::Data(b)));
                            assert(before.cells.contains_key(h));
                        }
                    }
                    let ghost ents = locals.entries();
                    locals.set_value_at(j, Value::Data(newloc));
                    proof {
                        assert(forall|i: int| 0 <= i < n ==> #[trigger] locals.entries()[i].0 == ents[i].0);
                        assert(forall|i: int| 0 <= i < n && i != j ==> #[trigger] locals.entries()[i] == ents[i]);
                        locals.lemma_view();
                        lemma_same_names(e0, locals.entries());
                    }
                },
                Value::GCTombstone => {
                    proof {
                        reveal(kept);
                        lemma_map_of_at(e0, j as int);
                        assert(old(locals)@.contains_key(e0[j as int].0));
                        assert(!(old(locals)@[e0[j as int].0] is CodePtr));
                    }
                    return Err(RuntimeError::CorruptGCMetadata { val: v });
                },
            }
            j = j + 1;
        }
        let ghost s1 = self@;
        proof {
            reveal(kept);
        }
        let mut loc = self.base;
        while loc < new_base
            invariant
                self@.wf(),
                self@.first_writable == s0.first_writable,
                self@.base == s0.base,
                self@.slot_cap == s0.slot_cap,
                self@.next_alloc == s1.next_alloc,
                self@.slots_alloced == s1.slots_alloced,
                s0.base <= loc <= new_base,
                loc % 8 == 0,
                new_base % 8 == 0,
                new_base == s0.next_alloc,
                new_base <= self@.next_alloc,
                self@.cells.dom() == s1.cells.dom(),
                forall|a: u64| #[trigger] s0.cells.contains_key(a) ==> s1.cells.contains_key(a),
                forall|a: u64| #![trigger self@.cells.get(a)]
                    a < s0.base ==> self@.cells.get(a) == s0.cells.get(a),
                forall|a: u64| #[trigger]
                    self@.cells.contains_key(a) && s0.base <= a < loc ==> self@.cells[a]
                        == Value::GCTombstone,
            decreases new_base - loc,
        {
            if self.map.contains_key(&loc) {
                let ghost c = self@.cells;
                self.map.insert(loc, Value::GCTombstone);
                assert(self@.cells.dom() =~= s1.cells.dom());
                assert forall|a: u64| a < s0.base implies #[trigger] self@.cells.get(a) == c.get(a) by {
                    assert(a != loc);
                }
            }
            loc = loc + 8;
        }
        self.base = new_base;
        proof {
            let e1 = locals.entries();
            locals.lemma_view();
            lemma_same_names(e0, e1);
            assert forall|k: Name| #[trigger] map_of(e1).contains_key(k) implies relocated(map_of(e1)[k], new_base) && (map_of(e0)[k] is CodePtr ==> map_of(e1)[k] == map_of(e0)[k]) && (map_of(e0)[k] is Data ==> map_of(e1)[k] is Data) by {
                let i = choose|i: int| 0 <= i < e1.len() && e1[i].0 == k;
                lemma_map_of_at(e1, i);
                lemma_map_of_at(e0, i);
            }
            assert forall|k1: Name, k2: Name|
                map_of(e0).contains_key(k1) && map_of(e0).contains_key(k2) && #[trigger] map_of(e0)[k1]
                    == #[trigger] map_of(e0)[k2] && map_of(e0)[k1] is Data implies map_of(e1)[k1] == map_of(e1)[k2] by {
                let i1 = choose|i: int| 0 <= i < e0.len() && e0[i].0 == k1;
                let i2 = choose|i: int| 0 <= i < e0.len() && e0[i].0 == k2;
                lemma_map_of_at(e0, i1);
                lemma_map_of_at(e0, i2);
                lemma_map_of_at(e1, i1);
                lemma_map_of_at(e1, i2);
                assert(e1[i1].1 matches Value::Data(_));
            }
            if forall|k: Name| #[trigger] map_of(e0).contains_key(k) ==> map_of(e0)[k] is CodePtr {
                assert forall|i: int| 0 <= i < n implies (#[trigger] e0[i]).1 is CodePtr by {
                    lemma_map_of_at(e0, i);
                }
            }
            assert forall|k: Name| #[trigger] map_of(e0).contains_key(k) implies !(map_of(e0)[k] is GCTombstone) by {
                let i = choose|i: int| 0 <= i < e0.len() && e0[i].0 == k;
                lemma_map_of_at(e0, i);
            }
        }
        Ok(())
    }
}

} // verus!
