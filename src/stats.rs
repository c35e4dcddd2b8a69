use vstd::prelude::*;

verus! {

/// One more, except at the largest counter value, where a counter stays.
pub open spec fn bump(n: u64) -> u64 {
    if n < u64::MAX {
        (n + 1) as u64
    } else {
        n
    }
}

/// Counts of the operations that a run performed, by cost class.
#[derive(Debug, Clone, Copy, PartialEq, Eq, Structural)]
pub struct ExecStats {
    /// + - & | << >> ^ comparisons, and register copies
    pub fast_alu_ops: u64,
    /// * and /
    pub slow_alu_ops: u64,
    pub conditional_branches: u64,
    pub unconditional_branches: u64,
    pub calls: u64,
    pub rets: u64,
    pub mem_reads: u64,
    pub mem_writes: u64,
    pub allocs: u64,
    pub prints: u64,
    pub phis: u64,
}

impl ExecStats {
    /// No counter of `self` is above the same counter of `o`.
    pub open spec fn le(self, o: ExecStats) -> bool {
        &&& self.fast_alu_ops <= o.fast_alu_ops
        &&& self.slow_alu_ops <= o.slow_alu_ops
        &&& self.conditional_branches <= o.conditional_branches
        &&& self.unconditional_branches <= o.unconditional_branches
        &&& self.calls <= o.calls
        &&& self.rets <= o.rets
        &&& self.mem_reads <= o.mem_reads
        &&& self.mem_writes <= o.mem_writes
        &&& self.allocs <= o.allocs
        &&& self.prints <= o.prints
        &&& self.phis <= o.phis
    }

    /// All counters at zero.
    pub fn new() -> (r: ExecStats)
        ensures
            r == (ExecStats {
                fast_alu_ops: 0,
                slow_alu_ops: 0,
                conditional_branches: 0,
                unconditional_branches: 0,
                calls: 0,
                rets: 0,
                mem_reads: 0,
                mem_writes: 0,
                allocs: 0,
                prints: 0,
                phis: 0,
            }),
    {
        ExecStats {
            fast_alu_ops: 0,
            slow_alu_ops: 0,
            conditional_branches: 0,
            unconditional_branches: 0,
            calls: 0,
            rets: 0,
            mem_reads: 0,
            mem_writes: 0,
            allocs: 0,
            prints: 0,
            phis: 0,
        }
    }

    pub fn fast_op(&mut self)
        ensures
            *final(self) == (ExecStats { fast_alu_ops: bump(old(self).fast_alu_ops), ..*old(self) }),
    {
        self.fast_alu_ops = self.fast_alu_ops.saturating_add(1);
    }

    pub fn slow_op(&mut self)
        ensures
            *final(self) == (ExecStats { slow_alu_ops: bump(old(self).slow_alu_ops), ..*old(self) }),
    {
        self.slow_alu_ops = self.slow_alu_ops.saturating_add(1);
    }

    pub fn cond(&mut self)
        ensures
            *final(self) == (ExecStats {
                conditional_branches: bump(old(self).conditional_branches),
                ..*old(self)
            }),
    {
        self.conditional_branches = self.conditional_branches.saturating_add(1);
    }

    pub fn uncond(&mut self)
        ensures
            *final(self) == (ExecStats {
                unconditional_branches: bump(old(self).unconditional_branches),
                ..*old(self)
            }),
    {
        self.unconditional_branches = self.unconditional_branches.saturating_add(1);
    }

    pub fn call(&mut self)
        ensures
            *final(self) == (ExecStats { calls: bump(old(self).calls), ..*old(self) }),
    {
        self.calls = self.calls.saturating_add(1);
    }

    pub fn ret(&mut self)
        ensures
            *final(self) == (ExecStats { rets: bump(old(self).rets), ..*old(self) }),
    {
        self.rets = self.rets.saturating_add(1);
    }

    pub fn read(&mut self)
        ensures
            *final(self) == (ExecStats { mem_reads: bump(old(self).mem_reads), ..*old(self) }),
    {
        self.mem_reads = self.mem_reads.saturating_add(1);
    }

    pub fn write(&mut self)
        ensures
            *final(self) == (ExecStats { mem_writes: bump(old(self).mem_writes), ..*old(self) }),
    {
        self.mem_writes = self.mem_writes.saturating_add(1);
    }

    pub fn allocation(&mut self)
        ensures
            *final(self) == (ExecStats { allocs: bump(old(self).allocs), ..*old(self) }),
    {
        self.allocs = self.allocs.saturating_add(1);
    }

    pub fn print(&mut self)
        ensures
            *final(self) == (ExecStats { prints: bump(old(self).prints), ..*old(self) }),
    {
        self.prints = self.prints.saturating_add(1);
    }

    pub fn phi(&mut self)
        ensures
            *final(self) == (ExecStats { phis: bump(old(self).phis), ..*old(self) }),
    {
        self.phis = self.phis.saturating_add(1);
    }
}

} // verus!
