use vstd::prelude::*;

verus! {

/// An interned identifier: a block, variable or global name.  The front end
/// gives each distinct identifier a distinct number.
pub type Name = u64;

/// A tagged machine word, held both by local variables and by memory cells.
#[derive(Debug, Clone, Copy, PartialEq, Eq, Structural)]
pub enum Value {
    /// An integer or a heap address.
    Data(u64),
    /// A handle to the basic block of that name.
    CodePtr(Name),
    /// Placed in the cells of a region that the collector has evacuated.
    GCTombstone,
}

/// How the interpreter was asked to run.
#[derive(Debug, Clone, Copy, PartialEq, Eq, Structural)]
pub enum ExecMode {
    Normal,
    MemCap { limit: i32 },
    GC,
}

/// Every way in which running a program can fail.
#[derive(Debug, Clone, Copy, PartialEq, Eq, Structural)]
pub enum RuntimeError {
    AccessingCodeInMemory { bname: Name },
    AccessingDeallocatedAddress { addr: u64 },
    BadCallArity,
    BadGCField,
    BadPhiPredecessor { actual_predecessor: Name },
    CallingNonCode,
    CodeAddressArithmetic { bname: Name },
    CorruptGCMetadata { val: Value },
    DivideByZero,
    GCRequired,
    InvalidBlock { bname: Name },
    InvalidBlockInControl { bname: Name },
    MissingMain,
    NullPointer,
    OutOfMemory,
    PhiInFirstBlock,
    UnalignedAccess { addr: u64 },
    UnallocatedAddressRead { addr: u64 },
    UnallocatedAddressWrite { addr: u64 },
    UninitializedVariable { name: Name },
    UndefinedVariable,
    UndefinedGlobal { name: Name },
    ReadFromGCedData,
    WriteToGCedData,
    WriteToImmutableData,
    NYI,
}

} // verus!
