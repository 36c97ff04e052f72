//! Interrupt descriptor table layout and fault dispatch policy.
//!
//! At boot the kernel installs handlers for three CPU fault vectors:
//! breakpoint, page fault, and double fault. The double-fault handler runs
//! on a dedicated stack reserved by the global descriptor table, so that a
//! fault caused by a corrupt stack can still be reported. This module
//! holds the table layout as data and the policy for each fault class; the
//! kernel shell binds the actual handler entry points and loads the table
//! into the CPU, once, during the boot sequence.

use vstd::prelude::*;

verus! {

/// Vector number of the breakpoint trap.
pub const BREAKPOINT_VECTOR: usize = 3;

/// Vector number of the double fault.
pub const DOUBLE_FAULT_VECTOR: usize = 8;

/// Vector number of the page fault.
pub const PAGE_FAULT_VECTOR: usize = 14;

/// Number of entries in the interrupt descriptor table.
pub const IDT_ENTRIES: usize = 256;

/// The interrupt-stack-table slot the global descriptor table reserves for
/// the double-fault handler's dedicated stack.
pub const DOUBLE_FAULT_IST_INDEX: u8 = 0;

/// The fault classes this kernel handles.
#[derive(Debug, Clone, Copy, PartialEq, Eq, Structural)]
pub enum FaultKind {
    Breakpoint,
    PageFault,
    DoubleFault,
}

/// What happens after a fault is reported: execution resumes at the next
/// instruction, or the kernel halts.
#[derive(Debug, Clone, Copy, PartialEq, Eq, Structural)]
pub enum FaultDisposition {
    Resume,
    Fatal,
}

/// The dispatch policy: a breakpoint is report-and-continue; a page fault
/// and a double fault are fatal.
pub open spec fn spec_classify(kind: FaultKind) -> FaultDisposition {
    match kind {
        FaultKind::Breakpoint => FaultDisposition::Resume,
        FaultKind::PageFault => FaultDisposition::Fatal,
        FaultKind::DoubleFault => FaultDisposition::Fatal,
    }
}

/// Decides what a handler does after reporting: exactly the breakpoint
/// trap resumes; every other handled fault halts the kernel.
pub fn classify_fault(kind: FaultKind) -> (d: FaultDisposition)
    ensures
        d == spec_classify(kind),
        d == FaultDisposition::Resume <==> kind == FaultKind::Breakpoint,
{
    match kind {
        FaultKind::Breakpoint => FaultDisposition::Resume,
        FaultKind::PageFault => FaultDisposition::Fatal,
        FaultKind::DoubleFault => FaultDisposition::Fatal,
    }
}

/// One slot of the interrupt descriptor table: either unbound, or bound to
/// a handler, optionally with a dedicated stack to switch to.
#[derive(Debug, Clone, Copy, PartialEq, Eq)]
pub enum IdtEntry {
    Missing,
    Present { handler: FaultKind, stack_index: Option<u8> },
}

/// The interrupt descriptor table as data: 256 slots, built once at boot
/// and never changed afterwards.
pub struct InterruptTable {
    entries: Vec<IdtEntry>,
}

impl InterruptTable {
    /// The table's slots, by vector number.
    pub closed spec fn entries_view(self) -> Seq<IdtEntry> {
        self.entries@
    }

    /// The table holds one slot per vector.
    pub closed spec fn wf(self) -> bool {
        self.entries@.len() == IDT_ENTRIES
    }

    /// Reads the slot for one vector.
    pub fn entry(&self, vector: usize) -> (e: IdtEntry)
        requires
            self.wf(),
            vector < IDT_ENTRIES,
        ensures
            e == self.entries_view()[vector as int],
    {
        self.entries[vector]
    }
}

/// Builds the boot interrupt table: the breakpoint and page-fault vectors
/// bound to their handlers on the running stack, the double-fault vector
/// bound to its handler on the dedicated stack the descriptor tables
/// reserve, and every other vector left unbound. The kernel shell loads
/// the resulting table into the CPU exactly once.
pub fn init() -> (idt: InterruptTable)
    ensures
        idt.wf(),
        idt.entries_view()[BREAKPOINT_VECTOR as int] == (IdtEntry::Present {
            handler: FaultKind::Breakpoint,
            stack_index: None,
        }),
        idt.entries_view()[PAGE_FAULT_VECTOR as int] == (IdtEntry::Present {
            handler: FaultKind::PageFault,
            stack_index: None,
        }),
        idt.entries_view()[DOUBLE_FAULT_VECTOR as int] == (IdtEntry::Present {
            handler: FaultKind::DoubleFault,
            stack_index: Some(DOUBLE_FAULT_IST_INDEX),
        }),
        forall|v: int|
            0 <= v < IDT_ENTRIES && v != BREAKPOINT_VECTOR && v != PAGE_FAULT_VECTOR && v
                != DOUBLE_FAULT_VECTOR ==> idt.entries_view()[v] == IdtEntry::Missing,
{
    let mut entries: Vec<IdtEntry> = Vec::new();
    let mut i: usize = 0;
    while i < IDT_ENTRIES
        invariant
            i <= IDT_ENTRIES,
            entries@.len() == i,
            forall|v: int| 0 <= v < i ==> entries@[v] == IdtEntry::Missing,
        decreases IDT_ENTRIES - i,
    {
        entries.push(IdtEntry::Missing);
        i = i + 1;
    }
    entries.set(
        BREAKPOINT_VECTOR,
        IdtEntry::Present { handler: FaultKind::Breakpoint, stack_index: None },
    );
    entries.set(
        PAGE_FAULT_VECTOR,
        IdtEntry::Present { handler: FaultKind::PageFault, stack_index: None },
    );
    entries.set(
        DOUBLE_FAULT_VECTOR,
        IdtEntry::Present {
            handler: FaultKind::DoubleFault,
            stack_index: Some(DOUBLE_FAULT_IST_INDEX),
        },
    );
    InterruptTable { entries }
}

/// The boot sequence of the descriptor tables, in the order the kernel
/// performs it: nothing loaded, global descriptor table loaded, interrupt
/// table loaded, then fault handling active. There is no transition back.
#[derive(Debug, Clone, Copy, PartialEq, Eq, Structural)]
pub enum BootStage {
    Uninitialized,
    GdtLoaded,
    IdtLoaded,
    Active,
}

/// The one legal successor of each boot stage.
pub open spec fn spec_next_boot_stage(stage: BootStage) -> BootStage {
    match stage {
        BootStage::Uninitialized => BootStage::GdtLoaded,
        BootStage::GdtLoaded => BootStage::IdtLoaded,
        BootStage::IdtLoaded => BootStage::Active,
        BootStage::Active => BootStage::Active,
    }
}

/// Advances the boot sequence by one step; once active it stays active.
pub fn next_boot_stage(stage: BootStage) -> (next: BootStage)
    ensures
        next == spec_next_boot_stage(stage),
{
    match stage {
        BootStage::Uninitialized => BootStage::GdtLoaded,
        BootStage::GdtLoaded => BootStage::IdtLoaded,
        BootStage::IdtLoaded => BootStage::Active,
        BootStage::Active => BootStage::Active,
    }
}

} // verus!
