//! Exit codes reported to the test harness through the emulator's debug
//! exit device. The port write itself is hardware I/O and lives outside the
//! verified crate; this module fixes the code values that go out on the wire.

use vstd::prelude::*;

verus! {

/// Outcome signalled to the host when the kernel finishes under a harness.
#[derive(Debug, Clone, Copy, PartialEq, Eq, Structural)]
pub enum QEmuExitCode {
    Success,
    Failed,
}

impl QEmuExitCode {
    /// The 32-bit value written to the exit device for this outcome.
    pub open spec fn spec_code(self) -> u32 {
        match self {
            QEmuExitCode::Success => 0x10,
            QEmuExitCode::Failed => 0x11,
        }
    }

    /// Returns the wire value for this exit code.
    pub fn code(&self) -> (v: u32)
        ensures
            v == self.spec_code(),
    {
        match self {
            QEmuExitCode::Success => 0x10,
            QEmuExitCode::Failed => 0x11,
        }
    }
}

} // verus!
