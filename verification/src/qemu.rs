//! Leaving the emulator.

use vstd::prelude::*;

verus! {

/// How the kernel leaves the emulator.
#[derive(Debug, Clone, Copy, PartialEq, Eq, Structural)]
pub enum QemuExitCode {
    /// All went well.
    Success,
    /// Something failed.
    Failed,
}

impl QemuExitCode {
    /// The number to write to the emulator's exit device.
    pub fn code(self) -> (code: u32)
        ensures
            code == match self {
                QemuExitCode::Success => 0x10u32,
                QemuExitCode::Failed => 0x11u32,
            },
    {
        match self {
            QemuExitCode::Success => 0x10,
            QemuExitCode::Failed => 0x11,
        }
    }
}

} // verus!
