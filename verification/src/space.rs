//! The address spaces of the simulated machine.

use vstd::prelude::*;

verus! {

/// One of the two address spaces of the microcontroller.
#[derive(Copy, Clone, Debug, PartialEq, Eq, PartialOrd, Ord, Structural)]
pub enum MemorySpace {
    /// The instruction store.
    Program,
    /// RAM together with the memory-mapped I/O registers.
    Data,
}

impl MemorySpace {
    /// The label under which the space appears in reports.
    pub open spec fn label(self) -> Seq<char> {
        match self {
            MemorySpace::Program => "program memory"@,
            MemorySpace::Data => "data memory"@,
        }
    }

    /// The label under which the space appears in reports.
    pub fn human_label(&self) -> (label: &'static str)
        ensures
            label@ == self.label(),
    {
        match *self {
            MemorySpace::Program => "program memory",
            MemorySpace::Data => "data memory",
        }
    }
}

} // verus!
