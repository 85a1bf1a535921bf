//! Plain values shared with the simulation kernel: bus faults, stop reasons
//! and breakpoints.

use vstd::prelude::*;

verus! {

/// Guest physical address.
pub type Addr = u64;

/// Why a bus access failed.
#[derive(Clone, Copy, Debug, PartialEq, Eq, Structural)]
pub enum BusError {
    Unmapped { addr: Addr },
    ReadOnly { addr: Addr },
    OutOfRange { addr: Addr, offset: u64, len: usize },
    NotLoadable { addr: Addr },
}

/// Identity of a kernel breakpoint.
#[derive(Clone, Copy, Debug, PartialEq, Eq, Structural)]
pub struct BreakpointId(pub u32);

/// One entry of the kernel breakpoint table.
#[derive(Clone, Copy, Debug, PartialEq, Eq, Structural)]
pub struct Breakpoint {
    pub id: BreakpointId,
    pub addr: Addr,
    pub enabled: bool,
}

/// Why a simulation stopped.
#[derive(Clone, Copy, Debug, PartialEq, Eq, Structural)]
pub enum StopReason {
    Halt,
    Breakpoint { id: BreakpointId },
    ExternalStop,
    Step,
    Unmapped { addr: Addr, write: bool },
}

/// A stop that was asked for while the core ran.
#[derive(Clone, Copy, Debug, PartialEq, Eq, Structural)]
pub struct PendingStop {
    pub reason: Option<StopReason>,
}

impl PendingStop {
    /// Nothing was asked for.
    pub fn new() -> (r: PendingStop)
        ensures
            r.reason is None,
    {
        PendingStop { reason: None }
    }

    /// Ask for a stop. One that is pending already stays.
    pub fn request(&mut self, reason: StopReason)
        ensures
            final(self).reason == match old(self).reason {
                Some(first) => Some(first),
                None => Some(reason),
            },
    {
        if self.reason.is_none() {
            self.reason = Some(reason);
        }
    }

    /// Take the pending stop.
    pub fn take(&mut self) -> (r: Option<StopReason>)
        ensures
            r == old(self).reason,
            final(self).reason is None,
    {
        let reason = self.reason;
        self.reason = None;
        reason
    }
}

/// What one run of the core came to.
#[derive(Clone, Copy, Debug, PartialEq, Eq, Structural)]
pub struct Quantum {
    pub instructions: u64,
    pub stop: Option<StopReason>,
}

/// Register number of the inspection interface.
#[derive(Clone, Copy, Debug, PartialEq, Eq, Structural)]
pub struct RegId(pub u32);

/// The range error of an access to a device window.
pub open spec fn out_of_range(offset: u64, len: nat) -> BusError {
    BusError::OutOfRange { addr: offset, offset, len: len as usize }
}

/// A range error tells the offset of the access, as its address too, and its
/// length.
pub proof fn range_error_tells_the_access(offset: u64, len: nat)
    requires
        len <= usize::MAX,
    ensures
        out_of_range(offset, len) is OutOfRange,
        out_of_range(offset, len)->OutOfRange_addr == offset,
        out_of_range(offset, len)->offset == offset,
        out_of_range(offset, len)->len == len,
{
}

} // verus!
