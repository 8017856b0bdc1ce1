//! Guest trap-routing and guest-lifecycle layer of a type-1 hypervisor:
//! per-guest registries of non-overlapping MMIO/PIO trap ranges with
//! predecessor lookup, and a process-wide cap on live guests.

pub mod guest;
pub mod memory;
pub mod trap_map;

use vstd::prelude::*;

verus! {

/// Error kinds returned by trap registration, memory-region management and
/// guest construction.
#[derive(Debug, Copy, Clone, PartialEq, Eq, Structural)]
pub enum RvmError {
    /// Malformed input: zero-length trap, misaligned address or size,
    /// unsupported category value, or a duplicate starting address.
    InvalidParam,
    /// Address arithmetic would overflow, or a port-space trap exceeds the
    /// 16-bit ceiling.
    OutOfRange,
    /// A recognized but unimplemented trap category.
    NotSupported,
    /// The guest-count limit was already reached at construction time.
    ResourceExhausted,
}

pub type RvmResult<T = ()> = Result<T, RvmError>;

/// Size in bytes of one guest-physical page; memory regions and
/// memory-category traps must be aligned to it.
pub const PAGE_SIZE: usize = 4096;

} // verus!
