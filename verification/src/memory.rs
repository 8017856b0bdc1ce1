//! Interface to the guest-physical memory-set collaborator: the component,
//! implemented outside this crate, that translates guest-physical to
//! host-physical addresses (for instance via nested or extended page tables).

use vstd::prelude::*;

use crate::RvmResult;

verus! {

/// An address in the guest's view of physical memory.
pub type GuestPhysAddr = usize;

/// An address in the host's physical memory backing the guest.
pub type HostPhysAddr = usize;

/// Capabilities a guest-physical memory set must offer to the guest layer.
/// Each operation must be individually atomic from the guest's point of view;
/// its failure modes are the implementation's own and propagate unchanged.
pub trait GuestPhysMemorySetTrait {
    /// The host-physical address the implementation reports as the base of
    /// its top-level address-translation structure.
    spec fn table_phys_spec(&self) -> usize;

    /// Host-physical address of the top-level address-translation structure.
    fn table_phys(&self) -> (r: usize)
        ensures
            r == self.table_phys_spec();

    /// Installs a mapping of `[gpaddr, gpaddr + size)`, backed either by a
    /// fixed host-physical range starting at `hpaddr` or, when none is given,
    /// by memory of the implementation's choosing.
    fn add_map(&self, gpaddr: GuestPhysAddr, size: usize, hpaddr: Option<HostPhysAddr>) -> RvmResult;

    /// Removes any mapping of `[gpaddr, gpaddr + size)`, so that guest
    /// accesses to the range fault into the hypervisor.
    fn remove_map(&self, gpaddr: GuestPhysAddr, size: usize) -> RvmResult;
}

} // verus!
