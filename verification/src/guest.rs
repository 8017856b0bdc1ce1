//! One guest of the hypervisor: the authority over its address-space
//! mutations and trap registrations, and the guest-lifecycle bookkeeping
//! against a process-wide count of live guests.

use vstd::prelude::*;

use crate::memory::{GuestPhysAddr, GuestPhysMemorySetTrait, HostPhysAddr};
use crate::trap_map::{has_addr, sorted_insert, Trap, TrapKind, TrapMap};
use crate::{RvmError, RvmResult, PAGE_SIZE};

verus! {

/// Inclusive ceiling of the 16-bit port-I/O address space.
pub const PIO_CEILING: usize = 0xffff;

/// The address is a multiple of the guest-physical page size.
pub open spec fn page_aligned(a: usize) -> bool {
    a % PAGE_SIZE == 0
}

/// Both registries of `a` hold exactly the traps of the registries of `b`.
pub open spec fn same_traps(a: TrapMap, b: TrapMap) -> bool {
    a.io() == b.io() && a.mem() == b.mem()
}

/// Process-wide cap on the number of live guests: a conditional increment
/// that fails once the limit is reached, and an unconditional decrement.
pub struct GuestLimiter {
    pub limit: usize,
    pub count: usize,
}

impl GuestLimiter {
    /// A limiter with no slot taken.
    pub fn new(limit: usize) -> (r: GuestLimiter)
        ensures
            r.limit == limit,
            r.count == 0,
    {
        GuestLimiter { limit, count: 0 }
    }

    /// Takes one slot if any is free; past the cap it fails and takes
    /// nothing.
    pub fn acquire_slot(&mut self) -> (r: RvmResult)
        ensures
            final(self).limit == old(self).limit,
            old(self).count < old(self).limit ==> r == Ok::<(), RvmError>(()) && final(self).count
                == old(self).count + 1,
            old(self).count >= old(self).limit ==> r == Err::<(), RvmError>(
                RvmError::ResourceExhausted,
            ) && final(self).count == old(self).count,
    {
        if self.count < self.limit {
            self.count = self.count + 1;
            Ok(())
        } else {
            Err(RvmError::ResourceExhausted)
        }
    }

    /// Gives one slot back.
    pub fn release_slot(&mut self)
        requires
            old(self).count > 0,
        ensures
            final(self).limit == old(self).limit,
            final(self).count == old(self).count - 1,
    {
        self.count = self.count - 1;
    }
}

/// Represents a guest within the hypervisor: one guest-physical memory set
/// and one pair of trap registries, fixed for the guest's lifetime.
#[derive(Debug)]
pub struct Guest<M: GuestPhysMemorySetTrait> {
    pub gpm: M,
    pub traps: TrapMap,
}

impl<M: GuestPhysMemorySetTrait> Guest<M> {
    /// Create a new Guest: atomically takes one slot from the process-wide
    /// limiter, and on success wraps the supplied memory set and a fresh,
    /// empty registry pair. Past the cap it fails with resource exhaustion
    /// and constructs nothing.
    pub fn new(limiter: &mut GuestLimiter, gpm: M) -> (r: Result<Guest<M>, RvmError>)
        ensures
            final(limiter).limit == old(limiter).limit,
            old(limiter).count < old(limiter).limit ==> final(limiter).count == old(limiter).count
                + 1 && (r matches Ok(g) && g.gpm == gpm && g.traps.io() == Seq::<Trap>::empty()
                && g.traps.mem() == Seq::<Trap>::empty() && g.traps.wf()),
            old(limiter).count >= old(limiter).limit ==> r == Err::<Guest<M>, RvmError>(
                RvmError::ResourceExhausted,
            ) && final(limiter).count == old(limiter).count,
    {
        match limiter.acquire_slot() {
            Ok(()) => Ok(Guest { gpm, traps: TrapMap::new() }),
            Err(e) => Err(e),
        }
    }

    /// Tears the guest down, giving its slot back to the limiter. Consuming
    /// the guest makes the release happen at most once per constructed guest.
    pub fn destroy(self, limiter: &mut GuestLimiter)
        requires
            old(limiter).count > 0,
        ensures
            final(limiter).limit == old(limiter).limit,
            final(limiter).count == old(limiter).count - 1,
    {
        limiter.release_slot();
    }

    /// Get the page table base address: a pass-through of the memory set's
    /// reported table base, with no validation.
    pub fn rvm_page_table_phys(&self) -> (r: usize)
        ensures
            r == self.gpm.table_phys_spec(),
    {
        self.gpm.table_phys()
    }

    /// Installs a guest-physical mapping after checking page alignment of the
    /// guest address, the size, and the fixed host address if one is given;
    /// the memory set's own failure modes propagate unchanged.
    pub fn add_memory_region(
        &self,
        gpaddr: GuestPhysAddr,
        size: usize,
        hpaddr: Option<HostPhysAddr>,
    ) -> (r: RvmResult)
        ensures
            !page_aligned(gpaddr) || !page_aligned(size) ==> r == Err::<(), RvmError>(
                RvmError::InvalidParam,
            ),
            (hpaddr matches Some(h) && !page_aligned(h)) ==> r == Err::<(), RvmError>(
                RvmError::InvalidParam,
            ),
            r is Ok ==> page_aligned(gpaddr) && page_aligned(size) && (hpaddr matches Some(h)
                ==> page_aligned(h)),
    {
        if gpaddr % PAGE_SIZE != 0 || size % PAGE_SIZE != 0 {
            return Err(RvmError::InvalidParam);
        }
        if let Some(h) = hpaddr {
            if h % PAGE_SIZE != 0 {
                return Err(RvmError::InvalidParam);
            }
        }
        self.gpm.add_map(gpaddr, size, hpaddr)
    }

    /// Registers a trap: rejects an empty range, a range whose end overflows
    /// the address width, the reserved asynchronous-doorbell category and any
    /// invalid category; holds port-I/O ranges under the 16-bit ceiling; and,
    /// for the memory category, checks page alignment and then claims the
    /// range exclusively by unmapping it from the memory set before recording
    /// the trap. A failure of the unmap propagates unchanged and records
    /// nothing; a duplicate starting address is rejected by the registry,
    /// though the range is then already unmapped.
    pub fn set_trap(&mut self, kind: TrapKind, addr: usize, size: usize, key: u64) -> (r: RvmResult)
        requires
            old(self).traps.wf(),
        ensures
            final(self).traps.wf(),
            final(self).gpm == old(self).gpm,
            size == 0 ==> r == Err::<(), RvmError>(RvmError::InvalidParam) && same_traps(
                final(self).traps,
                old(self).traps,
            ),
            size > 0 && addr + size > usize::MAX ==> r == Err::<(), RvmError>(RvmError::OutOfRange)
                && same_traps(final(self).traps, old(self).traps),
            size > 0 && addr + size <= usize::MAX ==> match kind {
                TrapKind::GuestTrapBell => r == Err::<(), RvmError>(RvmError::NotSupported)
                    && same_traps(final(self).traps, old(self).traps),
                TrapKind::GuestTrapIo => if addr + size > PIO_CEILING {
                    r == Err::<(), RvmError>(RvmError::OutOfRange) && same_traps(
                        final(self).traps,
                        old(self).traps,
                    )
                } else if has_addr(old(self).traps.io(), addr) {
                    r == Err::<(), RvmError>(RvmError::InvalidParam) && same_traps(
                        final(self).traps,
                        old(self).traps,
                    )
                } else {
                    r == Ok::<(), RvmError>(()) && final(self).traps.io() == sorted_insert(
                        old(self).traps.io(),
                        (Trap { kind, addr, size, key }),
                    ) && final(self).traps.mem() == old(self).traps.mem()
                },
                TrapKind::GuestTrapMem => if !page_aligned(addr) || !page_aligned(size) {
                    r == Err::<(), RvmError>(RvmError::InvalidParam) && same_traps(
                        final(self).traps,
                        old(self).traps,
                    )
                } else {
                    (r == Ok::<(), RvmError>(()) && !has_addr(old(self).traps.mem(), addr)
                        && final(self).traps.mem() == sorted_insert(
                        old(self).traps.mem(),
                        (Trap { kind, addr, size, key }),
                    ) && final(self).traps.io() == old(self).traps.io()) || (r is Err
                        && same_traps(final(self).traps, old(self).traps))
                },
                TrapKind::_Invalid => r == Err::<(), RvmError>(RvmError::InvalidParam)
                    && same_traps(final(self).traps, old(self).traps),
            },
            size > 0 && addr + size <= usize::MAX && kind == TrapKind::GuestTrapMem && page_aligned(
                addr,
            ) && page_aligned(size) && has_addr(old(self).traps.mem(), addr) ==> r is Err,
            kind == TrapKind::GuestTrapMem && r is Ok ==> page_aligned(addr) && page_aligned(size),
    {
        if size == 0 {
            return Err(RvmError::InvalidParam);
        }
        if addr > usize::MAX - size {
            return Err(RvmError::OutOfRange);
        }
        match kind {
            TrapKind::GuestTrapBell => Err(RvmError::NotSupported),
            TrapKind::GuestTrapIo => {
                if addr + size > PIO_CEILING {
                    Err(RvmError::OutOfRange)
                } else {
                    self.traps.push(kind, addr, size, key)
                }
            },
            TrapKind::GuestTrapMem => {
                if addr % PAGE_SIZE != 0 || size % PAGE_SIZE != 0 {
                    Err(RvmError::InvalidParam)
                } else {
                    match self.gpm.remove_map(addr, size) {
                        Ok(()) => self.traps.push(kind, addr, size, key),
                        Err(e) => Err(e),
                    }
                }
            },
            TrapKind::_Invalid => Err(RvmError::InvalidParam),
        }
    }
}

} // verus!
