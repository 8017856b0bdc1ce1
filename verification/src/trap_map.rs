//! Registries of traps caused by guest MMIO/PIO accesses: per category, an
//! ordered collection of address ranges keyed by starting address, answered
//! by a predecessor lookup.

use vstd::prelude::*;

use crate::{RvmError, RvmResult};

verus! {

/// The category of a trap, selecting which address space it intercepts.
#[derive(Debug, Copy, Clone, PartialEq, Eq, Structural)]
pub enum TrapKind {
    /// Asynchronous trap with MMIO; reserved, registration is rejected.
    GuestTrapBell,
    /// Synchronous traps with MMIO.
    GuestTrapMem,
    /// Synchronous traps with I/O instructions.
    GuestTrapIo,
    /// Invalid.
    _Invalid,
}

impl TrapKind {
    /// Decodes a category from its numeric encoding; every value above the
    /// known categories is rejected.
    pub fn try_from(value: u32) -> (r: Result<TrapKind, RvmError>)
        ensures
            r == match value {
                0u32 => Ok::<TrapKind, RvmError>(TrapKind::GuestTrapBell),
                1u32 => Ok::<TrapKind, RvmError>(TrapKind::GuestTrapMem),
                2u32 => Ok::<TrapKind, RvmError>(TrapKind::GuestTrapIo),
                _ => Err::<TrapKind, RvmError>(RvmError::InvalidParam),
            },
    {
        match value {
            0 => Ok(TrapKind::GuestTrapBell),
            1 => Ok(TrapKind::GuestTrapMem),
            2 => Ok(TrapKind::GuestTrapIo),
            _ => Err(RvmError::InvalidParam),
        }
    }
}

/// One registered interception of guest accesses to the address range
/// `[addr, addr + size)`, tagged with an opaque correlation key chosen by the
/// caller.
#[derive(Debug, Copy, Clone, PartialEq, Eq, Structural)]
pub struct Trap {
    pub kind: TrapKind,
    pub addr: usize,
    pub size: usize,
    pub key: u64,
}

impl Trap {
    /// The range `[addr, addr + size)` contains the given address.
    pub open spec fn spec_contains(self, addr: usize) -> bool {
        self.addr <= addr && addr < self.addr + self.size
    }

    /// Point-containment test against this trap's address range.
    pub fn contains(&self, addr: usize) -> (r: bool)
        requires
            self.addr + self.size <= usize::MAX,
        ensures
            r == self.spec_contains(addr),
    {
        self.addr <= addr && addr < self.addr + self.size
    }
}

/// Every trap has a nonempty range whose end does not overflow the address
/// width, and the traps are strictly sorted by starting address (so starting
/// addresses are unique).
pub open spec fn wf_traps(s: Seq<Trap>) -> bool {
    &&& forall|i: int| 0 <= i < s.len() ==> (#[trigger] s[i]).size > 0 && s[i].addr + s[i].size <= usize::MAX
    &&& forall|i: int, j: int| 0 <= i < j < s.len() ==> s[i].addr < s[j].addr
}

/// Some trap in `s` starts exactly at `addr`.
pub open spec fn has_addr(s: Seq<Trap>, addr: usize) -> bool {
    exists|i: int| 0 <= i < s.len() && (#[trigger] s[i]).addr == addr
}

/// The answer of a predecessor lookup on a sequence sorted by starting
/// address: the trap with the greatest start at or below `addr`, if its range
/// contains `addr`.
pub open spec fn find_trap_in(s: Seq<Trap>, addr: usize) -> Option<Trap>
    decreases s.len(),
{
    if s.len() == 0 {
        None
    } else if s.last().addr <= addr {
        if s.last().spec_contains(addr) {
            Some(s.last())
        } else {
            None
        }
    } else {
        find_trap_in(s.drop_last(), addr)
    }
}

/// Insertion into a sequence sorted by starting address, keeping the order.
pub open spec fn sorted_insert(s: Seq<Trap>, t: Trap) -> Seq<Trap>
    decreases s.len(),
{
    if s.len() == 0 {
        seq![t]
    } else if s.last().addr < t.addr {
        s.push(t)
    } else {
        sorted_insert(s.drop_last(), t).push(s.last())
    }
}

/// The address ranges of `a` and `b` have no common address.
pub open spec fn ranges_disjoint(a: Trap, b: Trap) -> bool {
    a.addr + a.size <= b.addr || b.addr + b.size <= a.addr
}

/// Any two traps at distinct positions of `s` cover disjoint ranges.
pub open spec fn pairwise_disjoint(s: Seq<Trap>) -> bool {
    forall|i: int, j: int|
        0 <= i < s.len() && 0 <= j < s.len() && i != j ==> ranges_disjoint(#[trigger] s[i], #[trigger] s[j])
}

/// The range of `t` is disjoint from the range of every trap in `s`.
pub open spec fn disjoint_from_all(s: Seq<Trap>, t: Trap) -> bool {
    forall|i: int| 0 <= i < s.len() ==> ranges_disjoint(#[trigger] s[i], t)
}

/// Per-guest registries of traps, one independent ordered collection for the
/// port-I/O space and one for the memory space.
#[derive(Debug)]
pub struct TrapMap {
    io_traps: Vec<Trap>,
    mem_traps: Vec<Trap>,
}

impl TrapMap {
    /// The registered port-I/O-space traps, sorted by starting address.
    pub closed spec fn io(&self) -> Seq<Trap> {
        self.io_traps@
    }

    /// The registered memory-space traps, sorted by starting address.
    pub closed spec fn mem(&self) -> Seq<Trap> {
        self.mem_traps@
    }

    /// Both registries are well formed.
    pub open spec fn wf(&self) -> bool {
        wf_traps(self.io()) && wf_traps(self.mem())
    }

    /// An empty registry pair.
    pub fn new() -> (r: TrapMap)
        ensures
            r.io() == Seq::<Trap>::empty(),
            r.mem() == Seq::<Trap>::empty(),
            r.wf(),
    {
        let r = TrapMap { io_traps: Vec::new(), mem_traps: Vec::new() };
        proof {
            assert(r.io() =~= Seq::<Trap>::empty());
            assert(r.mem() =~= Seq::<Trap>::empty());
        }
        r
    }

    /// Resolves a faulting address to the registered trap of the given
    /// category whose range contains it, consulting the collection the
    /// category routes to. Pure: no mutation.
    pub fn find(&self, kind: TrapKind, addr: usize) -> (r: Option<Trap>)
        requires
            self.wf(),
        ensures
            r == match kind {
                TrapKind::GuestTrapIo => find_trap_in(self.io(), addr),
                TrapKind::GuestTrapMem | TrapKind::GuestTrapBell => find_trap_in(self.mem(), addr),
                TrapKind::_Invalid => None::<Trap>,
            },
    {
        let traps = match kind {
            TrapKind::GuestTrapIo => &self.io_traps,
            TrapKind::GuestTrapMem | TrapKind::GuestTrapBell => &self.mem_traps,
            TrapKind::_Invalid => {
                return None;
            },
        };
        find_in(traps, addr)
    }

    /// Registers a trap in the collection its category routes to. The entry
    /// point is the starting address: a second trap starting at the same
    /// address of the same category is rejected, and the collection is left
    /// as it was. A fresh starting address is inserted in order.
    pub fn push(&mut self, kind: TrapKind, addr: usize, size: usize, key: u64) -> (r: RvmResult)
        requires
            old(self).wf(),
            size > 0,
            addr + size <= usize::MAX,
        ensures
            final(self).wf(),
            kind == TrapKind::_Invalid ==> r == Err::<(), RvmError>(RvmError::InvalidParam)
                && final(self).io() == old(self).io() && final(self).mem() == old(self).mem(),
            kind == TrapKind::GuestTrapIo ==> final(self).mem() == old(self).mem() && (if has_addr(
                old(self).io(),
                addr,
            ) {
                r == Err::<(), RvmError>(RvmError::InvalidParam) && final(self).io() == old(
                    self,
                ).io()
            } else {
                r == Ok::<(), RvmError>(()) && final(self).io() == sorted_insert(
                    old(self).io(),
                    (Trap { kind, addr, size, key }),
                )
            }),
            kind == TrapKind::GuestTrapMem || kind == TrapKind::GuestTrapBell ==> final(self).io()
                == old(self).io() && (if has_addr(old(self).mem(), addr) {
                r == Err::<(), RvmError>(RvmError::InvalidParam) && final(self).mem() == old(
                    self,
                ).mem()
            } else {
                r == Ok::<(), RvmError>(()) && final(self).mem() == sorted_insert(
                    old(self).mem(),
                    (Trap { kind, addr, size, key }),
                )
            }),
    {
        let traps = match kind {
            TrapKind::GuestTrapIo => &mut self.io_traps,
            TrapKind::GuestTrapMem | TrapKind::GuestTrapBell => &mut self.mem_traps,
            TrapKind::_Invalid => {
                return Err(RvmError::InvalidParam);
            },
        };
        let trap = Trap { kind, addr, size, key };
        push_in(traps, trap)
    }
}

/// Number of traps whose starting address is at or below `addr`; since the
/// sequence is sorted, it splits the indices at that bound.
fn pred_count(traps: &Vec<Trap>, addr: usize) -> (c: usize)
    requires
        wf_traps(traps@),
    ensures
        c <= traps@.len(),
        forall|i: int| 0 <= i < c ==> (#[trigger] traps@[i]).addr <= addr,
        forall|i: int| c <= i < traps@.len() ==> (#[trigger] traps@[i]).addr > addr,
{
    let mut lo: usize = 0;
    let mut hi: usize = traps.len();
    while lo < hi
        invariant
            lo <= hi <= traps@.len(),
            wf_traps(traps@),
            forall|i: int| 0 <= i < lo ==> (#[trigger] traps@[i]).addr <= addr,
            forall|i: int| hi <= i < traps@.len() ==> (#[trigger] traps@[i]).addr > addr,
        decreases hi - lo,
    {
        let mid: usize = lo + (hi - lo) / 2;
        if traps[mid].addr <= addr {
            lo = mid + 1;
        } else {
            hi = mid;
        }
    }
    lo
}

/// Predecessor lookup over one sorted collection: take the entry with the
/// greatest starting address at or below the query and test containment.
fn find_in(traps: &Vec<Trap>, addr: usize) -> (r: Option<Trap>)
    requires
        wf_traps(traps@),
    ensures
        r == find_trap_in(traps@, addr),
{
    let c: usize = pred_count(traps, addr);
    proof {
        lemma_find_trap_in_split(traps@, addr, c as int);
    }
    if c == 0 {
        None
    } else {
        let t = traps[c - 1];
        if t.contains(addr) {
            Some(t)
        } else {
            None
        }
    }
}

/// Insertion of one trap into one sorted collection, rejecting a duplicate
/// starting address.
fn push_in(traps: &mut Vec<Trap>, t: Trap) -> (r: RvmResult)
    requires
        wf_traps(old(traps)@),
        t.size > 0,
        t.addr + t.size <= usize::MAX,
    ensures
        wf_traps(final(traps)@),
        has_addr(old(traps)@, t.addr) ==> r == Err::<(), RvmError>(RvmError::InvalidParam)
            && final(traps)@ == old(traps)@,
        !has_addr(old(traps)@, t.addr) ==> r == Ok::<(), RvmError>(()) && final(traps)@
            == sorted_insert(old(traps)@, t),
{
    let c: usize = pred_count(traps, t.addr);
    if c > 0 && traps[c - 1].addr == t.addr {
        proof {
            assert(has_addr(traps@, t.addr));
        }
        Err(RvmError::InvalidParam)
    } else {
        proof {
            assert forall|i: int| 0 <= i < c implies (#[trigger] traps@[i]).addr < t.addr by {
                if i < c - 1 {
                    assert(traps@[i].addr < traps@[c - 1].addr);
                }
            }
            assert(!has_addr(traps@, t.addr));
            lemma_sorted_insert_at(traps@, t, c as int);
        }
        let ghost pre = traps@;
        traps.insert(c, t);
        proof {
            assert forall|i: int| 0 <= i < traps@.len() implies (#[trigger] traps@[i]).size > 0
                && traps@[i].addr + traps@[i].size <= usize::MAX by {
                assert(traps@ == pre.insert(c as int, t));
                if i < c {
                    assert(traps@[i] == pre[i]);
                } else if i > c {
                    assert(traps@[i] == pre[i - 1]);
                }
            }
            assert forall|i: int, j: int| 0 <= i < j < traps@.len() implies traps@[i].addr
                < traps@[j].addr by {
                if i < c {
                    assert(traps@[i] == pre[i]);
                } else if i > c {
                    assert(traps@[i] == pre[i - 1]);
                }
                if j < c {
                    assert(traps@[j] == pre[j]);
                } else if j > c {
                    assert(traps@[j] == pre[j - 1]);
                }
            }
        }
        Ok(())
    }
}

/// Inserting at the split point of a sorted sequence (everything before it
/// starts strictly below the new trap, everything after strictly above) is
/// order-keeping insertion.
proof fn lemma_sorted_insert_at(s: Seq<Trap>, t: Trap, c: int)
    requires
        0 <= c <= s.len(),
        forall|i: int| 0 <= i < c ==> (#[trigger] s[i]).addr < t.addr,
        forall|i: int| c <= i < s.len() ==> (#[trigger] s[i]).addr > t.addr,
    ensures
        sorted_insert(s, t) == s.insert(c, t),
    decreases s.len(),
{
    if s.len() == 0 {
        assert(sorted_insert(s, t) =~= s.insert(0, t));
    } else if s.last().addr < t.addr {
        if c < s.len() {
            assert(s[s.len() - 1].addr > t.addr);
        }
        assert(c == s.len());
        assert(sorted_insert(s, t) =~= s.insert(c, t));
    } else {
        assert(s[s.len() - 1].addr > t.addr);
        if c == s.len() {
            assert(s[c - 1].addr < t.addr);
        }
        assert(c < s.len());
        assert forall|i: int| 0 <= i < c implies (#[trigger] s.drop_last()[i]).addr < t.addr by {
            assert(s.drop_last()[i] == s[i]);
        }
        assert forall|i: int| c <= i < s.drop_last().len() implies (#[trigger] s.drop_last()[i]).addr
            > t.addr by {
            assert(s.drop_last()[i] == s[i]);
        }
        lemma_sorted_insert_at(s.drop_last(), t, c);
        assert(sorted_insert(s, t) == s.drop_last().insert(c, t).push(s.last()));
        assert forall|k: int| 0 <= k < s.insert(c, t).len() implies s.drop_last().insert(c, t).push(
            s.last(),
        )[k] == s.insert(c, t)[k] by {
            let lhs = s.drop_last().insert(c, t).push(s.last());
            let rhs = s.insert(c, t);
            if k < c {
                assert(lhs[k] == s[k]);
                assert(rhs[k] == s[k]);
            } else if k == c {
                assert(lhs[k] == t);
                assert(rhs[k] == t);
            } else if k < s.len() {
                assert(lhs[k] == s.drop_last()[k - 1]);
                assert(s.drop_last()[k - 1] == s[k - 1]);
                assert(rhs[k] == s[k - 1]);
            } else {
                assert(lhs[k] == s.last());
                assert(rhs[k] == s[k - 1]);
            }
        }
        assert(sorted_insert(s, t) =~= s.insert(c, t));
    }
}

proof fn lemma_wf_drop_last(s: Seq<Trap>)
    requires
        wf_traps(s),
        s.len() > 0,
    ensures
        wf_traps(s.drop_last()),
{
    assert forall|i: int| 0 <= i < s.drop_last().len() implies (#[trigger] s.drop_last()[i]).size > 0
        && s.drop_last()[i].addr + s.drop_last()[i].size <= usize::MAX by {
        assert(s.drop_last()[i] == s[i]);
    }
    assert forall|i: int, j: int| 0 <= i < j < s.drop_last().len() implies s.drop_last()[i].addr
        < s.drop_last()[j].addr by {
        assert(s.drop_last()[i] == s[i]);
        assert(s.drop_last()[j] == s[j]);
    }
}

/// Relates the recursive predecessor-lookup answer to the split point `c` of
/// a sorted sequence: entries before `c` start at or below `addr`, entries
/// from `c` on start above it.
proof fn lemma_find_trap_in_split(s: Seq<Trap>, addr: usize, c: int)
    requires
        wf_traps(s),
        0 <= c <= s.len(),
        forall|i: int| 0 <= i < c ==> (#[trigger] s[i]).addr <= addr,
        forall|i: int| c <= i < s.len() ==> (#[trigger] s[i]).addr > addr,
    ensures
        c == 0 ==> find_trap_in(s, addr) == None::<Trap>,
        c > 0 ==> find_trap_in(s, addr) == (if s[c - 1].spec_contains(addr) {
            Some(s[c - 1])
        } else {
            None::<Trap>
        }),
    decreases s.len(),
{
    if s.len() == 0 {
    } else if s.last().addr <= addr {
        assert(s[s.len() - 1].addr <= addr);
        if c < s.len() {
            assert(s[s.len() - 1].addr > addr);
        }
        assert(c == s.len());
    } else {
        assert(s[s.len() - 1].addr > addr);
        if c == s.len() {
            assert(s[c - 1].addr <= addr);
        }
        assert(c < s.len());
        lemma_wf_drop_last(s);
        assert forall|i: int| 0 <= i < c implies (#[trigger] s.drop_last()[i]).addr <= addr by {
            assert(s.drop_last()[i] == s[i]);
        }
        assert forall|i: int| c <= i < s.drop_last().len() implies (#[trigger] s.drop_last()[i]).addr
            > addr by {
            assert(s.drop_last()[i] == s[i]);
        }
        lemma_find_trap_in_split(s.drop_last(), addr, c);
        if c > 0 {
            assert(s.drop_last()[c - 1] == s[c - 1]);
        }
    }
}

proof fn lemma_sorted_insert_elems(s: Seq<Trap>, t: Trap)
    ensures
        sorted_insert(s, t).len() == s.len() + 1,
        forall|k: int| 0 <= k < sorted_insert(s, t).len() ==> sorted_insert(s, t)[k] == t
            || s.contains(#[trigger] sorted_insert(s, t)[k]),
    decreases s.len(),
{
    let r = sorted_insert(s, t);
    if s.len() == 0 {
        assert(r[0] == t);
    } else if s.last().addr < t.addr {
        assert forall|k: int| 0 <= k < r.len() implies r[k] == t || s.contains(#[trigger] r[k]) by {
            if k < s.len() {
                assert(r[k] == s[k]);
            }
        }
    } else {
        let inner = sorted_insert(s.drop_last(), t);
        lemma_sorted_insert_elems(s.drop_last(), t);
        assert forall|k: int| 0 <= k < r.len() implies r[k] == t || s.contains(#[trigger] r[k]) by {
            if k < inner.len() {
                assert(r[k] == inner[k]);
                if inner[k] != t {
                    assert(s.drop_last().contains(inner[k]));
                    let j = choose|j: int|
                        0 <= j < s.drop_last().len() && s.drop_last()[j] == inner[k];
                    assert(s[j] == inner[k]);
                }
            } else {
                assert(r[k] == s.last());
                assert(s[s.len() - 1] == s.last());
            }
        }
    }
}

/// No-overlap invariant: starting from a registry collection whose ranges are
/// pairwise disjoint (as a fresh, empty one is), a successful registration of
/// a range disjoint from every registered range of that category leaves the
/// ranges pairwise disjoint. The registry itself rejects only a duplicate
/// starting address; keeping a new range clear of ranges that start elsewhere
/// is the caller's charge, and such a registration is excluded here.
pub proof fn lemma_no_overlap(s: Seq<Trap>, t: Trap)
    requires
        pairwise_disjoint(s),
        disjoint_from_all(s, t),
    ensures
        pairwise_disjoint(sorted_insert(s, t)),
    decreases s.len(),
{
    let r = sorted_insert(s, t);
    if s.len() == 0 {
        assert forall|i: int, j: int|
            0 <= i < r.len() && 0 <= j < r.len() && i != j implies ranges_disjoint(
            #[trigger] r[i],
            #[trigger] r[j],
        ) by {}
    } else if s.last().addr < t.addr {
        assert forall|i: int, j: int|
            0 <= i < r.len() && 0 <= j < r.len() && i != j implies ranges_disjoint(
            #[trigger] r[i],
            #[trigger] r[j],
        ) by {
            if i < s.len() && j < s.len() {
                assert(r[i] == s[i] && r[j] == s[j]);
                assert(ranges_disjoint(s[i], s[j]));
            } else if i < s.len() {
                assert(r[i] == s[i] && r[j] == t);
                assert(ranges_disjoint(s[i], t));
            } else {
                assert(r[i] == t && r[j] == s[j]);
                assert(ranges_disjoint(s[j], t));
            }
        }
    } else {
        let inner = sorted_insert(s.drop_last(), t);
        assert forall|i: int, j: int|
            0 <= i < s.drop_last().len() && 0 <= j < s.drop_last().len() && i != j implies
            ranges_disjoint(#[trigger] s.drop_last()[i], #[trigger] s.drop_last()[j]) by {
            assert(s.drop_last()[i] == s[i] && s.drop_last()[j] == s[j]);
        }
        assert forall|i: int| 0 <= i < s.drop_last().len() implies ranges_disjoint(
            #[trigger] s.drop_last()[i],
            t,
        ) by {
            assert(s.drop_last()[i] == s[i]);
        }
        lemma_no_overlap(s.drop_last(), t);
        lemma_sorted_insert_elems(s.drop_last(), t);
        assert forall|i: int, j: int|
            0 <= i < r.len() && 0 <= j < r.len() && i != j implies ranges_disjoint(
            #[trigger] r[i],
            #[trigger] r[j],
        ) by {
            if i < inner.len() && j < inner.len() {
                assert(r[i] == inner[i] && r[j] == inner[j]);
                assert(ranges_disjoint(inner[i], inner[j]));
            } else {
                let k = if i < inner.len() {
                    i
                } else {
                    j
                };
                assert(r[k] == inner[k]);
                assert(r[inner.len() as int] == s.last());
                assert(s[s.len() - 1] == s.last());
                if inner[k] == t {
                    assert(ranges_disjoint(s[s.len() - 1], t));
                } else {
                    assert(s.drop_last().contains(inner[k]));
                    let m = choose|m: int|
                        0 <= m < s.drop_last().len() && s.drop_last()[m] == inner[k];
                    assert(s[m] == inner[k]);
                    assert(ranges_disjoint(s[m], s[s.len() - 1]));
                }
            }
        }
    }
}

/// A registered trap stays resolvable: in a sorted registry collection whose
/// ranges are pairwise disjoint, the lookup of every address of a registered
/// trap's range answers with that trap. In particular, since a rejected
/// registration (a duplicate starting address) leaves the collection exactly
/// as it was, every address of the first trap's range still resolves to the
/// first trap after the rejection.
pub proof fn lemma_registered_trap_resolves(s: Seq<Trap>, t: Trap, addr: usize)
    requires
        wf_traps(s),
        pairwise_disjoint(s),
        s.contains(t),
        t.spec_contains(addr),
    ensures
        find_trap_in(s, addr) == Some(t),
{
    lemma_lookup_correct(s, addr);
    let m = choose|m: int| 0 <= m < s.len() && s[m] == t;
    assert(s[m].spec_contains(addr));
    match find_trap_in(s, addr) {
        Some(u) => {
            assert(s[m] == u);
        },
        None => {
            assert(!s[m].spec_contains(addr));
        },
    }
}

/// Lookup correctness: in a sorted registry collection whose ranges are
/// pairwise disjoint, the predecessor lookup answers with the unique
/// registered trap whose range contains the queried address, and with nothing
/// exactly when no registered range contains it.
pub proof fn lemma_lookup_correct(s: Seq<Trap>, addr: usize)
    requires
        wf_traps(s),
        pairwise_disjoint(s),
    ensures
        find_trap_in(s, addr) matches Some(t) ==> s.contains(t) && t.spec_contains(addr) && (
        forall|i: int|
            0 <= i < s.len() && (#[trigger] s[i]).spec_contains(addr) ==> s[i] == t),
        find_trap_in(s, addr) is None ==> forall|i: int|
            0 <= i < s.len() ==> !(#[trigger] s[i]).spec_contains(addr),
    decreases s.len(),
{
    if s.len() == 0 {
    } else if s.last().addr <= addr {
        let last = s.last();
        assert(s[s.len() - 1] == last);
        if last.spec_contains(addr) {
            assert(s.contains(last));
            assert forall|i: int|
                0 <= i < s.len() && (#[trigger] s[i]).spec_contains(addr) implies s[i] == last by {
                if i < s.len() - 1 {
                    assert(s[i].addr < last.addr);
                    assert(ranges_disjoint(s[i], last));
                    assert(last.size > 0);
                }
            }
        } else {
            assert forall|i: int| 0 <= i < s.len() implies !(#[trigger] s[i]).spec_contains(addr) by {
                if i < s.len() - 1 {
                    assert(s[i].addr < last.addr);
                    assert(ranges_disjoint(s[i], last));
                    assert(last.size > 0);
                }
            }
        }
    } else {
        let last = s.last();
        assert(s[s.len() - 1] == last);
        lemma_wf_drop_last(s);
        assert forall|i: int, j: int|
            0 <= i < s.drop_last().len() && 0 <= j < s.drop_last().len() && i != j implies
            ranges_disjoint(#[trigger] s.drop_last()[i], #[trigger] s.drop_last()[j]) by {
            assert(s.drop_last()[i] == s[i] && s.drop_last()[j] == s[j]);
        }
        lemma_lookup_correct(s.drop_last(), addr);
        match find_trap_in(s.drop_last(), addr) {
            Some(t) => {
                assert(s.drop_last().contains(t));
                let m = choose|m: int| 0 <= m < s.drop_last().len() && s.drop_last()[m] == t;
                assert(s[m] == t);
                assert(s.contains(t));
                assert forall|i: int|
                    0 <= i < s.len() && (#[trigger] s[i]).spec_contains(addr) implies s[i] == t by {
                    if i < s.len() - 1 {
                        assert(s.drop_last()[i] == s[i]);
                    }
                }
            },
            None => {
                assert forall|i: int| 0 <= i < s.len() implies !(#[trigger] s[i]).spec_contains(
                    addr,
                ) by {
                    if i < s.len() - 1 {
                        assert(s.drop_last()[i] == s[i]);
                    }
                }
            },
        }
    }
}

} // verus!
