use rvm::trap_map::{Trap, TrapKind, TrapMap};
use rvm::RvmError;

#[test]
fn empty_registry_finds_nothing() {
    let tm = TrapMap::new();
    assert!(tm.find(TrapKind::GuestTrapMem, 0).is_none());
    assert!(tm.find(TrapKind::GuestTrapIo, 0x10).is_none());
    assert!(tm.find(TrapKind::GuestTrapBell, 0x1000).is_none());
}

#[test]
fn find_returns_containing_trap_with_boundaries() {
    let mut tm = TrapMap::new();
    // Disjoint ranges, registered out of address order.
    assert!(tm.push(TrapKind::GuestTrapMem, 0x5000, 0x1000, 3).is_ok());
    assert!(tm.push(TrapKind::GuestTrapMem, 0x1000, 0x1000, 1).is_ok());
    assert!(tm.push(TrapKind::GuestTrapMem, 0x3000, 0x800, 2).is_ok());

    // Start, last byte, and one-past-the-end of the middle range.
    assert_eq!(tm.find(TrapKind::GuestTrapMem, 0x3000).unwrap().key, 2);
    assert_eq!(tm.find(TrapKind::GuestTrapMem, 0x37ff).unwrap().key, 2);
    assert!(tm.find(TrapKind::GuestTrapMem, 0x3800).is_none());

    // Below every range, between ranges, above every range.
    assert!(tm.find(TrapKind::GuestTrapMem, 0xfff).is_none());
    assert!(tm.find(TrapKind::GuestTrapMem, 0x2000).is_none());
    assert!(tm.find(TrapKind::GuestTrapMem, 0x6000).is_none());

    // The other ranges resolve to their own keys.
    assert_eq!(tm.find(TrapKind::GuestTrapMem, 0x1000).unwrap().key, 1);
    assert_eq!(tm.find(TrapKind::GuestTrapMem, 0x1fff).unwrap().key, 1);
    assert_eq!(tm.find(TrapKind::GuestTrapMem, 0x5fff).unwrap().key, 3);
}

#[test]
fn categories_are_independent_address_spaces() {
    let mut tm = TrapMap::new();
    assert!(tm.push(TrapKind::GuestTrapMem, 0x10, 0x10, 1).is_ok());
    // The same starting address in the port space is a different entry.
    assert!(tm.push(TrapKind::GuestTrapIo, 0x10, 0x10, 2).is_ok());
    assert_eq!(tm.find(TrapKind::GuestTrapMem, 0x10).unwrap().key, 1);
    assert_eq!(tm.find(TrapKind::GuestTrapIo, 0x10).unwrap().key, 2);
}

#[test]
fn duplicate_start_address_rejected() {
    let mut tm = TrapMap::new();
    assert!(tm.push(TrapKind::GuestTrapIo, 0x20, 0x10, 1).is_ok());
    assert_eq!(tm.push(TrapKind::GuestTrapIo, 0x20, 0x8, 2), Err(RvmError::InvalidParam));
    // The first entry stays resolvable.
    assert_eq!(tm.find(TrapKind::GuestTrapIo, 0x20).unwrap().key, 1);
}

#[test]
fn bell_and_mem_share_one_collection() {
    let mut tm = TrapMap::new();
    assert!(tm.push(TrapKind::GuestTrapBell, 0x7000, 0x1000, 5).is_ok());
    let found = tm.find(TrapKind::GuestTrapMem, 0x7400).unwrap();
    assert_eq!(found.key, 5);
    assert_eq!(found.kind, TrapKind::GuestTrapBell);
}

#[test]
fn overlap_with_a_fresh_start_address_is_the_callers_charge() {
    // The registry itself rejects only a duplicate starting address; a range
    // overlapping an earlier one from a fresh start is accepted, and the
    // predecessor lookup then goes by the greatest start at or below the
    // query. Keeping ranges disjoint is the caller's responsibility.
    let mut tm = TrapMap::new();
    assert!(tm.push(TrapKind::GuestTrapMem, 0x1000, 0x2000, 1).is_ok());
    assert!(tm.push(TrapKind::GuestTrapMem, 0x2000, 0x1000, 2).is_ok());
    assert_eq!(tm.find(TrapKind::GuestTrapMem, 0x1800).unwrap().key, 1);
    assert_eq!(tm.find(TrapKind::GuestTrapMem, 0x2800).unwrap().key, 2);
}

#[test]
fn invalid_kind_is_rejected() {
    let mut tm = TrapMap::new();
    assert_eq!(tm.push(TrapKind::_Invalid, 0x10, 0x10, 1), Err(RvmError::InvalidParam));
    assert!(tm.find(TrapKind::_Invalid, 0x10).is_none());
}

#[test]
fn trap_contains_is_half_open() {
    let t = Trap { kind: TrapKind::GuestTrapIo, addr: 0x10, size: 0x20, key: 0 };
    assert!(t.contains(0x10));
    assert!(t.contains(0x2f));
    assert!(!t.contains(0x30));
    assert!(!t.contains(0xf));
}

#[test]
fn try_from_decodes_categories() {
    assert!(matches!(TrapKind::try_from(0), Ok(TrapKind::GuestTrapBell)));
    assert!(matches!(TrapKind::try_from(1), Ok(TrapKind::GuestTrapMem)));
    assert!(matches!(TrapKind::try_from(2), Ok(TrapKind::GuestTrapIo)));
    assert_eq!(TrapKind::try_from(3).unwrap_err(), RvmError::InvalidParam);
    assert_eq!(TrapKind::try_from(u32::MAX).unwrap_err(), RvmError::InvalidParam);
}
