use state_access::access::{
    ArchetypeComponentAccess, ArchetypeComponentId, WorldBorrow, WorldBorrowMut, WorldCell,
    BASE_ACCESS, UNIQUE_ACCESS,
};
use state_access::identifier::WorldId;

#[test]
fn readers_share_and_exclude_the_writer() {
    let mut registry = ArchetypeComponentAccess::new();
    let slot = ArchetypeComponentId(4);

    // An idle slot admits any number of readers...
    assert!(registry.read(slot));
    assert!(registry.read(slot));
    assert!(registry.read(slot));
    assert_eq!(registry.counter(slot), BASE_ACCESS + 3);
    // ...and no writer while any reader is outstanding.
    assert!(!registry.write(slot));
    registry.drop_read(slot);
    assert!(!registry.write(slot));
    registry.drop_read(slot);
    registry.drop_read(slot);
    assert_eq!(registry.counter(slot), BASE_ACCESS);
}

#[test]
fn the_writer_excludes_everyone_until_dropped() {
    let mut registry = ArchetypeComponentAccess::new();
    let slot = ArchetypeComponentId(0);

    assert!(registry.write(slot));
    assert_eq!(registry.counter(slot), UNIQUE_ACCESS);
    assert!(!registry.read(slot));
    assert!(!registry.write(slot));
    registry.drop_write(slot);
    assert_eq!(registry.counter(slot), BASE_ACCESS);
    // The slot behaves as initially again.
    assert!(registry.read(slot));
    registry.drop_read(slot);
    assert!(registry.write(slot));
    registry.drop_write(slot);
}

#[test]
fn slots_are_independent() {
    let mut registry = ArchetypeComponentAccess::new();
    let a = ArchetypeComponentId(1);
    let b = ArchetypeComponentId(2);
    assert!(registry.write(a));
    assert!(registry.read(b));
    assert_eq!(registry.counter(a), UNIQUE_ACCESS);
    assert_eq!(registry.counter(b), BASE_ACCESS + 1);
    registry.drop_write(a);
    registry.drop_read(b);
}

#[test]
fn a_balanced_session_restores_the_registry() {
    let registry = ArchetypeComponentAccess::new();
    let a = ArchetypeComponentId(3);
    let b = ArchetypeComponentId(8);

    let mut cell = WorldCell::new(registry);
    let read_one = WorldBorrow::new(&mut cell, a);
    let read_two = WorldBorrow::new(&mut cell, a);
    let write_one = WorldBorrowMut::new(&mut cell, b);
    assert_eq!(cell.counter(a), BASE_ACCESS + 2);
    assert_eq!(cell.counter(b), UNIQUE_ACCESS);

    // Release in an order unrelated to acquisition.
    write_one.release(&mut cell);
    read_one.release(&mut cell);
    read_two.release(&mut cell);

    let restored = cell.end();
    assert_eq!(restored.counter(a), BASE_ACCESS);
    assert_eq!(restored.counter(b), BASE_ACCESS);
}

#[test]
fn a_session_preserves_counts_it_never_touched() {
    let mut registry = ArchetypeComponentAccess::new();
    let held = ArchetypeComponentId(5);
    let other = ArchetypeComponentId(6);
    assert!(registry.read(held));

    let mut cell = WorldCell::new(registry);
    let token = WorldBorrowMut::new(&mut cell, other);
    token.release(&mut cell);
    let restored = cell.end();

    assert_eq!(restored.counter(held), BASE_ACCESS + 1);
    assert_eq!(restored.counter(other), BASE_ACCESS);
}

#[test]
fn world_ids_are_drawn_in_order_and_never_reused() {
    let mut supply: usize = 0;
    let first = WorldId::new(&mut supply).unwrap();
    let second = WorldId::new(&mut supply).unwrap();
    let third = WorldId::new(&mut supply).unwrap();
    assert_ne!(first, second);
    assert_ne!(second, third);
    assert_ne!(first, third);
    assert_eq!(supply, 3);
    assert_eq!(first, first.clone());
}

#[test]
fn world_id_supply_exhausts_cleanly() {
    let mut supply: usize = usize::MAX;
    assert_eq!(WorldId::new(&mut supply), None);
    assert_eq!(supply, usize::MAX);
}
