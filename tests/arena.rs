use diode_sim::arena::{ElectronArena, ElectronId};

#[test]
fn spawn_then_get_returns_the_value() {
    let mut arena: ElectronArena<u32> = ElectronArena::new();
    let a = arena.spawn(7);
    let b = arena.spawn(9);
    assert_ne!(a, b);
    assert_eq!(arena.get(a), Some(&7));
    assert_eq!(arena.get(b), Some(&9));
    assert!(arena.contains(a));
    assert_eq!(arena.ids().len(), 2);
}

#[test]
fn despawned_handle_never_resolves_again() {
    let mut arena: ElectronArena<u32> = ElectronArena::new();
    let a = arena.spawn(1);
    assert_eq!(arena.despawn(a), Some(1));
    assert_eq!(arena.get(a), None);
    assert!(!arena.contains(a));
    // The slot is reused under a new generation.
    let b = arena.spawn(2);
    assert_eq!(b.index, a.index);
    assert_ne!(b.generation, a.generation);
    assert_eq!(arena.get(a), None);
    assert_eq!(arena.get(b), Some(&2));
    assert_eq!(arena.despawn(a), None);
    assert_eq!(arena.get(b), Some(&2));
}

#[test]
fn despawn_twice_is_harmless() {
    let mut arena: ElectronArena<u32> = ElectronArena::new();
    let a = arena.spawn(1);
    let b = arena.spawn(2);
    assert_eq!(arena.despawn(a), Some(1));
    assert_eq!(arena.despawn(a), None);
    assert_eq!(arena.get(b), Some(&2));
    assert_eq!(arena.ids(), vec![b]);
}

#[test]
fn unknown_handle_does_not_resolve() {
    let mut arena: ElectronArena<u32> = ElectronArena::new();
    let ghost_id = ElectronId { index: 3, generation: 0 };
    assert_eq!(arena.get(ghost_id), None);
    assert!(!arena.set(ghost_id, 5));
    assert_eq!(arena.despawn(ghost_id), None);
    assert!(arena.ids().is_empty());
}

#[test]
fn set_replaces_only_live_electrons() {
    let mut arena: ElectronArena<u32> = ElectronArena::new();
    let a = arena.spawn(1);
    assert!(arena.set(a, 10));
    assert_eq!(arena.get(a), Some(&10));
    arena.despawn(a);
    assert!(!arena.set(a, 20));
    assert_eq!(arena.get(a), None);
}

#[test]
fn despawn_all_with_repeated_and_stale_handles() {
    let mut arena: ElectronArena<u32> = ElectronArena::new();
    let a = arena.spawn(1);
    let b = arena.spawn(2);
    let c = arena.spawn(3);
    arena.despawn(c);
    arena.despawn_all(&vec![a, a, c]);
    assert_eq!(arena.get(a), None);
    assert_eq!(arena.get(b), Some(&2));
    assert_eq!(arena.ids(), vec![b]);
}

#[test]
fn clear_removes_everything_and_old_handles_stay_dead() {
    let mut arena: ElectronArena<u32> = ElectronArena::new();
    let a = arena.spawn(1);
    let b = arena.spawn(2);
    arena.clear();
    assert!(arena.ids().is_empty());
    let c = arena.spawn(3);
    let d = arena.spawn(4);
    for old in [a, b] {
        assert_ne!(old, c);
        assert_ne!(old, d);
        assert_eq!(arena.get(old), None);
    }
    assert_eq!(arena.ids().len(), 2);
}

#[test]
fn ids_lists_live_handles_by_slot() {
    let mut arena: ElectronArena<u32> = ElectronArena::new();
    let a = arena.spawn(1);
    let b = arena.spawn(2);
    let c = arena.spawn(3);
    arena.despawn(b);
    assert_eq!(arena.ids(), vec![a, c]);
}
