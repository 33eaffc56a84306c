use event_modifiers::modifier::ModifierComponent;
use event_modifiers::registry::ModifierRegistry;

type Transform = fn(u32, u32, u32) -> (u32, u32, u32);

fn add_one(c: u32, m: u32, o: u32) -> (u32, u32, u32) {
    (c, m, o + 1)
}

fn double(c: u32, m: u32, o: u32) -> (u32, u32, u32) {
    (c, m, o * 2)
}

fn square(c: u32, m: u32, o: u32) -> (u32, u32, u32) {
    (c, m, o * o)
}

fn priorities(registry: &ModifierRegistry<u8, Transform>) -> Vec<u8> {
    registry.snapshot_sorted().iter().map(|m| m.priority).collect()
}

/// What each transform of the snapshot, in order, makes of the output `3`.
fn signature(registry: &ModifierRegistry<u8, Transform>) -> Vec<u32> {
    registry.snapshot_sorted().iter().map(|m| (m.modify)(0, 0, 3).2).collect()
}

#[test]
fn new_registry_is_empty() {
    let registry: ModifierRegistry<u8, Transform> = ModifierRegistry::new();
    assert_eq!(registry.len(), 0);
    assert!(registry.is_empty());
    assert!(registry.snapshot_sorted().is_empty());
}

#[test]
fn register_counts_every_modifier() {
    let mut registry: ModifierRegistry<u8, Transform> = ModifierRegistry::new();
    registry.register(ModifierComponent::new(2, add_one as Transform));
    assert_eq!(registry.len(), 1);
    assert!(!registry.is_empty());
    registry.register(ModifierComponent::new(2, double as Transform));
    assert_eq!(registry.len(), 2);
}

#[test]
fn snapshot_is_ascending_by_priority() {
    let mut registry: ModifierRegistry<u8, Transform> = ModifierRegistry::new();
    registry.register(ModifierComponent::new(7, double as Transform));
    registry.register(ModifierComponent::new(3, add_one as Transform));
    registry.register(ModifierComponent::new(5, square as Transform));
    assert_eq!(priorities(&registry), vec![3, 5, 7]);
    // add_one, square, double, each on 3
    assert_eq!(signature(&registry), vec![4, 9, 6]);
}

#[test]
fn snapshot_does_not_change_the_registry() {
    let mut registry: ModifierRegistry<u8, Transform> = ModifierRegistry::new();
    registry.register(ModifierComponent::new(7, double as Transform));
    registry.register(ModifierComponent::new(3, add_one as Transform));
    assert_eq!(priorities(&registry), vec![3, 7]);
    assert_eq!(priorities(&registry), vec![3, 7]);
    assert_eq!(registry.len(), 2);
}

#[test]
fn modifiers_of_equal_priority_are_all_kept_in_registration_order() {
    let mut registry: ModifierRegistry<u8, Transform> = ModifierRegistry::new();
    registry.register(ModifierComponent::new(4, double as Transform));
    registry.register(ModifierComponent::new(1, square as Transform));
    registry.register(ModifierComponent::new(4, add_one as Transform));
    registry.register(ModifierComponent::new(4, square as Transform));
    registry.register(ModifierComponent::new(0, add_one as Transform));
    assert_eq!(priorities(&registry), vec![0, 1, 4, 4, 4]);
    // add_one, square, then the three that tie as registered: double, add_one, square
    assert_eq!(signature(&registry), vec![4, 9, 6, 4, 9]);
}

#[test]
fn every_registration_order_gives_the_same_snapshot() {
    let modifiers: [(u8, Transform); 3] = [(1, add_one), (2, double), (3, square)];
    let orders = [[0, 1, 2], [0, 2, 1], [1, 0, 2], [1, 2, 0], [2, 0, 1], [2, 1, 0]];
    for order in orders {
        let mut registry: ModifierRegistry<u8, Transform> = ModifierRegistry::new();
        for i in order {
            registry.register(ModifierComponent::new(modifiers[i].0, modifiers[i].1));
        }
        assert_eq!(priorities(&registry), vec![1, 2, 3]);
        assert_eq!(signature(&registry), vec![4, 6, 9]);
    }
}

#[test]
fn a_later_registration_shows_in_the_next_snapshot() {
    let mut registry: ModifierRegistry<u8, Transform> = ModifierRegistry::new();
    registry.register(ModifierComponent::new(9, double as Transform));
    assert_eq!(priorities(&registry), vec![9]);
    registry.register(ModifierComponent::new(1, add_one as Transform));
    assert_eq!(priorities(&registry), vec![1, 9]);
}
