use std::cmp::Ordering;

use event_modifiers::modifier::{CombatDamageModifierComponent, ModifierComponent};
use event_modifiers::order::comes_before;

#[test]
fn new_keeps_priority_and_transform() {
    let modifier = ModifierComponent::new(3u8, 'x');
    assert_eq!(modifier.priority, 3);
    assert_eq!(modifier.modify, 'x');
}

#[test]
fn modifiers_are_equal_by_priority_alone() {
    let a = ModifierComponent::new(3u8, 'x');
    let b = ModifierComponent::new(3u8, 'y');
    let c = ModifierComponent::new(4u8, 'x');
    assert!(a == b);
    assert!(a != c);
}

#[test]
fn modifiers_are_ordered_by_priority_alone() {
    let a = ModifierComponent::new(3u8, 'z');
    let b = ModifierComponent::new(3u8, 'a');
    let c = ModifierComponent::new(4u8, 'a');
    assert_eq!(a.cmp(&b), Ordering::Equal);
    assert_eq!(a.cmp(&c), Ordering::Less);
    assert_eq!(c.cmp(&a), Ordering::Greater);
    assert_eq!(a.partial_cmp(&b), Some(Ordering::Equal));
    assert_eq!(a.partial_cmp(&c), Some(Ordering::Less));
    assert_eq!(c.partial_cmp(&b), Some(Ordering::Greater));
    assert!(a < c);
    assert!(!(a < b));
}

#[test]
fn priority_only_records_compare_by_priority() {
    let a = CombatDamageModifierComponent { priority: 1i32 };
    let b = CombatDamageModifierComponent { priority: 1i32 };
    let c = CombatDamageModifierComponent { priority: -5i32 };
    assert!(a == b);
    assert!(a != c);
    assert_eq!(a.cmp(&b), Ordering::Equal);
    assert_eq!(a.cmp(&c), Ordering::Greater);
    assert_eq!(c.cmp(&a), Ordering::Less);
    assert_eq!(c.partial_cmp(&a), Some(Ordering::Less));
    assert!(c < a);
}

#[test]
fn comes_before_is_strict() {
    assert!(comes_before(&1u8, &2u8));
    assert!(!comes_before(&2u8, &2u8));
    assert!(!comes_before(&3u8, &2u8));
}
