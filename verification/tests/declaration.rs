use event_modifiers::declaration::{resolve, slot_of, Slot};

fn named(name: &str) -> Option<Slot> {
    slot_of(&name.to_string())
}

#[test]
fn each_slot_has_its_name() {
    assert_eq!(named("component"), Some(Slot::Component));
    assert_eq!(named("input"), Some(Slot::Input));
    assert_eq!(named("metadata"), Some(Slot::Metadata));
    assert_eq!(named("output"), Some(Slot::Output));
    assert_eq!(named("priority"), Some(Slot::Priority));
}

#[test]
fn other_names_fill_no_slot() {
    assert_eq!(named("modifier"), None);
    assert_eq!(named(""), None);
    assert_eq!(named("Input"), None);
    assert_eq!(named("input "), None);
    assert_eq!(named("inputs"), None);
}

#[test]
fn five_arguments_in_any_order_make_a_declaration() {
    let declaration = resolve(vec![
        (Slot::Input, "AttackEvent"),
        (Slot::Metadata, "Metadata"),
        (Slot::Priority, "Priority"),
        (Slot::Component, "Modifier"),
        (Slot::Output, "DamageEvent"),
    ])
    .unwrap();
    assert_eq!(declaration.component, "Modifier");
    assert_eq!(declaration.input, "AttackEvent");
    assert_eq!(declaration.metadata, "Metadata");
    assert_eq!(declaration.output, "DamageEvent");
    assert_eq!(declaration.priority, "Priority");
}

#[test]
fn a_missing_slot_makes_no_declaration() {
    assert!(resolve(Vec::<(Slot, u8)>::new()).is_none());
    let all = [Slot::Component, Slot::Input, Slot::Metadata, Slot::Output, Slot::Priority];
    for missing in all {
        let arguments: Vec<(Slot, u8)> =
            all.iter().filter(|slot| **slot != missing).map(|slot| (*slot, 0)).collect();
        assert_eq!(arguments.len(), 4);
        assert!(resolve(arguments).is_none());
    }
}

#[test]
fn the_last_value_of_a_repeated_name_counts() {
    let declaration = resolve(vec![
        (Slot::Input, 1),
        (Slot::Component, 2),
        (Slot::Input, 3),
        (Slot::Metadata, 4),
        (Slot::Output, 5),
        (Slot::Priority, 6),
        (Slot::Input, 7),
        (Slot::Priority, 8),
    ])
    .unwrap();
    assert_eq!(declaration.component, 2);
    assert_eq!(declaration.input, 7);
    assert_eq!(declaration.metadata, 4);
    assert_eq!(declaration.output, 5);
    assert_eq!(declaration.priority, 8);
}
