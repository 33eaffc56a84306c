//! The modifier record: a priority and a transform.

use core::cmp::Ordering;
use vstd::prelude::*;
use vstd::std_specs::cmp::OrdSpec;
use vstd::std_specs::cmp::PartialEqSpec;
use vstd::std_specs::cmp::PartialEqSpecImpl;
use vstd::std_specs::cmp::PartialOrdSpec;
use vstd::std_specs::cmp::PartialOrdSpecImpl;

verus! {

/// One registered transformation step.
///
/// `modify` takes the working state `(context, metadata, output)` of one
/// event and hands back the state it leaves. Equality and ordering of
/// modifiers look at `priority` alone: two modifiers of equal priority
/// compare equal whatever their transforms are.
pub struct ModifierComponent<Priority, Transform> {
    pub priority: Priority,
    pub modify: Transform,
}

impl<Priority, Transform> ModifierComponent<Priority, Transform> {
    /// A modifier that runs `modify` at rank `priority`.
    pub fn new(priority: Priority, modify: Transform) -> (r: Self)
        ensures
            r.priority == priority,
            r.modify == modify,
    {
        ModifierComponent { priority, modify }
    }

    /// Orders two modifiers by their priorities.
    pub fn cmp(&self, other: &Self) -> (r: Ordering) where Priority: Ord
        ensures
            Priority::obeys_cmp_spec() ==> r == self.priority.cmp_spec(&other.priority),
    {
        self.priority.cmp(&other.priority)
    }
}

impl<Priority: PartialEq, Transform> PartialEq for ModifierComponent<Priority, Transform> {
    fn eq(&self, other: &Self) -> (r: bool) {
        self.priority == other.priority
    }
}

impl<Priority: PartialEq, Transform> PartialEqSpecImpl for ModifierComponent<Priority, Transform> {
    open spec fn obeys_eq_spec() -> bool {
        Priority::obeys_eq_spec()
    }

    open spec fn eq_spec(&self, other: &Self) -> bool {
        self.priority.eq_spec(&other.priority)
    }
}

impl<Priority: PartialOrd, Transform> PartialOrd for ModifierComponent<Priority, Transform> {
    fn partial_cmp(&self, other: &Self) -> (r: Option<Ordering>) {
        self.priority.partial_cmp(&other.priority)
    }
}

impl<Priority: PartialOrd, Transform> PartialOrdSpecImpl for ModifierComponent<Priority, Transform> {
    open spec fn obeys_partial_cmp_spec() -> bool {
        Priority::obeys_partial_cmp_spec()
    }

    open spec fn partial_cmp_spec(&self, other: &Self) -> Option<Ordering> {
        self.priority.partial_cmp_spec(&other.priority)
    }
}

/// A modifier record that carries its priority only, for pipelines whose
/// transform is fixed. It is compared and ordered by that priority.
pub struct CombatDamageModifierComponent<Priority> {
    pub priority: Priority,
}

impl<Priority> CombatDamageModifierComponent<Priority> {
    /// Orders two records by their priorities.
    pub fn cmp(&self, other: &Self) -> (r: Ordering) where Priority: Ord
        ensures
            Priority::obeys_cmp_spec() ==> r == self.priority.cmp_spec(&other.priority),
    {
        self.priority.cmp(&other.priority)
    }
}

impl<Priority: PartialEq> PartialEq for CombatDamageModifierComponent<Priority> {
    fn eq(&self, other: &Self) -> (r: bool) {
        self.priority == other.priority
    }
}

impl<Priority: PartialEq> PartialEqSpecImpl for CombatDamageModifierComponent<Priority> {
    open spec fn obeys_eq_spec() -> bool {
        Priority::obeys_eq_spec()
    }

    open spec fn eq_spec(&self, other: &Self) -> bool {
        self.priority.eq_spec(&other.priority)
    }
}

impl<Priority: PartialOrd> PartialOrd for CombatDamageModifierComponent<Priority> {
    fn partial_cmp(&self, other: &Self) -> (r: Option<Ordering>) {
        self.priority.partial_cmp(&other.priority)
    }
}

impl<Priority: PartialOrd> PartialOrdSpecImpl for CombatDamageModifierComponent<Priority> {
    open spec fn obeys_partial_cmp_spec() -> bool {
        Priority::obeys_partial_cmp_spec()
    }

    open spec fn partial_cmp_spec(&self, other: &Self) -> Option<Ordering> {
        self.priority.partial_cmp_spec(&other.priority)
    }
}

} // verus!
