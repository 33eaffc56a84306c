//! What a pipeline declaration has to name.
//!
//! A pipeline is declared by naming five things: the modifier component,
//! the input event, the metadata, the output event and the priority. A
//! declaration is written as a list of arguments `name = value`. It is
//! complete when every one of the five has a value; where a name is given
//! more than once, its last value counts.

use vstd::prelude::*;

verus! {

/// One of the five things that a declaration names.
#[derive(Clone, Copy, PartialEq, Eq, Debug, Structural)]
pub enum Slot {
    Component,
    Input,
    Metadata,
    Output,
    Priority,
}

/// The slot that an argument called `name` fills, if there is one.
pub open spec fn slot_named(name: Seq<char>) -> Option<Slot> {
    if name == "component"@ {
        Some(Slot::Component)
    } else if name == "input"@ {
        Some(Slot::Input)
    } else if name == "metadata"@ {
        Some(Slot::Metadata)
    } else if name == "output"@ {
        Some(Slot::Output)
    } else if name == "priority"@ {
        Some(Slot::Priority)
    } else {
        None
    }
}

/// A complete declaration: one value for each slot.
pub struct Declaration<T> {
    pub component: T,
    pub input: T,
    pub metadata: T,
    pub output: T,
    pub priority: T,
}

/// The value that `arguments` give to `slot`: that of the last argument
/// for it.
pub open spec fn last_value<T>(arguments: Seq<(Slot, T)>, slot: Slot) -> Option<T>
    decreases arguments.len(),
{
    if arguments.len() == 0 {
        None
    } else if arguments.last().0 == slot {
        Some(arguments.last().1)
    } else {
        last_value(arguments.drop_last(), slot)
    }
}

/// The declaration that `arguments` make, where they fill every slot.
pub open spec fn declared<T>(arguments: Seq<(Slot, T)>) -> Option<Declaration<T>> {
    if last_value(arguments, Slot::Component).is_some() && last_value(
        arguments,
        Slot::Input,
    ).is_some() && last_value(arguments, Slot::Metadata).is_some() && last_value(
        arguments,
        Slot::Output,
    ).is_some() && last_value(arguments, Slot::Priority).is_some() {
        Some(
            Declaration {
                component: last_value(arguments, Slot::Component).unwrap(),
                input: last_value(arguments, Slot::Input).unwrap(),
                metadata: last_value(arguments, Slot::Metadata).unwrap(),
                output: last_value(arguments, Slot::Output).unwrap(),
                priority: last_value(arguments, Slot::Priority).unwrap(),
            },
        )
    } else {
        None
    }
}

/// What is known of a slot while the arguments are read from the back:
/// the value already found, or else what the arguments still unread give.
spec fn value_so_far<T>(found: Option<T>, unread: Seq<(Slot, T)>, slot: Slot) -> Option<T> {
    if found.is_some() {
        found
    } else {
        last_value(unread, slot)
    }
}

/// Tells which slot an argument called `name` fills. `None` says that no
/// slot has that name.
pub fn slot_of(name: &String) -> (r: Option<Slot>)
    ensures
        r == slot_named(name@),
{
    if *name == "component".to_owned() {
        Some(Slot::Component)
    } else if *name == "input".to_owned() {
        Some(Slot::Input)
    } else if *name == "metadata".to_owned() {
        Some(Slot::Metadata)
    } else if *name == "output".to_owned() {
        Some(Slot::Output)
    } else if *name == "priority".to_owned() {
        Some(Slot::Priority)
    } else {
        None
    }
}

/// Makes a declaration of `arguments`. The answer is `None` exactly where
/// a slot is left without a value.
pub fn resolve<T>(arguments: Vec<(Slot, T)>) -> (r: Option<Declaration<T>>)
    ensures
        r == declared(arguments@),
{
    let ghost all = arguments@;
    let mut unread = arguments;
    let mut component: Option<T> = None;
    let mut input: Option<T> = None;
    let mut metadata: Option<T> = None;
    let mut output: Option<T> = None;
    let mut priority: Option<T> = None;
    while unread.len() > 0
        invariant
            value_so_far(component, unread@, Slot::Component) == last_value(all, Slot::Component),
            value_so_far(input, unread@, Slot::Input) == last_value(all, Slot::Input),
            value_so_far(metadata, unread@, Slot::Metadata) == last_value(all, Slot::Metadata),
            value_so_far(output, unread@, Slot::Output) == last_value(all, Slot::Output),
            value_so_far(priority, unread@, Slot::Priority) == last_value(all, Slot::Priority),
        decreases unread@.len(),
    {
        let ghost before = unread@;
        let (slot, value) = unread.pop().unwrap();
        assert(unread@ =~= before.drop_last());
        match slot {
            Slot::Component => {
                if component.is_none() {
                    component = Some(value);
                }
            },
            Slot::Input => {
                if input.is_none() {
                    input = Some(value);
                }
            },
            Slot::Metadata => {
                if metadata.is_none() {
                    metadata = Some(value);
                }
            },
            Slot::Output => {
                if output.is_none() {
                    output = Some(value);
                }
            },
            Slot::Priority => {
                if priority.is_none() {
                    priority = Some(value);
                }
            },
        }
    }
    match (component, input, metadata, output, priority) {
        (Some(component), Some(input), Some(metadata), Some(output), Some(priority)) => Some(
            Declaration { component, input, metadata, output, priority },
        ),
        _ => None,
    }
}

} // verus!
