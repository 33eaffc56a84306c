//! A pipeline: one registry of modifiers together with the two
//! initialisers that start the working state of each event.

use crate::engine::all_total;
use crate::engine::initialisers_total;
use crate::engine::pass_relates;
use crate::engine::run_pass;
use crate::modifier::ModifierComponent;
use crate::order::is_total_order;
use crate::registry::sorted_by_priority;
use crate::registry::ModifierRegistry;
use vstd::prelude::*;

verus! {

/// One complete wiring from input events to output events.
///
/// `init_metadata` builds the scratch state of an event from the context
/// and the event. `init_output` builds the initial output, or refuses the
/// event by answering `None`. Both hand the context back.
pub struct Pipeline<Priority, Transform, MetadataInit, OutputInit> {
    pub registry: ModifierRegistry<Priority, Transform>,
    pub init_metadata: MetadataInit,
    pub init_output: OutputInit,
}

impl<Priority, Transform, MetadataInit, OutputInit> Pipeline<
    Priority,
    Transform,
    MetadataInit,
    OutputInit,
> {
    /// A pipeline with the given initialisers and no modifier.
    pub fn new(init_metadata: MetadataInit, init_output: OutputInit) -> (r: Self)
        ensures
            r.registry@ == Seq::<ModifierComponent<Priority, Transform>>::empty(),
            r.init_metadata == init_metadata,
            r.init_output == init_output,
    {
        Pipeline { registry: ModifierRegistry::new(), init_metadata, init_output }
    }

    /// Registers a modifier. It takes part in every pass that starts
    /// after this call.
    pub fn register(&mut self, modifier: ModifierComponent<Priority, Transform>)
        ensures
            final(self).registry@ == old(self).registry@.push(modifier),
            final(self).init_metadata == old(self).init_metadata,
            final(self).init_output == old(self).init_output,
    {
        self.registry.register(modifier);
    }

    /// Runs one pass over the pending `events`, in arrival order, and
    /// returns the context it leaves and the outputs it emits.
    pub fn run_pass<E, C, M, O>(&self, context: C, events: Vec<E>) -> (r: (C, Vec<O>)) where
        Priority: Ord,
        Transform: Fn(C, M, O) -> (C, M, O),
        MetadataInit: Fn(C, &E) -> (C, M),
        OutputInit: Fn(C, &E) -> (C, Option<O>),

        requires
            is_total_order::<Priority>(),
            all_total(self.registry@),
            initialisers_total(self.init_metadata, self.init_output),
        ensures
            pass_relates(
                sorted_by_priority(self.registry@),
                self.init_metadata,
                self.init_output,
                events@,
                context,
                r.0,
                r.1@,
            ),
    {
        run_pass(&self.registry, &self.init_metadata, &self.init_output, context, events)
    }
}

} // verus!
