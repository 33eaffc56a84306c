//! The dispatch engine: folding the sorted modifiers over each event.
//!
//! A transform takes the working state `(context, metadata, output)` by
//! value and hands back the state it leaves; an initialiser takes the
//! context and the event and hands the context back with what it built.
//! Everything a modifier shares with the others therefore travels through
//! the context, strictly in sequence.
//!
//! Transforms and initialisers are ordinary functions, so what they do is
//! known only through their own contracts. The engine therefore states what
//! it does as relations over those contracts: `fold_relates` for one run of
//! the chain, `event_relates` for one event, `pass_relates` for a batch.

use crate::modifier::ModifierComponent;
use crate::order::is_total_order;
use crate::registry::lemma_sorted_holds_only_registered;
use crate::registry::referents;
use crate::registry::sorted_by_priority;
use crate::registry::ModifierRegistry;
use vstd::prelude::*;

verus! {

/// A transform must be a total operation: `transform` accepts every
/// working state.
pub open spec fn is_total<C, M, O, F: Fn(C, M, O) -> (C, M, O)>(transform: F) -> bool {
    forall|context: C, metadata: M, output: O| #[trigger]
        call_requires(transform, (context, metadata, output))
}

/// Every modifier of `chain` has a total transform.
pub open spec fn all_total<C, M, O, P, F: Fn(C, M, O) -> (C, M, O)>(
    chain: Seq<ModifierComponent<P, F>>,
) -> bool {
    forall|i: int| 0 <= i < chain.len() ==> is_total::<C, M, O, F>(#[trigger] chain[i].modify)
}

/// Both initialisers accept every context and every event.
pub open spec fn initialisers_total<E, C, M, O, MI, OI>(init_metadata: MI, init_output: OI) -> bool where
    MI: Fn(C, &E) -> (C, M),
    OI: Fn(C, &E) -> (C, Option<O>),
 {
    &&& forall|context: C, event: &E| #[trigger] call_requires(init_metadata, (context, event))
    &&& forall|context: C, event: &E| #[trigger] call_requires(init_output, (context, event))
}

/// `trace` lists the working states of one run of `chain` from `before`
/// to `after`: the state the run starts from, then the state that each
/// modifier in turn leaves.
pub open spec fn is_fold_trace<C, M, O, P, F: Fn(C, M, O) -> (C, M, O)>(
    chain: Seq<ModifierComponent<P, F>>,
    before: (C, M, O),
    after: (C, M, O),
    trace: Seq<(C, M, O)>,
) -> bool {
    &&& trace.len() == chain.len() + 1
    &&& trace.first() == before
    &&& trace.last() == after
    &&& forall|i: int|
        0 <= i < chain.len() ==> call_ensures(chain[i].modify, #[trigger] trace[i], trace[i + 1])
}

/// Running the modifiers of `chain` from left to right, each on the state
/// that the one before it left, can take the working state `before` to
/// `after`.
pub open spec fn fold_relates<C, M, O, P, F: Fn(C, M, O) -> (C, M, O)>(
    chain: Seq<ModifierComponent<P, F>>,
    before: (C, M, O),
    after: (C, M, O),
) -> bool {
    exists|trace: Seq<(C, M, O)>| is_fold_trace(chain, before, after, trace)
}

/// Runs every modifier of `chain` in turn on the working state.
pub fn apply_modifiers<C, M, O, P, F: Fn(C, M, O) -> (C, M, O)>(
    chain: &Vec<&ModifierComponent<P, F>>,
    context: C,
    metadata: M,
    output: O,
) -> (r: (C, M, O))
    requires
        all_total(referents(chain@)),
    ensures
        fold_relates(referents(chain@), (context, metadata, output), r),
{
    let mut state = (context, metadata, output);
    let ghost mut trace: Seq<(C, M, O)> = seq![state];
    let mut i: usize = 0;
    while i < chain.len()
        invariant
            i <= chain@.len(),
            all_total(referents(chain@)),
            is_fold_trace(
                referents(chain@).take(i as int),
                (context, metadata, output),
                state,
                trace,
            ),
        decreases chain@.len() - i,
    {
        let (c, m, o) = state;
        assert(referents(chain@)[i as int] == *chain@[i as int]);
        state = (chain[i].modify)(c, m, o);
        proof {
            trace = trace.push(state);
        }
        i = i + 1;
    }
    assert(referents(chain@).take(i as int) =~= referents(chain@));
    state
}

/// The two initialisers, run on `context` for `event`, can leave the
/// context `ready`, the scratch state `metadata` and the answer `initial`:
/// the metadata is built first, and the output on the context which that
/// left. `initial` is `None` where the output initialiser refuses the event.
pub open spec fn initialised<E, C, M, O, MI, OI>(
    init_metadata: MI,
    init_output: OI,
    context: C,
    event: E,
    ready: C,
    metadata: M,
    initial: Option<O>,
) -> bool where MI: Fn(C, &E) -> (C, M), OI: Fn(C, &E) -> (C, Option<O>) {
    exists|built: C|
        #![trigger call_ensures(init_metadata, (context, &event), (built, metadata))]
        call_ensures(init_metadata, (context, &event), (built, metadata)) && call_ensures(
            init_output,
            (built, &event),
            (ready, initial),
        )
}

/// What becomes of an event once it is initialised. Where the output
/// initialiser refused, nothing is emitted and the context stays as the
/// initialisers left it: no modifier runs. Where it gave an output, the
/// chain is run on it, and what the chain leaves is emitted.
pub open spec fn completes<C, M, O, P, F: Fn(C, M, O) -> (C, M, O)>(
    chain: Seq<ModifierComponent<P, F>>,
    ready: C,
    metadata: M,
    initial: Option<O>,
    after: C,
    emitted: Option<O>,
) -> bool {
    match initial {
        None => after == ready && emitted.is_none(),
        Some(output) => emitted.is_some() && exists|left: M|
            #![trigger fold_relates(chain, (ready, metadata, output), (after, left, emitted.unwrap()))]
            fold_relates(chain, (ready, metadata, output), (after, left, emitted.unwrap())),
    }
}

/// Processing `event` on `context` can leave the context `after` and emit
/// `emitted`: the event is initialised, with metadata and output of its
/// own, and then completed.
pub open spec fn event_relates<E, C, M, O, P, F, MI, OI>(
    chain: Seq<ModifierComponent<P, F>>,
    init_metadata: MI,
    init_output: OI,
    context: C,
    event: E,
    after: C,
    emitted: Option<O>,
) -> bool where
    F: Fn(C, M, O) -> (C, M, O),
    MI: Fn(C, &E) -> (C, M),
    OI: Fn(C, &E) -> (C, Option<O>),
 {
    exists|ready: C, metadata: M, initial: Option<O>|
        #![trigger initialised(init_metadata, init_output, context, event, ready, metadata, initial)]
        initialised(init_metadata, init_output, context, event, ready, metadata, initial)
            && completes(chain, ready, metadata, initial, after, emitted)
}

/// The outputs among `emissions`, in order.
pub open spec fn emitted_outputs<O>(emissions: Seq<Option<O>>) -> Seq<O>
    decreases emissions.len(),
{
    if emissions.len() == 0 {
        Seq::empty()
    } else {
        match emissions.last() {
            Some(output) => emitted_outputs(emissions.drop_last()).push(output),
            None => emitted_outputs(emissions.drop_last()),
        }
    }
}

/// `contexts` and `emissions` record one pass over `events` that takes
/// `context` to `after` and emits `outputs`: they list the context before
/// each event and after the last, and what each event emitted. One chain
/// serves every event of the pass.
pub open spec fn is_pass_trace<E, C, M, O, P, F, MI, OI>(
    chain: Seq<ModifierComponent<P, F>>,
    init_metadata: MI,
    init_output: OI,
    events: Seq<E>,
    context: C,
    after: C,
    outputs: Seq<O>,
    contexts: Seq<C>,
    emissions: Seq<Option<O>>,
) -> bool where
    F: Fn(C, M, O) -> (C, M, O),
    MI: Fn(C, &E) -> (C, M),
    OI: Fn(C, &E) -> (C, Option<O>),
 {
    &&& contexts.len() == events.len() + 1
    &&& emissions.len() == events.len()
    &&& contexts.first() == context
    &&& contexts.last() == after
    &&& outputs == emitted_outputs(emissions)
    &&& forall|i: int|
        0 <= i < events.len() ==> event_relates(
            chain,
            init_metadata,
            init_output,
            contexts[i],
            events[i],
            contexts[i + 1],
            #[trigger] emissions[i],
        )
}

/// A pass over `events` in arrival order, with the modifiers of `chain`,
/// can take `context` to `after` and emit `outputs`.
pub open spec fn pass_relates<E, C, M, O, P, F, MI, OI>(
    chain: Seq<ModifierComponent<P, F>>,
    init_metadata: MI,
    init_output: OI,
    events: Seq<E>,
    context: C,
    after: C,
    outputs: Seq<O>,
) -> bool where
    F: Fn(C, M, O) -> (C, M, O),
    MI: Fn(C, &E) -> (C, M),
    OI: Fn(C, &E) -> (C, Option<O>),
 {
    exists|contexts: Seq<C>, emissions: Seq<Option<O>>|
        is_pass_trace(
            chain,
            init_metadata,
            init_output,
            events,
            context,
            after,
            outputs,
            contexts,
            emissions,
        )
}

/// Processes one event: builds its metadata, builds its output or skips
/// the event where the initialiser refuses, and runs the chain.
pub fn process_event<E, C, M, O, P, F, MI, OI>(
    chain: &Vec<&ModifierComponent<P, F>>,
    init_metadata: &MI,
    init_output: &OI,
    context: C,
    event: &E,
) -> (r: (C, Option<O>)) where
    F: Fn(C, M, O) -> (C, M, O),
    MI: Fn(C, &E) -> (C, M),
    OI: Fn(C, &E) -> (C, Option<O>),

    requires
        all_total(referents(chain@)),
        initialisers_total(*init_metadata, *init_output),
    ensures
        event_relates(
            referents(chain@),
            *init_metadata,
            *init_output,
            context,
            *event,
            r.0,
            r.1,
        ),
{
    let (built, metadata) = init_metadata(context, event);
    let (ready, initial) = init_output(built, event);
    assert(initialised(*init_metadata, *init_output, context, *event, ready, metadata, initial));
    match initial {
        None => (ready, None),
        Some(output) => {
            let (after, left, changed) = apply_modifiers(chain, ready, metadata, output);
            let emitted = Some(changed);
            assert(fold_relates(
                referents(chain@),
                (ready, metadata, output),
                (after, left, emitted.unwrap()),
            ));
            (after, emitted)
        },
    }
}

/// Whether a pass has anything to do: it runs only if an event is pending.
pub fn pass_is_due<E>(pending: &Vec<E>) -> (r: bool)
    ensures
        r == (pending@.len() > 0),
{
    pending.len() > 0
}

/// One pass: takes the sorted snapshot of `registry` once, then processes
/// the pending `events` in arrival order, each with metadata and output of
/// its own, threading `context` through all of them. Returns the context
/// and the emitted outputs. With nothing pending the registry is not read.
pub fn run_pass<E, C, M, O, P, F, MI, OI>(
    registry: &ModifierRegistry<P, F>,
    init_metadata: &MI,
    init_output: &OI,
    context: C,
    events: Vec<E>,
) -> (r: (C, Vec<O>)) where
    P: Ord,
    F: Fn(C, M, O) -> (C, M, O),
    MI: Fn(C, &E) -> (C, M),
    OI: Fn(C, &E) -> (C, Option<O>),

    requires
        is_total_order::<P>(),
        all_total(registry@),
        initialisers_total(*init_metadata, *init_output),
    ensures
        pass_relates(
            sorted_by_priority(registry@),
            *init_metadata,
            *init_output,
            events@,
            context,
            r.0,
            r.1@,
        ),
{
    let mut outputs: Vec<O> = Vec::new();
    let ghost sorted = sorted_by_priority(registry@);
    if !pass_is_due(&events) {
        proof {
            assert(is_pass_trace(
                sorted,
                *init_metadata,
                *init_output,
                events@,
                context,
                context,
                outputs@,
                seq![context],
                Seq::empty(),
            ));
        }
        return (context, outputs);
    }
    let chain = registry.snapshot_sorted();
    proof {
        assert forall|i: int| 0 <= i < sorted.len() implies is_total::<C, M, O, F>(
            #[trigger] sorted[i].modify,
        ) by {
            lemma_sorted_holds_only_registered(registry@, i);
        }
    }
    let mut current = context;
    let ghost mut contexts: Seq<C> = seq![context];
    let ghost mut emissions: Seq<Option<O>> = Seq::empty();
    let mut i: usize = 0;
    while i < events.len()
        invariant
            i <= events@.len(),
            referents(chain@) == sorted,
            all_total(sorted),
            initialisers_total(*init_metadata, *init_output),
            is_pass_trace(
                sorted,
                *init_metadata,
                *init_output,
                events@.take(i as int),
                context,
                current,
                outputs@,
                contexts,
                emissions,
            ),
        decreases events@.len() - i,
    {
        let (after, emitted) = process_event(&chain, init_metadata, init_output, current, &events[i]);
        proof {
            let earlier = emissions;
            contexts = contexts.push(after);
            emissions = emissions.push(emitted);
            assert(emissions.drop_last() =~= earlier);
        }
        current = after;
        match emitted {
            Some(output) => {
                outputs.push(output);
            },
            None => {},
        }
        i = i + 1;
    }
    assert(events@.take(i as int) =~= events@);
    (current, outputs)
}

} // verus!
