//! What holds of every chain, every event and every pass.

use crate::engine::completes;
use crate::engine::emitted_outputs;
use crate::engine::event_relates;
use crate::engine::fold_relates;
use crate::engine::initialised;
use crate::engine::is_fold_trace;
use crate::engine::is_pass_trace;
use crate::engine::pass_relates;
use crate::modifier::ModifierComponent;
use crate::order::is_total_order;
use crate::registry::has_distinct_priorities;
use crate::registry::lemma_registration_order_is_irrelevant;
use crate::registry::lemma_sorted_holds_only_registered;
use crate::registry::sorted_by_priority;
use vstd::prelude::*;

verus! {

/// With no modifier in the chain the working state stays exactly as it is.
pub proof fn lemma_empty_chain_is_identity<C, M, O, P, F: Fn(C, M, O) -> (C, M, O)>(
    before: (C, M, O),
    after: (C, M, O),
)
    ensures
        fold_relates(Seq::<ModifierComponent<P, F>>::empty(), before, after) <==> before == after,
{
    let chain = Seq::<ModifierComponent<P, F>>::empty();
    if before == after {
        assert(is_fold_trace(chain, before, after, seq![before]));
    }
}

/// A chain of one modifier does what the transform of that modifier does.
pub proof fn lemma_chain_of_one_is_its_transform<C, M, O, P, F: Fn(C, M, O) -> (C, M, O)>(
    modifier: ModifierComponent<P, F>,
    before: (C, M, O),
    after: (C, M, O),
)
    ensures
        fold_relates(seq![modifier], before, after) <==> call_ensures(
            modifier.modify,
            before,
            after,
        ),
{
    let chain = seq![modifier];
    if call_ensures(modifier.modify, before, after) {
        assert(is_fold_trace(chain, before, after, seq![before, after]));
    }
    if fold_relates(chain, before, after) {
        let trace = choose|trace: Seq<(C, M, O)>| is_fold_trace(chain, before, after, trace);
        assert(call_ensures(chain[0].modify, trace[0], trace[1]));
    }
}

/// A chain is the composition of its parts, from left to right: running
/// `front + back` is running `front` and then `back` on the state that
/// `front` left.
pub proof fn lemma_chain_composes<C, M, O, P, F: Fn(C, M, O) -> (C, M, O)>(
    front: Seq<ModifierComponent<P, F>>,
    back: Seq<ModifierComponent<P, F>>,
    before: (C, M, O),
    after: (C, M, O),
)
    ensures
        fold_relates(front + back, before, after) <==> exists|between: (C, M, O)|
            #![trigger fold_relates(front, before, between)]
            fold_relates(front, before, between) && fold_relates(back, between, after),
{
    let whole = front + back;
    let n = front.len() as int;
    if fold_relates(whole, before, after) {
        let trace = choose|trace: Seq<(C, M, O)>| is_fold_trace(whole, before, after, trace);
        let head = trace.take(n + 1);
        let tail = trace.skip(n);
        assert forall|i: int| 0 <= i < front.len() implies call_ensures(
            front[i].modify,
            #[trigger] head[i],
            head[i + 1],
        ) by {
            assert(call_ensures(whole[i].modify, trace[i], trace[i + 1]));
        }
        assert forall|i: int| 0 <= i < back.len() implies call_ensures(
            back[i].modify,
            #[trigger] tail[i],
            tail[i + 1],
        ) by {
            assert(call_ensures(whole[n + i].modify, trace[n + i], trace[n + i + 1]));
        }
        assert(is_fold_trace(front, before, trace[n], head));
        assert(is_fold_trace(back, trace[n], after, tail));
        assert(fold_relates(front, before, trace[n]));
    }
    if exists|between: (C, M, O)|
        #![trigger fold_relates(front, before, between)]
        fold_relates(front, before, between) && fold_relates(back, between, after) {
        let between = choose|between: (C, M, O)|
            #![trigger fold_relates(front, before, between)]
            fold_relates(front, before, between) && fold_relates(back, between, after);
        let head = choose|trace: Seq<(C, M, O)>| is_fold_trace(front, before, between, trace);
        let tail = choose|trace: Seq<(C, M, O)>| is_fold_trace(back, between, after, trace);
        let trace = head + tail.drop_first();
        assert forall|i: int| 0 <= i < whole.len() implies call_ensures(
            whole[i].modify,
            #[trigger] trace[i],
            trace[i + 1],
        ) by {
            if i < n {
                assert(call_ensures(front[i].modify, head[i], head[i + 1]));
                if i == n - 1 {
                    assert(trace[i + 1] == tail[0]);
                }
            } else {
                assert(call_ensures(back[i - n].modify, tail[i - n], tail[i - n + 1]));
                assert(trace[i] == tail[i - n]);
            }
        }
        assert(is_fold_trace(whole, before, after, trace));
    }
}

/// With nothing registered, what is emitted for an event is exactly what
/// the output initialiser gave, and the context is as the initialisers
/// left it.
pub proof fn lemma_empty_chain_emits_initial_output<E, C, M, O, P, F, MI, OI>(
    init_metadata: MI,
    init_output: OI,
    context: C,
    event: E,
    after: C,
    emitted: Option<O>,
) where F: Fn(C, M, O) -> (C, M, O), MI: Fn(C, &E) -> (C, M), OI: Fn(C, &E) -> (C, Option<O>)
    ensures
        event_relates(
            Seq::<ModifierComponent<P, F>>::empty(),
            init_metadata,
            init_output,
            context,
            event,
            after,
            emitted,
        ) <==> exists|metadata: M|
            #![trigger initialised(init_metadata, init_output, context, event, after, metadata, emitted)]
            initialised(init_metadata, init_output, context, event, after, metadata, emitted),
{
    let chain = Seq::<ModifierComponent<P, F>>::empty();
    if event_relates(chain, init_metadata, init_output, context, event, after, emitted) {
        let (ready, metadata, initial) = choose|ready: C, metadata: M, initial: Option<O>|
            #![trigger initialised(init_metadata, init_output, context, event, ready, metadata, initial)]
            initialised(init_metadata, init_output, context, event, ready, metadata, initial)
                && completes(chain, ready, metadata, initial, after, emitted);
        if initial.is_some() {
            let output = initial.unwrap();
            let left = choose|left: M|
                #![trigger fold_relates(chain, (ready, metadata, output), (after, left, emitted.unwrap()))]
                fold_relates(chain, (ready, metadata, output), (after, left, emitted.unwrap()));
            lemma_empty_chain_is_identity::<C, M, O, P, F>(
                (ready, metadata, output),
                (after, left, emitted.unwrap()),
            );
        }
        assert(initialised(init_metadata, init_output, context, event, after, metadata, emitted));
    }
    if exists|metadata: M|
        #![trigger initialised(init_metadata, init_output, context, event, after, metadata, emitted)]
        initialised(init_metadata, init_output, context, event, after, metadata, emitted) {
        let metadata = choose|metadata: M|
            #![trigger initialised(init_metadata, init_output, context, event, after, metadata, emitted)]
            initialised(init_metadata, init_output, context, event, after, metadata, emitted);
        if emitted.is_some() {
            let state = (after, metadata, emitted.unwrap());
            lemma_empty_chain_is_identity::<C, M, O, P, F>(state, state);
            assert(fold_relates(
                chain,
                (after, metadata, emitted.unwrap()),
                (after, metadata, emitted.unwrap()),
            ));
        }
        assert(completes(chain, after, metadata, emitted, after, emitted));
    }
}

/// Nothing is emitted for an event exactly where the output initialiser
/// refuses it, and then no modifier has run: the context is as the
/// initialisers left it, whatever the chain holds.
pub proof fn lemma_refusal_suppresses_emission<E, C, M, O, P, F, MI, OI>(
    chain: Seq<ModifierComponent<P, F>>,
    init_metadata: MI,
    init_output: OI,
    context: C,
    event: E,
    after: C,
) where F: Fn(C, M, O) -> (C, M, O), MI: Fn(C, &E) -> (C, M), OI: Fn(C, &E) -> (C, Option<O>)
    ensures
        event_relates(chain, init_metadata, init_output, context, event, after, None::<O>)
            <==> exists|metadata: M|
            #![trigger initialised(init_metadata, init_output, context, event, after, metadata, None::<O>)]
            initialised(init_metadata, init_output, context, event, after, metadata, None::<O>),
{
    let emitted = None::<O>;
    if event_relates(chain, init_metadata, init_output, context, event, after, emitted) {
        let (ready, metadata, initial) = choose|ready: C, metadata: M, initial: Option<O>|
            #![trigger initialised(init_metadata, init_output, context, event, ready, metadata, initial)]
            initialised(init_metadata, init_output, context, event, ready, metadata, initial)
                && completes(chain, ready, metadata, initial, after, emitted);
        assert(initialised(init_metadata, init_output, context, event, after, metadata, emitted));
    }
    if exists|metadata: M|
        #![trigger initialised(init_metadata, init_output, context, event, after, metadata, None::<O>)]
        initialised(init_metadata, init_output, context, event, after, metadata, None::<O>) {
        let metadata = choose|metadata: M|
            #![trigger initialised(init_metadata, init_output, context, event, after, metadata, None::<O>)]
            initialised(init_metadata, init_output, context, event, after, metadata, None::<O>);
        assert(completes(chain, after, metadata, emitted, after, emitted));
    }
}

/// The outputs of two runs of emissions, one after the other.
pub proof fn lemma_emitted_outputs_concatenate<O>(
    first: Seq<Option<O>>,
    second: Seq<Option<O>>,
)
    ensures
        emitted_outputs(first + second) == emitted_outputs(first) + emitted_outputs(second),
    decreases second.len(),
{
    if second.len() == 0 {
        assert(first + second =~= first);
        assert(emitted_outputs(first) + emitted_outputs(second) =~= emitted_outputs(first));
    } else {
        lemma_emitted_outputs_concatenate(first, second.drop_last());
        assert((first + second).drop_last() =~= first + second.drop_last());
        assert((first + second).last() == second.last());
        if second.last().is_some() {
            let output = second.last().unwrap();
            assert((emitted_outputs(first) + emitted_outputs(second.drop_last())).push(output)
                =~= emitted_outputs(first) + emitted_outputs(second.drop_last()).push(output));
        }
    }
}

/// A pass over no events changes nothing and emits nothing, so gating a
/// pass on pending events saves work and changes no result.
pub proof fn lemma_pass_without_events<E, C, M, O, P, F, MI, OI>(
    chain: Seq<ModifierComponent<P, F>>,
    init_metadata: MI,
    init_output: OI,
    context: C,
    after: C,
    outputs: Seq<O>,
) where F: Fn(C, M, O) -> (C, M, O), MI: Fn(C, &E) -> (C, M), OI: Fn(C, &E) -> (C, Option<O>)
    ensures
        pass_relates(
            chain,
            init_metadata,
            init_output,
            Seq::<E>::empty(),
            context,
            after,
            outputs,
        ) <==> after == context && outputs == Seq::<O>::empty(),
{
    let events = Seq::<E>::empty();
    if after == context && outputs == Seq::<O>::empty() {
        assert(is_pass_trace(
            chain,
            init_metadata,
            init_output,
            events,
            context,
            after,
            outputs,
            seq![context],
            Seq::empty(),
        ));
    }
    if pass_relates(chain, init_metadata, init_output, events, context, after, outputs) {
        let (contexts, emissions) = choose|contexts: Seq<C>, emissions: Seq<Option<O>>|
            is_pass_trace(
                chain,
                init_metadata,
                init_output,
                events,
                context,
                after,
                outputs,
                contexts,
                emissions,
            );
        assert(outputs =~= Seq::<O>::empty());
    }
}

/// A pass over one event is the processing of that event.
pub proof fn lemma_pass_of_one_event<E, C, M, O, P, F, MI, OI>(
    chain: Seq<ModifierComponent<P, F>>,
    init_metadata: MI,
    init_output: OI,
    event: E,
    context: C,
    after: C,
    outputs: Seq<O>,
) where F: Fn(C, M, O) -> (C, M, O), MI: Fn(C, &E) -> (C, M), OI: Fn(C, &E) -> (C, Option<O>)
    ensures
        pass_relates(chain, init_metadata, init_output, seq![event], context, after, outputs)
            <==> exists|emitted: Option<O>|
            #![trigger event_relates(chain, init_metadata, init_output, context, event, after, emitted)]
            event_relates(chain, init_metadata, init_output, context, event, after, emitted)
                && outputs == emitted_outputs(seq![emitted]),
{
    let events = seq![event];
    if pass_relates(chain, init_metadata, init_output, events, context, after, outputs) {
        let (contexts, emissions) = choose|contexts: Seq<C>, emissions: Seq<Option<O>>|
            is_pass_trace(
                chain,
                init_metadata,
                init_output,
                events,
                context,
                after,
                outputs,
                contexts,
                emissions,
            );
        assert(event_relates(
            chain,
            init_metadata,
            init_output,
            contexts[0],
            events[0],
            contexts[1],
            emissions[0],
        ));
        assert(emissions =~= seq![emissions[0]]);
    }
    if exists|emitted: Option<O>|
        #![trigger event_relates(chain, init_metadata, init_output, context, event, after, emitted)]
        event_relates(chain, init_metadata, init_output, context, event, after, emitted)
            && outputs == emitted_outputs(seq![emitted]) {
        let emitted = choose|emitted: Option<O>|
            #![trigger event_relates(chain, init_metadata, init_output, context, event, after, emitted)]
            event_relates(chain, init_metadata, init_output, context, event, after, emitted)
                && outputs == emitted_outputs(seq![emitted]);
        assert(is_pass_trace(
            chain,
            init_metadata,
            init_output,
            events,
            context,
            after,
            outputs,
            seq![context, after],
            seq![emitted],
        ));
    }
}

/// Events are processed in isolation. A pass over `first + second` is a
/// pass over `first` followed by a pass over `second`, and the one thing
/// that the second receives from the first is the context: the metadata
/// and the output built for one event reach no other event.
pub proof fn lemma_pass_splits<E, C, M, O, P, F, MI, OI>(
    chain: Seq<ModifierComponent<P, F>>,
    init_metadata: MI,
    init_output: OI,
    first: Seq<E>,
    second: Seq<E>,
    context: C,
    after: C,
    outputs: Seq<O>,
) where F: Fn(C, M, O) -> (C, M, O), MI: Fn(C, &E) -> (C, M), OI: Fn(C, &E) -> (C, Option<O>)
    ensures
        pass_relates(chain, init_metadata, init_output, first + second, context, after, outputs)
            <==> exists|between: C, early: Seq<O>, late: Seq<O>|
            #![trigger pass_relates(chain, init_metadata, init_output, first, context, between, early), pass_relates(chain, init_metadata, init_output, second, between, after, late)]
            pass_relates(chain, init_metadata, init_output, first, context, between, early)
                && pass_relates(chain, init_metadata, init_output, second, between, after, late)
                && outputs == early + late,
{
    let events = first + second;
    let n = first.len() as int;
    if pass_relates(chain, init_metadata, init_output, events, context, after, outputs) {
        let (contexts, emissions) = choose|contexts: Seq<C>, emissions: Seq<Option<O>>|
            is_pass_trace(
                chain,
                init_metadata,
                init_output,
                events,
                context,
                after,
                outputs,
                contexts,
                emissions,
            );
        let head_contexts = contexts.take(n + 1);
        let tail_contexts = contexts.skip(n);
        let head_emissions = emissions.take(n);
        let tail_emissions = emissions.skip(n);
        let between = contexts[n];
        let early = emitted_outputs(head_emissions);
        let late = emitted_outputs(tail_emissions);
        assert forall|i: int| 0 <= i < first.len() implies event_relates(
            chain,
            init_metadata,
            init_output,
            head_contexts[i],
            first[i],
            head_contexts[i + 1],
            #[trigger] head_emissions[i],
        ) by {
            assert(event_relates(
                chain,
                init_metadata,
                init_output,
                contexts[i],
                events[i],
                contexts[i + 1],
                emissions[i],
            ));
        }
        assert forall|i: int| 0 <= i < second.len() implies event_relates(
            chain,
            init_metadata,
            init_output,
            tail_contexts[i],
            second[i],
            tail_contexts[i + 1],
            #[trigger] tail_emissions[i],
        ) by {
            assert(event_relates(
                chain,
                init_metadata,
                init_output,
                contexts[n + i],
                events[n + i],
                contexts[n + i + 1],
                emissions[n + i],
            ));
        }
        assert(is_pass_trace(
            chain,
            init_metadata,
            init_output,
            first,
            context,
            between,
            early,
            head_contexts,
            head_emissions,
        ));
        assert(is_pass_trace(
            chain,
            init_metadata,
            init_output,
            second,
            between,
            after,
            late,
            tail_contexts,
            tail_emissions,
        ));
        assert(emissions =~= head_emissions + tail_emissions);
        lemma_emitted_outputs_concatenate(head_emissions, tail_emissions);
        assert(pass_relates(chain, init_metadata, init_output, first, context, between, early));
        assert(pass_relates(chain, init_metadata, init_output, second, between, after, late));
    }
    if exists|between: C, early: Seq<O>, late: Seq<O>|
        #![trigger pass_relates(chain, init_metadata, init_output, first, context, between, early), pass_relates(chain, init_metadata, init_output, second, between, after, late)]
        pass_relates(chain, init_metadata, init_output, first, context, between, early)
            && pass_relates(chain, init_metadata, init_output, second, between, after, late)
            && outputs == early + late {
        let (between, early, late) = choose|between: C, early: Seq<O>, late: Seq<O>|
            #![trigger pass_relates(chain, init_metadata, init_output, first, context, between, early), pass_relates(chain, init_metadata, init_output, second, between, after, late)]
            pass_relates(chain, init_metadata, init_output, first, context, between, early)
                && pass_relates(chain, init_metadata, init_output, second, between, after, late)
                && outputs == early + late;
        let (head_contexts, head_emissions) = choose|contexts: Seq<C>, emissions: Seq<Option<O>>|
            is_pass_trace(
                chain,
                init_metadata,
                init_output,
                first,
                context,
                between,
                early,
                contexts,
                emissions,
            );
        let (tail_contexts, tail_emissions) = choose|contexts: Seq<C>, emissions: Seq<Option<O>>|
            is_pass_trace(
                chain,
                init_metadata,
                init_output,
                second,
                between,
                after,
                late,
                contexts,
                emissions,
            );
        let contexts = head_contexts + tail_contexts.drop_first();
        let emissions = head_emissions + tail_emissions;
        assert forall|i: int| 0 <= i < events.len() implies event_relates(
            chain,
            init_metadata,
            init_output,
            contexts[i],
            events[i],
            contexts[i + 1],
            #[trigger] emissions[i],
        ) by {
            if i < n {
                assert(event_relates(
                    chain,
                    init_metadata,
                    init_output,
                    head_contexts[i],
                    first[i],
                    head_contexts[i + 1],
                    head_emissions[i],
                ));
                if i == n - 1 {
                    assert(contexts[i + 1] == tail_contexts[0]);
                }
            } else {
                assert(event_relates(
                    chain,
                    init_metadata,
                    init_output,
                    tail_contexts[i - n],
                    second[i - n],
                    tail_contexts[i - n + 1],
                    tail_emissions[i - n],
                ));
                assert(contexts[i] == tail_contexts[i - n]);
            }
        }
        lemma_emitted_outputs_concatenate(head_emissions, tail_emissions);
        assert(is_pass_trace(
            chain,
            init_metadata,
            init_output,
            events,
            context,
            after,
            outputs,
            contexts,
            emissions,
        ));
    }
}

/// `transform` is a function of the working state: it can leave one
/// state only for each state it is run on.
pub open spec fn is_deterministic<C, M, O, F: Fn(C, M, O) -> (C, M, O)>(transform: F) -> bool {
    forall|before: (C, M, O), one: (C, M, O), other: (C, M, O)|
        #![trigger call_ensures(transform, before, one), call_ensures(transform, before, other)]
        call_ensures(transform, before, one) && call_ensures(transform, before, other) ==> one
            == other
}

/// Every modifier of `chain` has a deterministic transform.
pub open spec fn all_deterministic<C, M, O, P, F: Fn(C, M, O) -> (C, M, O)>(
    chain: Seq<ModifierComponent<P, F>>,
) -> bool {
    forall|i: int|
        0 <= i < chain.len() ==> is_deterministic::<C, M, O, F>(#[trigger] chain[i].modify)
}

/// Both initialisers are functions of the context and the event.
pub open spec fn initialisers_deterministic<E, C, M, O, MI, OI>(
    init_metadata: MI,
    init_output: OI,
) -> bool where MI: Fn(C, &E) -> (C, M), OI: Fn(C, &E) -> (C, Option<O>) {
    &&& forall|context: C, event: &E, one: (C, M), other: (C, M)|
        #![trigger call_ensures(init_metadata, (context, event), one), call_ensures(init_metadata, (context, event), other)]
        call_ensures(init_metadata, (context, event), one) && call_ensures(
            init_metadata,
            (context, event),
            other,
        ) ==> one == other
    &&& forall|context: C, event: &E, one: (C, Option<O>), other: (C, Option<O>)|
        #![trigger call_ensures(init_output, (context, event), one), call_ensures(init_output, (context, event), other)]
        call_ensures(init_output, (context, event), one) && call_ensures(
            init_output,
            (context, event),
            other,
        ) ==> one == other
}

/// Two runs of a chain of deterministic transforms from one state agree
/// on every state up to the `upto`-th.
proof fn lemma_fold_traces_agree<C, M, O, P, F: Fn(C, M, O) -> (C, M, O)>(
    chain: Seq<ModifierComponent<P, F>>,
    before: (C, M, O),
    one: (C, M, O),
    other: (C, M, O),
    first: Seq<(C, M, O)>,
    second: Seq<(C, M, O)>,
    upto: int,
)
    requires
        all_deterministic(chain),
        is_fold_trace(chain, before, one, first),
        is_fold_trace(chain, before, other, second),
        0 <= upto <= chain.len(),
    ensures
        first[upto] == second[upto],
    decreases upto,
{
    if upto > 0 {
        let i = upto - 1;
        lemma_fold_traces_agree(chain, before, one, other, first, second, i);
        assert(call_ensures(chain[i].modify, first[i], first[i + 1]));
        assert(call_ensures(chain[i].modify, second[i], second[i + 1]));
        assert(is_deterministic::<C, M, O, F>(chain[i].modify));
    }
}

/// A chain of deterministic transforms is deterministic.
pub proof fn lemma_chain_is_deterministic<C, M, O, P, F: Fn(C, M, O) -> (C, M, O)>(
    chain: Seq<ModifierComponent<P, F>>,
    before: (C, M, O),
    one: (C, M, O),
    other: (C, M, O),
)
    requires
        all_deterministic(chain),
        fold_relates(chain, before, one),
        fold_relates(chain, before, other),
    ensures
        one == other,
{
    let first = choose|trace: Seq<(C, M, O)>| is_fold_trace(chain, before, one, trace);
    let second = choose|trace: Seq<(C, M, O)>| is_fold_trace(chain, before, other, trace);
    lemma_fold_traces_agree(chain, before, one, other, first, second, chain.len() as int);
}

/// With deterministic initialisers and transforms, an event has one
/// outcome.
pub proof fn lemma_event_is_deterministic<E, C, M, O, P, F, MI, OI>(
    chain: Seq<ModifierComponent<P, F>>,
    init_metadata: MI,
    init_output: OI,
    context: C,
    event: E,
    one: (C, Option<O>),
    other: (C, Option<O>),
) where F: Fn(C, M, O) -> (C, M, O), MI: Fn(C, &E) -> (C, M), OI: Fn(C, &E) -> (C, Option<O>)
    requires
        all_deterministic(chain),
        initialisers_deterministic(init_metadata, init_output),
        event_relates(chain, init_metadata, init_output, context, event, one.0, one.1),
        event_relates(chain, init_metadata, init_output, context, event, other.0, other.1),
    ensures
        one == other,
{
    let (ready1, metadata1, initial1) = choose|ready: C, metadata: M, initial: Option<O>|
        #![trigger initialised(init_metadata, init_output, context, event, ready, metadata, initial)]
        initialised(init_metadata, init_output, context, event, ready, metadata, initial)
            && completes(chain, ready, metadata, initial, one.0, one.1);
    let (ready2, metadata2, initial2) = choose|ready: C, metadata: M, initial: Option<O>|
        #![trigger initialised(init_metadata, init_output, context, event, ready, metadata, initial)]
        initialised(init_metadata, init_output, context, event, ready, metadata, initial)
            && completes(chain, ready, metadata, initial, other.0, other.1);
    let built1 = choose|built: C|
        #![trigger call_ensures(init_metadata, (context, &event), (built, metadata1))]
        call_ensures(init_metadata, (context, &event), (built, metadata1)) && call_ensures(
            init_output,
            (built, &event),
            (ready1, initial1),
        );
    let built2 = choose|built: C|
        #![trigger call_ensures(init_metadata, (context, &event), (built, metadata2))]
        call_ensures(init_metadata, (context, &event), (built, metadata2)) && call_ensures(
            init_output,
            (built, &event),
            (ready2, initial2),
        );
    assert((built1, metadata1) == (built2, metadata2));
    assert((ready1, initial1) == (ready2, initial2));
    if initial1.is_some() {
        let start = (ready1, metadata1, initial1.unwrap());
        let left1 = choose|left: M|
            #![trigger fold_relates(chain, start, (one.0, left, one.1.unwrap()))]
            fold_relates(chain, start, (one.0, left, one.1.unwrap()));
        let left2 = choose|left: M|
            #![trigger fold_relates(chain, start, (other.0, left, other.1.unwrap()))]
            fold_relates(chain, start, (other.0, left, other.1.unwrap()));
        lemma_chain_is_deterministic(
            chain,
            start,
            (one.0, left1, one.1.unwrap()),
            (other.0, left2, other.1.unwrap()),
        );
    }
}

/// Two records of a pass of deterministic steps from one context agree
/// on everything up to the `upto`-th event.
proof fn lemma_pass_traces_agree<E, C, M, O, P, F, MI, OI>(
    chain: Seq<ModifierComponent<P, F>>,
    init_metadata: MI,
    init_output: OI,
    events: Seq<E>,
    context: C,
    one: (C, Seq<O>),
    other: (C, Seq<O>),
    contexts1: Seq<C>,
    emissions1: Seq<Option<O>>,
    contexts2: Seq<C>,
    emissions2: Seq<Option<O>>,
    upto: int,
) where F: Fn(C, M, O) -> (C, M, O), MI: Fn(C, &E) -> (C, M), OI: Fn(C, &E) -> (C, Option<O>)
    requires
        all_deterministic(chain),
        initialisers_deterministic(init_metadata, init_output),
        is_pass_trace(
            chain,
            init_metadata,
            init_output,
            events,
            context,
            one.0,
            one.1,
            contexts1,
            emissions1,
        ),
        is_pass_trace(
            chain,
            init_metadata,
            init_output,
            events,
            context,
            other.0,
            other.1,
            contexts2,
            emissions2,
        ),
        0 <= upto <= events.len(),
    ensures
        contexts1[upto] == contexts2[upto],
        emissions1.take(upto) == emissions2.take(upto),
    decreases upto,
{
    if upto == 0 {
        assert(emissions1.take(upto) =~= emissions2.take(upto));
    } else {
        let i = upto - 1;
        lemma_pass_traces_agree(
            chain,
            init_metadata,
            init_output,
            events,
            context,
            one,
            other,
            contexts1,
            emissions1,
            contexts2,
            emissions2,
            i,
        );
        assert(event_relates(
            chain,
            init_metadata,
            init_output,
            contexts1[i],
            events[i],
            contexts1[i + 1],
            emissions1[i],
        ));
        assert(event_relates(
            chain,
            init_metadata,
            init_output,
            contexts2[i],
            events[i],
            contexts2[i + 1],
            emissions2[i],
        ));
        lemma_event_is_deterministic(
            chain,
            init_metadata,
            init_output,
            contexts1[i],
            events[i],
            (contexts1[i + 1], emissions1[i]),
            (contexts2[i + 1], emissions2[i]),
        );
        assert(emissions1.take(upto) =~= emissions1.take(i).push(emissions1[i]));
        assert(emissions2.take(upto) =~= emissions2.take(i).push(emissions2[i]));
    }
}

/// With deterministic initialisers and transforms, a pass has one
/// outcome.
pub proof fn lemma_pass_is_deterministic<E, C, M, O, P, F, MI, OI>(
    chain: Seq<ModifierComponent<P, F>>,
    init_metadata: MI,
    init_output: OI,
    events: Seq<E>,
    context: C,
    one: (C, Seq<O>),
    other: (C, Seq<O>),
) where F: Fn(C, M, O) -> (C, M, O), MI: Fn(C, &E) -> (C, M), OI: Fn(C, &E) -> (C, Option<O>)
    requires
        all_deterministic(chain),
        initialisers_deterministic(init_metadata, init_output),
        pass_relates(chain, init_metadata, init_output, events, context, one.0, one.1),
        pass_relates(chain, init_metadata, init_output, events, context, other.0, other.1),
    ensures
        one == other,
{
    let (contexts1, emissions1) = choose|contexts: Seq<C>, emissions: Seq<Option<O>>|
        is_pass_trace(
            chain,
            init_metadata,
            init_output,
            events,
            context,
            one.0,
            one.1,
            contexts,
            emissions,
        );
    let (contexts2, emissions2) = choose|contexts: Seq<C>, emissions: Seq<Option<O>>|
        is_pass_trace(
            chain,
            init_metadata,
            init_output,
            events,
            context,
            other.0,
            other.1,
            contexts,
            emissions,
        );
    let n = events.len() as int;
    lemma_pass_traces_agree(
        chain,
        init_metadata,
        init_output,
        events,
        context,
        one,
        other,
        contexts1,
        emissions1,
        contexts2,
        emissions2,
        n,
    );
    assert(emissions1.take(n) =~= emissions1);
    assert(emissions2.take(n) =~= emissions2);
}

/// What a pass emits does not depend on the order in which the modifiers
/// were registered. Take modifiers no two of which tie, with deterministic
/// transforms, registered once as `first` and once, in another order, as
/// `second`. The two registrations run the same chain, so passes from one
/// context over the same events end in the same context with the same
/// outputs.
pub proof fn lemma_outputs_ignore_registration_order<E, C, M, O, P: Ord, F, MI, OI>(
    first: Seq<ModifierComponent<P, F>>,
    second: Seq<ModifierComponent<P, F>>,
    init_metadata: MI,
    init_output: OI,
    events: Seq<E>,
    context: C,
    one: (C, Seq<O>),
    other: (C, Seq<O>),
) where F: Fn(C, M, O) -> (C, M, O), MI: Fn(C, &E) -> (C, M), OI: Fn(C, &E) -> (C, Option<O>)
    requires
        is_total_order::<P>(),
        first.to_multiset() == second.to_multiset(),
        has_distinct_priorities(first),
        all_deterministic(first),
        initialisers_deterministic(init_metadata, init_output),
        pass_relates(
            sorted_by_priority(first),
            init_metadata,
            init_output,
            events,
            context,
            one.0,
            one.1,
        ),
        pass_relates(
            sorted_by_priority(second),
            init_metadata,
            init_output,
            events,
            context,
            other.0,
            other.1,
        ),
    ensures
        sorted_by_priority(first) == sorted_by_priority(second),
        one == other,
{
    lemma_registration_order_is_irrelevant(first, second);
    let chain = sorted_by_priority(first);
    assert forall|i: int| 0 <= i < chain.len() implies is_deterministic::<C, M, O, F>(
        #[trigger] chain[i].modify,
    ) by {
        lemma_sorted_holds_only_registered(first, i);
    }
    lemma_pass_is_deterministic(chain, init_metadata, init_output, events, context, one, other);
}

} // verus!
