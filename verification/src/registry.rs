//! The modifier registry: what is registered, and the order it runs in.

use crate::modifier::ModifierComponent;
use crate::order::at_most;
use crate::order::comes_before;
use crate::order::is_total_order;
use crate::order::precedes;
use crate::order::ties;
use vstd::prelude::*;

verus! {

/// Whether `chain` lists its modifiers in ascending order of priority.
pub open spec fn is_ascending<P: Ord, F>(chain: Seq<ModifierComponent<P, F>>) -> bool {
    forall|i: int, j: int|
        #![trigger chain[i], chain[j]]
        0 <= i < j < chain.len() ==> at_most(chain[i].priority, chain[j].priority)
}

/// `chain` with `modifier` put behind every modifier that does not run
/// after it: behind those of lower priority and behind those it ties with.
pub open spec fn insert_by_priority<P: Ord, F>(
    chain: Seq<ModifierComponent<P, F>>,
    modifier: ModifierComponent<P, F>,
) -> Seq<ModifierComponent<P, F>>
    decreases chain.len(),
{
    if chain.len() == 0 || at_most(chain.last().priority, modifier.priority) {
        chain.push(modifier)
    } else {
        insert_by_priority(chain.drop_last(), modifier).push(chain.last())
    }
}

/// The order in which the modifiers `registered` run: ascending by
/// priority, and among modifiers that tie, in the order of registration.
pub open spec fn sorted_by_priority<P: Ord, F>(
    registered: Seq<ModifierComponent<P, F>>,
) -> Seq<ModifierComponent<P, F>>
    decreases registered.len(),
{
    if registered.len() == 0 {
        Seq::empty()
    } else {
        insert_by_priority(sorted_by_priority(registered.drop_last()), registered.last())
    }
}

/// The modifiers that a sequence of references points at.
pub open spec fn referents<P, F>(
    chain: Seq<&ModifierComponent<P, F>>,
) -> Seq<ModifierComponent<P, F>> {
    chain.map_values(|m: &ModifierComponent<P, F>| *m)
}

/// The modifiers of `chain` that tie with `priority`, in the order in
/// which they stand in `chain`.
pub open spec fn tied_with<P: Ord, F>(
    chain: Seq<ModifierComponent<P, F>>,
    priority: P,
) -> Seq<ModifierComponent<P, F>> {
    chain.filter(|m: ModifierComponent<P, F>| ties(m.priority, priority))
}

/// No two modifiers of `chain` tie.
pub open spec fn has_distinct_priorities<P: Ord, F>(chain: Seq<ModifierComponent<P, F>>) -> bool {
    forall|i: int, j: int|
        #![trigger chain[i], chain[j]]
        0 <= i < chain.len() && 0 <= j < chain.len() && i != j ==> !ties(
            chain[i].priority,
            chain[j].priority,
        )
}

/// The modifiers registered for one kind of pipeline, in the order in
/// which they were registered.
pub struct ModifierRegistry<Priority, Transform> {
    modifiers: Vec<ModifierComponent<Priority, Transform>>,
}

impl<Priority, Transform> View for ModifierRegistry<Priority, Transform> {
    type V = Seq<ModifierComponent<Priority, Transform>>;

    closed spec fn view(&self) -> Seq<ModifierComponent<Priority, Transform>> {
        self.modifiers@
    }
}

impl<Priority, Transform> ModifierRegistry<Priority, Transform> {
    /// A registry with nothing registered.
    pub fn new() -> (r: Self)
        ensures
            r@ == Seq::<ModifierComponent<Priority, Transform>>::empty(),
    {
        ModifierRegistry { modifiers: Vec::new() }
    }

    /// Adds `modifier`. Priorities need not be unique: modifiers that tie
    /// are all kept and all run.
    pub fn register(&mut self, modifier: ModifierComponent<Priority, Transform>)
        ensures
            final(self)@ == old(self)@.push(modifier),
    {
        self.modifiers.push(modifier);
    }

    /// How many modifiers are registered.
    pub fn len(&self) -> (r: usize)
        ensures
            r == self@.len(),
    {
        self.modifiers.len()
    }

    /// Whether nothing is registered.
    pub fn is_empty(&self) -> (r: bool)
        ensures
            r == (self@.len() == 0),
    {
        self.modifiers.len() == 0
    }

    /// All registered modifiers in the order in which they run: ascending
    /// by priority, ties in the order of registration.
    pub fn snapshot_sorted(&self) -> (r: Vec<&ModifierComponent<Priority, Transform>>) where
        Priority: Ord,

        requires
            is_total_order::<Priority>(),
        ensures
            referents(r@) == sorted_by_priority(self@),
            is_ascending(referents(r@)),
            referents(r@).to_multiset() == self@.to_multiset(),
            r@.len() == self@.len(),
    {
        let mut sorted: Vec<&ModifierComponent<Priority, Transform>> = Vec::new();
        let mut i: usize = 0;
        assert(referents(sorted@) =~= sorted_by_priority(self@.take(0)));
        while i < self.modifiers.len()
            invariant
                is_total_order::<Priority>(),
                i <= self@.len(),
                referents(sorted@) == sorted_by_priority(self@.take(i as int)),
            decreases self@.len() - i,
        {
            let next = &self.modifiers[i];
            let mut at: usize = sorted.len();
            while at > 0 && comes_before(&next.priority, &sorted[at - 1].priority)
                invariant
                    is_total_order::<Priority>(),
                    at <= sorted@.len(),
                    forall|k: int|
                        at <= k < sorted@.len() ==> precedes(
                            next.priority,
                            #[trigger] referents(sorted@)[k].priority,
                        ),
                decreases at,
            {
                at = at - 1;
            }
            proof {
                let before = referents(sorted@);
                lemma_insert_position(before, *next, at as int);
                assert(referents(sorted@.insert(at as int, next)) =~= before.insert(at as int, *next));
                assert(self@.take(i + 1).drop_last() =~= self@.take(i as int));
                assert(self@.take(i + 1).last() == *next);
            }
            sorted.insert(at, next);
            i = i + 1;
        }
        proof {
            assert(self@.take(i as int) =~= self@);
            lemma_sorted_is_ascending(self@);
            lemma_sorted_is_permutation(self@);
        }
        sorted
    }
}

/// Inserting by priority puts the modifier at the one position `at` that
/// has only later-running modifiers behind it and none of them before it.
proof fn lemma_insert_position<P: Ord, F>(
    chain: Seq<ModifierComponent<P, F>>,
    modifier: ModifierComponent<P, F>,
    at: int,
)
    requires
        is_total_order::<P>(),
        0 <= at <= chain.len(),
        forall|k: int| at <= k < chain.len() ==> precedes(modifier.priority, #[trigger] chain[k].priority),
        at > 0 ==> !precedes(modifier.priority, chain[at - 1].priority),
    ensures
        insert_by_priority(chain, modifier) == chain.insert(at, modifier),
    decreases chain.len() - at,
{
    if at == chain.len() {
        if chain.len() > 0 {
            assert(at_most(chain.last().priority, modifier.priority));
        }
        assert(chain.push(modifier) =~= chain.insert(at, modifier));
    } else {
        assert(precedes(modifier.priority, chain.last().priority));
        assert(!at_most(chain.last().priority, modifier.priority));
        let front = chain.drop_last();
        assert forall|k: int| at <= k < front.len() implies precedes(
            modifier.priority,
            #[trigger] front[k].priority,
        ) by {
            assert(front[k] == chain[k]);
        }
        lemma_insert_position(front, modifier, at);
        assert(front.insert(at, modifier).push(chain.last()) =~= chain.insert(at, modifier));
    }
}

/// Inserting by priority adds the modifier and nothing else.
pub proof fn lemma_insert_adds_one<P: Ord, F>(
    chain: Seq<ModifierComponent<P, F>>,
    modifier: ModifierComponent<P, F>,
)
    ensures
        insert_by_priority(chain, modifier).to_multiset() == chain.to_multiset().insert(modifier),
        insert_by_priority(chain, modifier).len() == chain.len() + 1,
    decreases chain.len(),
{
    broadcast use vstd::seq_lib::group_to_multiset_ensures;

    if chain.len() == 0 || at_most(chain.last().priority, modifier.priority) {
    } else {
        let front = chain.drop_last();
        lemma_insert_adds_one(front, modifier);
        assert(chain =~= front.push(chain.last()));
        assert(front.to_multiset().insert(modifier).insert(chain.last())
            =~= front.to_multiset().insert(chain.last()).insert(modifier));
    }
}

/// The sorted order holds exactly the registered modifiers, each as often
/// as it was registered.
pub proof fn lemma_sorted_is_permutation<P: Ord, F>(registered: Seq<ModifierComponent<P, F>>)
    ensures
        sorted_by_priority(registered).to_multiset() == registered.to_multiset(),
        sorted_by_priority(registered).len() == registered.len(),
    decreases registered.len(),
{
    broadcast use vstd::seq_lib::group_to_multiset_ensures;

    if registered.len() == 0 {
        assert(registered =~= Seq::empty());
    } else {
        let front = registered.drop_last();
        lemma_sorted_is_permutation(front);
        lemma_insert_adds_one(sorted_by_priority(front), registered.last());
        assert(registered =~= front.push(registered.last()));
    }
}

/// Every modifier of the sorted order is one of the registered modifiers.
pub proof fn lemma_sorted_holds_only_registered<P: Ord, F>(
    registered: Seq<ModifierComponent<P, F>>,
    i: int,
)
    requires
        0 <= i < sorted_by_priority(registered).len(),
    ensures
        registered.contains(sorted_by_priority(registered)[i]),
{
    lemma_sorted_is_permutation(registered);
    let sorted = sorted_by_priority(registered);
    assert(sorted.contains(sorted[i]));
    vstd::seq_lib::to_multiset_contains(sorted, sorted[i]);
    vstd::seq_lib::to_multiset_contains(registered, sorted[i]);
}

/// Inserting by priority into an ascending chain leaves it ascending.
pub proof fn lemma_insert_keeps_ascending<P: Ord, F>(
    chain: Seq<ModifierComponent<P, F>>,
    modifier: ModifierComponent<P, F>,
)
    requires
        is_total_order::<P>(),
        is_ascending(chain),
    ensures
        is_ascending(insert_by_priority(chain, modifier)),
    decreases chain.len(),
{
    let result = insert_by_priority(chain, modifier);
    if chain.len() == 0 || at_most(chain.last().priority, modifier.priority) {
        assert forall|i: int, j: int| 0 <= i < j < result.len() implies at_most(
            result[i].priority,
            result[j].priority,
        ) by {
            if j == chain.len() && i < chain.len() - 1 {
                assert(at_most(chain[i].priority, chain[chain.len() - 1].priority));
            }
        }
    } else {
        let front = chain.drop_last();
        assert forall|i: int, j: int| 0 <= i < j < front.len() implies at_most(
            front[i].priority,
            front[j].priority,
        ) by {
            assert(at_most(chain[i].priority, chain[j].priority));
        }
        lemma_insert_keeps_ascending(front, modifier);
        lemma_insert_adds_one(front, modifier);
        let inner = insert_by_priority(front, modifier);
        // Everything in `inner` is `modifier` or comes from `front`, and
        // neither runs after the last modifier of `chain`.
        assert forall|i: int| 0 <= i < inner.len() implies at_most(
            #[trigger] inner[i].priority,
            chain.last().priority,
        ) by {
            lemma_insert_holds_only_old_and_new(front, modifier, i);
            if inner[i] != modifier {
                let k = choose|k: int| 0 <= k < front.len() && front[k] == inner[i];
                assert(at_most(chain[k].priority, chain[chain.len() - 1].priority));
            }
        }
        assert forall|i: int, j: int| 0 <= i < j < result.len() implies at_most(
            result[i].priority,
            result[j].priority,
        ) by {
            if j < inner.len() {
                assert(at_most(inner[i].priority, inner[j].priority));
            }
        }
    }
}

/// What stands in a chain after an insertion is the new modifier or stood
/// in the chain before.
pub proof fn lemma_insert_holds_only_old_and_new<P: Ord, F>(
    chain: Seq<ModifierComponent<P, F>>,
    modifier: ModifierComponent<P, F>,
    i: int,
)
    requires
        0 <= i < insert_by_priority(chain, modifier).len(),
    ensures
        insert_by_priority(chain, modifier)[i] == modifier || chain.contains(
            insert_by_priority(chain, modifier)[i],
        ),
{
    lemma_insert_adds_one(chain, modifier);
    let result = insert_by_priority(chain, modifier);
    assert(result.contains(result[i]));
    vstd::seq_lib::to_multiset_contains(result, result[i]);
    vstd::seq_lib::to_multiset_contains(chain, result[i]);
}

/// The sorted order is ascending by priority.
pub proof fn lemma_sorted_is_ascending<P: Ord, F>(registered: Seq<ModifierComponent<P, F>>)
    requires
        is_total_order::<P>(),
    ensures
        is_ascending(sorted_by_priority(registered)),
    decreases registered.len(),
{
    if registered.len() > 0 {
        lemma_sorted_is_ascending(registered.drop_last());
        lemma_insert_keeps_ascending(
            sorted_by_priority(registered.drop_last()),
            registered.last(),
        );
    }
}

/// Inserting by priority puts a modifier behind all those it ties with,
/// and moves no other modifier.
pub proof fn lemma_insert_goes_behind_ties<P: Ord, F>(
    chain: Seq<ModifierComponent<P, F>>,
    modifier: ModifierComponent<P, F>,
    priority: P,
)
    requires
        is_total_order::<P>(),
    ensures
        tied_with(insert_by_priority(chain, modifier), priority) == if ties(
            modifier.priority,
            priority,
        ) {
            tied_with(chain, priority).push(modifier)
        } else {
            tied_with(chain, priority)
        },
    decreases chain.len(),
{
    reveal(Seq::filter);
    if chain.len() == 0 || at_most(chain.last().priority, modifier.priority) {
        assert(chain.push(modifier).drop_last() =~= chain);
    } else {
        let front = chain.drop_last();
        let inner = insert_by_priority(front, modifier);
        lemma_insert_goes_behind_ties(front, modifier, priority);
        assert(inner.push(chain.last()).drop_last() =~= inner);
        if ties(modifier.priority, priority) && ties(chain.last().priority, priority) {
            // Both tie with `priority`, so neither runs before the other.
            assert(at_most(chain.last().priority, priority));
            assert(precedes(modifier.priority, priority) <==> !at_most(
                priority,
                modifier.priority,
            ));
            assert(at_most(priority, modifier.priority));
            assert(at_most(chain.last().priority, modifier.priority));
        }
    }
}

/// Modifiers that tie run in the order in which they were registered.
pub proof fn lemma_ties_run_in_registration_order<P: Ord, F>(
    registered: Seq<ModifierComponent<P, F>>,
    priority: P,
)
    requires
        is_total_order::<P>(),
    ensures
        tied_with(sorted_by_priority(registered), priority) == tied_with(registered, priority),
    decreases registered.len(),
{
    reveal(Seq::filter);
    if registered.len() > 0 {
        lemma_ties_run_in_registration_order(registered.drop_last(), priority);
        lemma_insert_goes_behind_ties(
            sorted_by_priority(registered.drop_last()),
            registered.last(),
            priority,
        );
    }
}

/// Where no two modifiers tie, none do after they are rearranged.
pub proof fn lemma_rearranging_keeps_priorities_distinct<P: Ord, F>(
    first: Seq<ModifierComponent<P, F>>,
    second: Seq<ModifierComponent<P, F>>,
)
    requires
        is_total_order::<P>(),
        first.to_multiset() == second.to_multiset(),
        has_distinct_priorities(first),
    ensures
        has_distinct_priorities(second),
{
    assert forall|i: int, j: int|
        0 <= i < first.len() && 0 <= j < first.len() && i != j implies first[i] != first[j] by {
        assert(ties(first[i].priority, first[i].priority));
    }
    first.lemma_multiset_has_no_duplicates();
    second.lemma_multiset_has_no_duplicates_conv();
    assert forall|i: int, j: int|
        0 <= i < second.len() && 0 <= j < second.len() && i != j implies !ties(
        second[i].priority,
        second[j].priority,
    ) by {
        assert(second.contains(second[i]));
        assert(second.contains(second[j]));
        vstd::seq_lib::to_multiset_contains(second, second[i]);
        vstd::seq_lib::to_multiset_contains(second, second[j]);
        vstd::seq_lib::to_multiset_contains(first, second[i]);
        vstd::seq_lib::to_multiset_contains(first, second[j]);
        let k = choose|k: int| 0 <= k < first.len() && first[k] == second[i];
        let l = choose|l: int| 0 <= l < first.len() && first[l] == second[j];
        assert(!ties(first[k].priority, first[l].priority));
    }
}

/// Two ascending chains of the same modifiers, no two of which tie, are
/// the same chain.
pub proof fn lemma_ascending_order_is_unique<P: Ord, F>(
    first: Seq<ModifierComponent<P, F>>,
    second: Seq<ModifierComponent<P, F>>,
)
    requires
        is_total_order::<P>(),
        first.to_multiset() == second.to_multiset(),
        has_distinct_priorities(first),
        is_ascending(first),
        is_ascending(second),
    ensures
        first == second,
    decreases first.len(),
{
    vstd::seq_lib::to_multiset_len(first);
    vstd::seq_lib::to_multiset_len(second);
    if first.len() == 0 {
        assert(first =~= second);
    } else {
        lemma_rearranging_keeps_priorities_distinct(first, second);
        let last = first.len() - 1;
        let x = first[last];
        let y = second[last];
        assert(first.contains(x));
        assert(second.contains(y));
        vstd::seq_lib::to_multiset_contains(first, x);
        vstd::seq_lib::to_multiset_contains(second, x);
        vstd::seq_lib::to_multiset_contains(first, y);
        vstd::seq_lib::to_multiset_contains(second, y);
        let k = choose|k: int| 0 <= k < second.len() && second[k] == x;
        let m = choose|m: int| 0 <= m < first.len() && first[m] == y;
        assert(at_most(x.priority, y.priority)) by {
            assert(ties(y.priority, y.priority));
            if k < last {
                assert(at_most(second[k].priority, second[last].priority));
            }
        }
        assert(at_most(y.priority, x.priority)) by {
            assert(ties(x.priority, x.priority));
            if m < last {
                assert(at_most(first[m].priority, first[last].priority));
            }
        }
        assert(ties(x.priority, y.priority)) by {
            assert(precedes(x.priority, y.priority) <==> !at_most(y.priority, x.priority));
        }
        if m != last {
            assert(!ties(first[last].priority, first[m].priority));
        }
        assert(x == y);
        let front_first = first.drop_last();
        let front_second = second.drop_last();
        assert(front_first =~= first.remove(last));
        assert(front_second =~= second.remove(last));
        vstd::seq_lib::to_multiset_remove(first, last);
        vstd::seq_lib::to_multiset_remove(second, last);
        assert forall|i: int, j: int|
            0 <= i < front_first.len() && 0 <= j < front_first.len() && i != j implies !ties(
            front_first[i].priority,
            front_first[j].priority,
        ) by {
            assert(!ties(first[i].priority, first[j].priority));
        }
        assert forall|i: int, j: int| 0 <= i < j < front_first.len() implies at_most(
            front_first[i].priority,
            front_first[j].priority,
        ) by {
            assert(at_most(first[i].priority, first[j].priority));
        }
        assert forall|i: int, j: int| 0 <= i < j < front_second.len() implies at_most(
            front_second[i].priority,
            front_second[j].priority,
        ) by {
            assert(at_most(second[i].priority, second[j].priority));
        }
        lemma_ascending_order_is_unique(front_first, front_second);
        assert(first =~= front_first.push(x));
        assert(second =~= front_second.push(y));
    }
}

/// The order in which modifiers run does not depend on the order in which
/// they were registered: where no two of them tie, any two registrations
/// of the same modifiers are sorted into the same chain.
pub proof fn lemma_registration_order_is_irrelevant<P: Ord, F>(
    first: Seq<ModifierComponent<P, F>>,
    second: Seq<ModifierComponent<P, F>>,
)
    requires
        is_total_order::<P>(),
        first.to_multiset() == second.to_multiset(),
        has_distinct_priorities(first),
    ensures
        sorted_by_priority(first) == sorted_by_priority(second),
{
    lemma_sorted_is_permutation(first);
    lemma_sorted_is_permutation(second);
    lemma_sorted_is_ascending(first);
    lemma_sorted_is_ascending(second);
    lemma_rearranging_keeps_priorities_distinct(first, sorted_by_priority(first));
    lemma_ascending_order_is_unique(sorted_by_priority(first), sorted_by_priority(second));
}


} // verus!
