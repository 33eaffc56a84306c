//! The order that priorities impose on modifiers.
//!
//! A priority is any `Ord` type. Everything the pipeline proves about
//! execution order rests on `is_total_order`, which says that the type's
//! comparison is a total order up to ties and that `Ord::cmp` computes it.

use core::cmp::Ordering;
use vstd::prelude::*;
use vstd::std_specs::cmp::OrdSpec;
use vstd::std_specs::cmp::PartialOrdSpec;

verus! {

/// `a` runs strictly before `b`.
pub open spec fn precedes<P: Ord>(a: P, b: P) -> bool {
    a.cmp_spec(&b) == Ordering::Less
}

/// `a` and `b` have the same rank.
pub open spec fn ties<P: Ord>(a: P, b: P) -> bool {
    a.cmp_spec(&b) == Ordering::Equal
}

/// `a` does not run after `b`: it precedes `b` or ties with it.
pub open spec fn at_most<P: Ord>(a: P, b: P) -> bool {
    a.cmp_spec(&b) != Ordering::Greater
}

/// The comparison of `P` is a total order up to ties, and `Ord::cmp`
/// computes it.
pub open spec fn is_total_order<P: Ord>() -> bool {
    &&& P::obeys_cmp_spec()
    &&& forall|a: P| #[trigger] ties(a, a)
    &&& forall|a: P, b: P|
        #![trigger precedes(a, b)]
        #![trigger at_most(b, a)]
        precedes(a, b) <==> !at_most(b, a)
    &&& forall|a: P, b: P, c: P| #[trigger]
        at_most(a, b) && #[trigger] at_most(b, c) ==> at_most(a, c)
}

/// Any type whose comparison obeys the laws that `vstd` states for `Ord`
/// is totally ordered in the sense of `is_total_order`.
pub proof fn lemma_lawful_ord_is_total_order<P: Ord>()
    requires
        vstd::laws_cmp::obeys_cmp::<P>(),
    ensures
        is_total_order::<P>(),
{
    reveal(vstd::laws_cmp::obeys_cmp_partial_ord);
    reveal(vstd::laws_cmp::obeys_cmp_ord);
    reveal(vstd::laws_cmp::obeys_partial_cmp_spec_properties);
    reveal(vstd::laws_eq::obeys_eq_spec_properties);
    assert forall|a: P| #[trigger] ties(a, a) by {
        // `a` cannot precede itself: the mirrored comparison would have to
        // be both `Less` and `Greater`.
        assert(a.partial_cmp_spec(&a) == Some(a.cmp_spec(&a)));
    }
    assert forall|a: P, b: P|
        #![trigger precedes(a, b)]
        #![trigger at_most(b, a)]
        precedes(a, b) <==> !at_most(b, a) by {
        assert(a.partial_cmp_spec(&b) == Some(a.cmp_spec(&b)));
        assert(b.partial_cmp_spec(&a) == Some(b.cmp_spec(&a)));
    }
    assert forall|a: P, b: P, c: P| #[trigger]
        at_most(a, b) && #[trigger] at_most(b, c) implies at_most(a, c) by {
        assert(a.partial_cmp_spec(&b) == Some(a.cmp_spec(&b)));
        assert(b.partial_cmp_spec(&c) == Some(b.cmp_spec(&c)));
        assert(a.partial_cmp_spec(&c) == Some(a.cmp_spec(&c)));
        assert(c.partial_cmp_spec(&a) == Some(c.cmp_spec(&a)));
        assert(c.partial_cmp_spec(&b) == Some(c.cmp_spec(&b)));
        assert(b.partial_cmp_spec(&a) == Some(b.cmp_spec(&a)));
    }
}

/// Tells whether `a` runs strictly before `b`.
pub fn comes_before<P: Ord>(a: &P, b: &P) -> (r: bool)
    requires
        is_total_order::<P>(),
    ensures
        r == precedes(*a, *b),
{
    match a.cmp(b) {
        Ordering::Less => true,
        _ => false,
    }
}

} // verus!
