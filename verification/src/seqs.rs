//! Small sequence lemmas shared by the parsing and bucketing proofs.

use vstd::prelude::*;

verus! {

/// Filtering a sequence extended by one element keeps the old filtered
/// sequence, with the new element appended exactly when it matches.
pub proof fn lemma_filter_push<A>(s: Seq<A>, pred: spec_fn(A) -> bool, x: A)
    ensures
        s.push(x).filter(pred) == if pred(x) {
            s.filter(pred).push(x)
        } else {
            s.filter(pred)
        },
{
    reveal_with_fuel(Seq::filter, 2);
    assert(s.push(x) =~= s + seq![x]);
    Seq::filter_distributes_over_add(s, seq![x], pred);
    assert(seq![x].drop_last() =~= Seq::<A>::empty());
    if pred(x) {
        assert(s.filter(pred) + seq![x].filter(pred) =~= s.filter(pred).push(x));
    } else {
        assert(s.filter(pred) + seq![x].filter(pred) =~= s.filter(pred));
    }
}

/// Filtering keeps nothing when no element matches.
pub proof fn lemma_filter_empty<A>(s: Seq<A>, pred: spec_fn(A) -> bool)
    requires
        forall|i: int| 0 <= i < s.len() ==> !pred(s[i]),
    ensures
        s.filter(pred) == Seq::<A>::empty(),
    decreases s.len(),
{
    reveal_with_fuel(Seq::filter, 2);
    if s.len() > 0 {
        assert(forall|i: int| 0 <= i < s.drop_last().len() ==> !pred(s.drop_last()[i]));
        lemma_filter_empty(s.drop_last(), pred);
        assert(!pred(s.last()));
    }
}

} // verus!
