//! Marking the elements of a vector and dropping those that are marked.

use vstd::prelude::*;

verus! {

/// How many entries of `flags` are not set.
pub open spec fn count_unset(flags: Seq<bool>) -> nat
    decreases flags.len(),
{
    if flags.len() == 0 {
        0
    } else {
        count_unset(flags.drop_last()) + if flags.last() {
            0nat
        } else {
            1nat
        }
    }
}

/// Setting an entry that was not set leaves one entry less unset.
pub proof fn lemma_count_unset_set(flags: Seq<bool>, i: int)
    requires
        0 <= i < flags.len(),
        !flags[i],
    ensures
        count_unset(flags.update(i, true)) + 1 == count_unset(flags),
    decreases flags.len(),
{
    let new = flags.update(i, true);
    if i == flags.len() - 1 {
        assert(new.drop_last() =~= flags.drop_last());
    } else {
        assert(new.drop_last() =~= flags.drop_last().update(i, true));
        lemma_count_unset_set(flags.drop_last(), i);
    }
}

/// The elements of `s` whose flag is not set, in order.
pub open spec fn unflagged<T>(s: Seq<T>, flags: Seq<bool>) -> Seq<T>
    decreases s.len(),
{
    if s.len() == 0 || flags.len() == 0 {
        Seq::empty()
    } else if flags[0] {
        unflagged(s.drop_first(), flags.drop_first())
    } else {
        seq![s[0]] + unflagged(s.drop_first(), flags.drop_first())
    }
}

/// Where a flag is set exactly for the elements that `pred` turns down,
/// what is left unflagged is what `pred` lets through.
pub proof fn lemma_unflagged_is_filter<T>(s: Seq<T>, flags: Seq<bool>, pred: spec_fn(T) -> bool)
    requires
        s.len() == flags.len(),
        forall|i: int| 0 <= i < s.len() ==> flags[i] == !pred(#[trigger] s[i]),
    ensures
        unflagged(s, flags) == s.filter(pred),
    decreases s.len(),
{
    reveal(Seq::filter);
    if s.len() == 0 {
        assert(s.filter(pred) =~= Seq::<T>::empty());
    } else {
        let rest = s.drop_first();
        assert forall|i: int| 0 <= i < rest.len() implies flags.drop_first()[i] == !pred(
            #[trigger] rest[i],
        ) by {
            assert(rest[i] == s[i + 1]);
        }
        lemma_unflagged_is_filter(rest, flags.drop_first(), pred);
        let head = seq![s[0]];
        assert(s =~= head + rest);
        Seq::filter_distributes_over_add(head, rest, pred);
        assert(head.drop_last() =~= Seq::<T>::empty());
        assert(head.drop_last().filter(pred) =~= Seq::<T>::empty());
        if pred(s[0]) {
            assert(head.filter(pred) =~= head);
        } else {
            assert(head.filter(pred) =~= Seq::<T>::empty());
            assert(Seq::<T>::empty() + rest.filter(pred) =~= rest.filter(pred));
        }
    }
}

/// Takes out of `v` every element whose flag is set and keeps the others in
/// their order.
pub fn drop_flagged<T>(v: &mut Vec<T>, flags: &Vec<bool>)
    requires
        flags.len() == old(v).len(),
    ensures
        final(v)@ == unflagged(old(v)@, flags@),
{
    let ghost s0 = v@;
    let mut i: usize = v.len();
    assert(s0.skip(i as int).len() == 0);
    assert(v@ =~= s0.take(i as int) + unflagged(s0.skip(i as int), flags@.skip(i as int)));
    while i > 0
        invariant
            i <= s0.len(),
            flags.len() == s0.len(),
            v@ == s0.take(i as int) + unflagged(s0.skip(i as int), flags@.skip(i as int)),
        decreases i,
    {
        i -= 1;
        let ghost tail = unflagged(s0.skip(i + 1), flags@.skip(i + 1));
        proof {
            assert(s0.skip(i as int).drop_first() =~= s0.skip(i + 1));
            assert(flags@.skip(i as int).drop_first() =~= flags@.skip(i + 1));
            assert(s0.skip(i as int)[0] == s0[i as int]);
            assert(flags@.skip(i as int)[0] == flags@[i as int]);
            assert(v@.len() == i + 1 + tail.len());
        }
        if flags[i] {
            v.remove(i);
            assert(v@ =~= s0.take(i as int) + tail);
        } else {
            assert(v@ =~= s0.take(i as int) + (seq![s0[i as int]] + tail));
        }
    }
    assert(s0.skip(0) =~= s0);
    assert(flags@.skip(0) =~= flags@);
    assert(s0.take(0) + unflagged(s0, flags@) =~= unflagged(s0, flags@));
}

/// A relation that holds of every two elements of `s` in their order holds
/// of every two elements that `pred` lets through.
pub proof fn lemma_filter_pairwise<T>(
    s: Seq<T>,
    pred: spec_fn(T) -> bool,
    rel: spec_fn(T, T) -> bool,
)
    requires
        forall|i: int, j: int| 0 <= i < j < s.len() ==> rel(#[trigger] s[i], #[trigger] s[j]),
    ensures
        forall|i: int, j: int|
            0 <= i < j < s.filter(pred).len() ==> rel(
                #[trigger] s.filter(pred)[i],
                #[trigger] s.filter(pred)[j],
            ),
    decreases s.len(),
{
    reveal(Seq::filter);
    if s.len() > 0 {
        let init = s.drop_last();
        assert forall|i: int, j: int| 0 <= i < j < init.len() implies rel(
            #[trigger] init[i],
            #[trigger] init[j],
        ) by {
            assert(init[i] == s[i] && init[j] == s[j]);
        }
        lemma_filter_pairwise(init, pred, rel);
        let f = s.filter(pred);
        let g = init.filter(pred);
        assert forall|i: int, j: int| 0 <= i < j < f.len() implies rel(
            #[trigger] f[i],
            #[trigger] f[j],
        ) by {
            if j < g.len() {
                assert(f[i] == g[i] && f[j] == g[j]);
            } else {
                assert(f[i] == g[i]);
                assert(g.contains(g[i]));
                init.lemma_filter_contains_rev(pred, g[i]);
                let k = choose|k: int| 0 <= k < init.len() && init[k] == g[i];
                assert(s[k] == g[i]);
                assert(f[j] == s[s.len() - 1]);
            }
        }
    }
}

/// What `pred` lets through is what is in `s` and meets `pred`.
pub proof fn lemma_filter_members<T>(s: Seq<T>, pred: spec_fn(T) -> bool)
    ensures
        forall|x: T| #[trigger] s.filter(pred).contains(x) ==> s.contains(x) && pred(x),
        forall|x: T| #[trigger] s.contains(x) && pred(x) ==> s.filter(pred).contains(x),
{
    assert forall|x: T| #[trigger] s.filter(pred).contains(x) implies s.contains(x) && pred(x) by {
        s.lemma_filter_contains_rev(pred, x);
        let i = choose|i: int| 0 <= i < s.filter(pred).len() && s.filter(pred)[i] == x;
        s.lemma_filter_pred(pred, i);
    }
    assert forall|x: T| #[trigger] s.contains(x) && pred(x) implies s.filter(pred).contains(x) by {
        let i = choose|i: int| 0 <= i < s.len() && s[i] == x;
        s.lemma_filter_contains(pred, i);
    }
}

/// Where no entry is set, all are unset.
pub proof fn lemma_count_unset_all(flags: Seq<bool>)
    requires
        forall|i: int| 0 <= i < flags.len() ==> !flags[i],
    ensures
        count_unset(flags) == flags.len(),
    decreases flags.len(),
{
    if flags.len() > 0 {
        lemma_count_unset_all(flags.drop_last());
    }
}

/// Where every entry is set, none is unset.
pub proof fn lemma_count_unset_none(flags: Seq<bool>)
    requires
        forall|i: int| 0 <= i < flags.len() ==> flags[i],
    ensures
        count_unset(flags) == 0,
    decreases flags.len(),
{
    if flags.len() > 0 {
        lemma_count_unset_none(flags.drop_last());
    }
}

} // verus!
