//! Facts about sequences that loops over vectors lean on.

use vstd::prelude::*;

verus! {

/// Filtering one element more: the filtered prefix grows by the element
/// where the element passes, and stays as it is where it does not.
pub proof fn lemma_filter_step<A>(s: Seq<A>, pred: spec_fn(A) -> bool, i: int)
    requires
        0 <= i < s.len(),
    ensures
        s.subrange(0, i + 1).filter(pred) == if pred(s[i]) {
            s.subrange(0, i).filter(pred).push(s[i])
        } else {
            s.subrange(0, i).filter(pred)
        },
{
    reveal(Seq::filter);
    assert(s.subrange(0, i + 1).drop_last() =~= s.subrange(0, i));
    assert(s.subrange(0, i + 1).last() == s[i]);
}

/// Nothing passes a filter from an empty sequence.
pub proof fn lemma_filter_empty<A>(s: Seq<A>, pred: spec_fn(A) -> bool)
    requires
        s.len() == 0,
    ensures
        s.filter(pred) == s,
{
    reveal(Seq::filter);
}

/// A filtered sequence holds exactly the elements that pass, in the order
/// in which they stood: positions in it map to rising positions in the
/// sequence it came from.
pub proof fn lemma_filter_keeps_order<A>(s: Seq<A>, pred: spec_fn(A) -> bool)
    ensures
        exists|at: Seq<int>|
            #![trigger at.len()]
            {
                &&& at.len() == s.filter(pred).len()
                &&& forall|k: int| 0 <= k < at.len() ==> 0 <= #[trigger] at[k] < s.len()
                &&& forall|k: int| 0 <= k < at.len() ==> s.filter(pred)[k] == s[#[trigger] at[k]]
                &&& forall|k: int, l: int| 0 <= k < l < at.len() ==> at[k] < at[l]
                &&& forall|j: int|
                    0 <= j < s.len() && pred(#[trigger] s[j]) ==> exists|k: int|
                        0 <= k < at.len() && #[trigger] at[k] == j
            },
    decreases s.len(),
{
    reveal(Seq::filter);
    if s.len() == 0 {
        let at = Seq::<int>::empty();
        assert(at.len() == s.filter(pred).len());
    } else {
        let front = s.drop_last();
        lemma_filter_keeps_order(front, pred);
        let at0 = choose|at: Seq<int>|
            #![trigger at.len()]
            {
                &&& at.len() == front.filter(pred).len()
                &&& forall|k: int| 0 <= k < at.len() ==> 0 <= #[trigger] at[k] < front.len()
                &&& forall|k: int|
                    0 <= k < at.len() ==> front.filter(pred)[k] == front[#[trigger] at[k]]
                &&& forall|k: int, l: int| 0 <= k < l < at.len() ==> at[k] < at[l]
                &&& forall|j: int|
                    0 <= j < front.len() && pred(#[trigger] front[j]) ==> exists|k: int|
                        0 <= k < at.len() && #[trigger] at[k] == j
            };
        let at = if pred(s.last()) {
            at0.push(s.len() - 1)
        } else {
            at0
        };
        assert(at.len() == s.filter(pred).len());
        assert forall|j: int| 0 <= j < s.len() && pred(#[trigger] s[j]) implies exists|k: int|
            0 <= k < at.len() && #[trigger] at[k] == j by {
            if j < s.len() - 1 {
                assert(front[j] == s[j]);
                let k = choose|k: int| 0 <= k < at0.len() && #[trigger] at0[k] == j;
                assert(at[k] == j);
            } else {
                assert(at[at.len() - 1] == j);
            }
        }
        assert forall|k: int| 0 <= k < at.len() implies s.filter(pred)[k] == s[#[trigger] at[k]] by {
            if k < at0.len() {
                assert(at[k] == at0[k]);
                assert(front[at0[k]] == s[at0[k]]);
            }
        }
        assert forall|k: int, l: int| 0 <= k < l < at.len() implies at[k] < at[l] by {
            if l < at0.len() {
                assert(at0[k] < at0[l]);
            } else {
                assert(at[k] == at0[k]);
                assert(0 <= at0[k] < front.len());
            }
        }
    }
}

/// What a filter keeps was there, and passes.
pub proof fn lemma_filter_member<A>(s: Seq<A>, pred: spec_fn(A) -> bool, k: int)
    requires
        0 <= k < s.filter(pred).len(),
    ensures
        pred(s.filter(pred)[k]),
        exists|j: int| 0 <= j < s.len() && #[trigger] s[j] == s.filter(pred)[k],
    decreases s.len(),
{
    reveal(Seq::filter);
    if s.len() > 0 {
        let front = s.drop_last();
        if k < front.filter(pred).len() {
            lemma_filter_member(front, pred, k);
            let j = choose|j: int| 0 <= j < front.len() && #[trigger] front[j] == front.filter(pred)[k];
            assert(s[j] == front[j]);
        } else {
            assert(s[s.len() - 1] == s.filter(pred)[k]);
        }
    }
}

/// What passes a filter is kept.
pub proof fn lemma_filter_keeps<A>(s: Seq<A>, pred: spec_fn(A) -> bool, j: int)
    requires
        0 <= j < s.len(),
        pred(s[j]),
    ensures
        exists|k: int| 0 <= k < s.filter(pred).len() && #[trigger] s.filter(pred)[k] == s[j],
    decreases s.len(),
{
    reveal(Seq::filter);
    let front = s.drop_last();
    if j < s.len() - 1 {
        lemma_filter_keeps(front, pred, j);
        let k = choose|k: int| 0 <= k < front.filter(pred).len() && #[trigger] front.filter(pred)[k] == front[j];
        assert(s.filter(pred)[k] == s[j]);
    } else {
        assert(s.filter(pred)[s.filter(pred).len() - 1] == s[j]);
    }
}

/// A filter that drops something leaves less than there was.
pub proof fn lemma_filter_drops<A>(s: Seq<A>, pred: spec_fn(A) -> bool, j: int)
    requires
        0 <= j < s.len(),
        !pred(s[j]),
    ensures
        s.filter(pred).len() < s.len(),
    decreases s.len(),
{
    reveal(Seq::filter);
    let front = s.drop_last();
    front.lemma_filter_len(pred);
    if j < s.len() - 1 {
        lemma_filter_drops(front, pred, j);
    }
}

/// Filtering twice, the second time by something that passes the first
/// filter anyway, is filtering by the second alone.
pub proof fn lemma_filter_twice<A>(s: Seq<A>, first: spec_fn(A) -> bool, second: spec_fn(A) -> bool)
    requires
        forall|j: int| 0 <= j < s.len() && second(#[trigger] s[j]) ==> first(s[j]),
    ensures
        s.filter(first).filter(second) == s.filter(second),
    decreases s.len(),
{
    reveal(Seq::filter);
    if s.len() > 0 {
        let front = s.drop_last();
        assert forall|j: int| 0 <= j < front.len() && second(#[trigger] front[j]) implies first(
            front[j],
        ) by {
            assert(front[j] == s[j]);
        }
        lemma_filter_twice(front, first, second);
        if first(s.last()) {
            let kept = front.filter(first).push(s.last());
            assert(kept.drop_last() =~= front.filter(first));
            assert(kept.last() == s.last());
        }
    }
}

/// A filter that lets one element pass, and only at one place, leaves that
/// element alone.
pub proof fn lemma_filter_single<A>(s: Seq<A>, pred: spec_fn(A) -> bool, i: int)
    requires
        0 <= i < s.len(),
        pred(s[i]),
        forall|j: int| 0 <= j < s.len() && j != i ==> !pred(#[trigger] s[j]),
    ensures
        s.filter(pred) == seq![s[i]],
    decreases s.len(),
{
    reveal(Seq::filter);
    let front = s.drop_last();
    if i == s.len() - 1 {
        assert forall|j: int| 0 <= j < front.len() implies !pred(#[trigger] front[j]) by {
            assert(front[j] == s[j]);
        }
        lemma_filter_none(front, pred);
        assert(front.filter(pred).push(s[i]) =~= seq![s[i]]);
    } else {
        assert forall|j: int| 0 <= j < front.len() && j != i implies !pred(#[trigger] front[j]) by {
            assert(front[j] == s[j]);
        }
        assert(front[i] == s[i]);
        lemma_filter_single(front, pred, i);
        assert(!pred(s[s.len() - 1]));
    }
}

/// A filter that lets nothing pass leaves nothing.
pub proof fn lemma_filter_none<A>(s: Seq<A>, pred: spec_fn(A) -> bool)
    requires
        forall|j: int| 0 <= j < s.len() ==> !pred(#[trigger] s[j]),
    ensures
        s.filter(pred).len() == 0,
    decreases s.len(),
{
    reveal(Seq::filter);
    if s.len() > 0 {
        let front = s.drop_last();
        assert forall|j: int| 0 <= j < front.len() implies !pred(#[trigger] front[j]) by {
            assert(front[j] == s[j]);
        }
        lemma_filter_none(front, pred);
        assert(!pred(s[s.len() - 1]));
    }
}

/// A filter that lets everything pass, followed by a change that changes
/// nothing, leaves a sequence as it is.
pub proof fn lemma_filter_map_nothing<A>(s: Seq<A>, keep: spec_fn(A) -> bool, change: spec_fn(A) -> A)
    requires
        forall|j: int| 0 <= j < s.len() ==> keep(#[trigger] s[j]) && change(s[j]) == s[j],
    ensures
        s.filter(keep).map_values(change) == s,
    decreases s.len(),
{
    reveal(Seq::filter);
    if s.len() > 0 {
        let front = s.drop_last();
        assert forall|j: int| 0 <= j < front.len() implies keep(#[trigger] front[j]) && change(
            front[j],
        ) == front[j] by {
            assert(front[j] == s[j]);
        }
        lemma_filter_map_nothing(front, keep, change);
        assert(keep(s[s.len() - 1]) && change(s[s.len() - 1]) == s[s.len() - 1]);
        assert(s.filter(keep) == front.filter(keep).push(s.last()));
        assert(s.filter(keep).map_values(change) =~= front.filter(keep).map_values(change).push(
            change(s.last()),
        ));
        assert(front.push(s.last()) =~= s);
    }
}

/// Filtering and changing twice over is filtering and changing once: by
/// what passes both filters, the second taken after the first change, and
/// with both changes one after the other.
pub proof fn lemma_filter_map_twice<A>(
    s: Seq<A>,
    keep: spec_fn(A) -> bool,
    change: spec_fn(A) -> A,
    keep_next: spec_fn(A) -> bool,
    change_next: spec_fn(A) -> A,
    keep_both: spec_fn(A) -> bool,
    change_both: spec_fn(A) -> A,
)
    requires
        forall|j: int|
            0 <= j < s.len() ==> (keep(#[trigger] s[j]) && keep_next(change(s[j]))) == keep_both(
                s[j],
            ),
        forall|j: int|
            0 <= j < s.len() && keep_both(#[trigger] s[j]) ==> change_next(change(s[j]))
                == change_both(s[j]),
    ensures
        s.filter(keep).map_values(change).filter(keep_next).map_values(change_next) == s.filter(
            keep_both,
        ).map_values(change_both),
    decreases s.len(),
{
    reveal(Seq::filter);
    if s.len() == 0 {
        assert(s.filter(keep).map_values(change) =~= Seq::<A>::empty());
        assert(s.filter(keep).map_values(change).filter(keep_next).map_values(change_next)
            =~= Seq::<A>::empty());
        assert(s.filter(keep_both).map_values(change_both) =~= Seq::<A>::empty());
    } else {
        let front = s.drop_last();
        let last = s.last();
        assert forall|j: int| 0 <= j < front.len() implies (keep(#[trigger] front[j]) && keep_next(
            change(front[j]),
        )) == keep_both(front[j]) by {
            assert(front[j] == s[j]);
        }
        assert forall|j: int| 0 <= j < front.len() && keep_both(
            #[trigger] front[j],
        ) implies change_next(change(front[j])) == change_both(front[j]) by {
            assert(front[j] == s[j]);
        }
        lemma_filter_map_twice(
            front,
            keep,
            change,
            keep_next,
            change_next,
            keep_both,
            change_both,
        );
        assert(s[s.len() - 1] == last);
        let once_front = front.filter(keep).map_values(change);
        let twice_front = once_front.filter(keep_next);
        if keep(last) {
            let once = once_front.push(change(last));
            assert(s.filter(keep).map_values(change) =~= once);
            assert(once.drop_last() =~= once_front);
            assert(once.last() == change(last));
            if keep_next(change(last)) {
                assert(once.filter(keep_next) == twice_front.push(change(last)));
                assert(once.filter(keep_next).map_values(change_next) =~= twice_front.map_values(
                    change_next,
                ).push(change_next(change(last))));
                assert(s.filter(keep_both).map_values(change_both) =~= front.filter(
                    keep_both,
                ).map_values(change_both).push(change_both(last)));
            } else {
                assert(once.filter(keep_next) == twice_front);
            }
        } else {
            assert(s.filter(keep) == front.filter(keep));
        }
    }
}

/// A filter lets two elements pass where two elements at different places
/// pass, and only then.
pub proof fn lemma_filter_two<A>(s: Seq<A>, pred: spec_fn(A) -> bool)
    ensures
        s.filter(pred).len() >= 2 <==> exists|a: int, b: int|
            0 <= a < b < s.len() && pred(#[trigger] s[a]) && pred(#[trigger] s[b]),
    decreases s.len(),
{
    reveal(Seq::filter);
    if s.len() > 0 {
        let front = s.drop_last();
        lemma_filter_two(front, pred);
        if front.filter(pred).len() >= 2 {
            let (a, b) = choose|a: int, b: int|
                0 <= a < b < front.len() && pred(#[trigger] front[a]) && pred(
                    #[trigger] front[b],
                );
            assert(pred(s[a]) && pred(s[b]));
        } else if pred(s.last()) && front.filter(pred).len() == 1 {
            lemma_filter_member(front, pred, 0);
            let a = choose|a: int| 0 <= a < front.len() && #[trigger] front[a] == front.filter(
                pred,
            )[0];
            assert(pred(s[a]) && pred(s[s.len() - 1]));
        }
        if exists|a: int, b: int|
            0 <= a < b < s.len() && pred(#[trigger] s[a]) && pred(#[trigger] s[b]) {
            let (a, b) = choose|a: int, b: int|
                0 <= a < b < s.len() && pred(#[trigger] s[a]) && pred(#[trigger] s[b]);
            if b < s.len() - 1 {
                assert(pred(front[a]) && pred(front[b]));
            } else {
                assert(front[a] == s[a]);
                lemma_filter_keeps(front, pred, a);
            }
        }
    }
}

} // verus!
