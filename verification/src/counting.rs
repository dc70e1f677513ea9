//! Cancellation under an equivalence, counted class by class.
//!
//! Where the comparison is an equivalence, greedy cancellation computes the
//! symmetric difference of two multisets: of each class of equivalent terms,
//! each side keeps as many as it holds more than the other side.

use crate::residue::{
    cancelled, cancels, consumed, first_partner, left_residue, lemma_consumed_len,
    lemma_first_partner, partner, right_residue, unflagged,
};
use vstd::multiset::Multiset;
use vstd::prelude::*;

verus! {

/// `rel` is reflexive, symmetric and transitive.
pub open spec fn equivalence<T>(rel: spec_fn(T, T) -> bool) -> bool {
    &&& forall|a: T| #[trigger] rel(a, a)
    &&& forall|a: T, b: T| #[trigger] rel(a, b) ==> rel(b, a)
    &&& forall|a: T, b: T, c: T| #[trigger] rel(a, b) && #[trigger] rel(b, c) ==> rel(a, c)
}

/// The relation that holds of a term and itself only.
pub open spec fn identical<T>() -> spec_fn(T, T) -> bool {
    |a: T, b: T| a == b
}

/// How many of the first `k` terms of `s` are equivalent to `v`.
pub open spec fn occurrences<T>(rel: spec_fn(T, T) -> bool, s: Seq<T>, v: T, k: nat) -> nat
    decreases k,
{
    if k == 0 {
        0
    } else if rel(s[k - 1], v) {
        occurrences(rel, s, v, (k - 1) as nat) + 1
    } else {
        occurrences(rel, s, v, (k - 1) as nat)
    }
}

/// How many terms of `s` are equivalent to `v`.
pub open spec fn count<T>(rel: spec_fn(T, T) -> bool, s: Seq<T>, v: T) -> nat {
    occurrences(rel, s, v, s.len())
}

/// How many of the first `k` terms of `s` are equivalent to `v` and flagged.
pub open spec fn flagged_occurrences<T>(
    rel: spec_fn(T, T) -> bool,
    s: Seq<T>,
    flags: Seq<bool>,
    v: T,
    k: nat,
) -> nat
    decreases k,
{
    if k == 0 {
        0
    } else if flags[k - 1] && rel(s[k - 1], v) {
        flagged_occurrences(rel, s, flags, v, (k - 1) as nat) + 1
    } else {
        flagged_occurrences(rel, s, flags, v, (k - 1) as nat)
    }
}

/// The count over the first `k` terms looks at those terms only.
pub proof fn lemma_occurrences_prefix<T>(
    rel: spec_fn(T, T) -> bool,
    s: Seq<T>,
    t: Seq<T>,
    v: T,
    k: nat,
)
    requires
        k <= s.len(),
        k <= t.len(),
        forall|i: int| 0 <= i < k ==> s[i] == t[i],
    ensures
        occurrences(rel, s, v, k) == occurrences(rel, t, v, k),
    decreases k,
{
    if k > 0 {
        lemma_occurrences_prefix(rel, s, t, v, (k - 1) as nat);
    }
}

/// Of the terms equivalent to `v`, each is kept or flagged.
pub proof fn lemma_unflagged_occurrences<T>(
    rel: spec_fn(T, T) -> bool,
    s: Seq<T>,
    flags: Seq<bool>,
    v: T,
    k: nat,
)
    ensures
        count(rel, unflagged(s, flags, k), v) + flagged_occurrences(rel, s, flags, v, k)
            == occurrences(rel, s, v, k),
    decreases k,
{
    if k > 0 {
        let before = unflagged(s, flags, (k - 1) as nat);
        lemma_unflagged_occurrences(rel, s, flags, v, (k - 1) as nat);
        if !flags[k - 1] {
            let after = before.push(s[k - 1]);
            lemma_occurrences_prefix(rel, after, before, v, before.len());
        }
    }
}

/// Setting the flag of a term that had none adds one to the flagged count of
/// its class, where the count reaches the term.
pub proof fn lemma_flagged_occurrences_update<T>(
    rel: spec_fn(T, T) -> bool,
    s: Seq<T>,
    flags: Seq<bool>,
    j: int,
    v: T,
    k: nat,
)
    requires
        0 <= j < flags.len(),
        !flags[j],
        k <= flags.len(),
    ensures
        flagged_occurrences(rel, s, flags.update(j, true), v, k) == flagged_occurrences(
            rel,
            s,
            flags,
            v,
            k,
        ) + if j < k && rel(s[j], v) {
            1nat
        } else {
            0nat
        },
    decreases k,
{
    if k > 0 {
        lemma_flagged_occurrences_update(rel, s, flags, j, v, (k - 1) as nat);
    }
}

/// A term equivalent to `v` is without a flag exactly where fewer are
/// flagged than there are.
pub proof fn lemma_unflagged_exists<T>(
    rel: spec_fn(T, T) -> bool,
    s: Seq<T>,
    flags: Seq<bool>,
    v: T,
    k: nat,
)
    ensures
        flagged_occurrences(rel, s, flags, v, k) <= occurrences(rel, s, v, k),
        flagged_occurrences(rel, s, flags, v, k) < occurrences(rel, s, v, k) <==> exists|j: int|
            0 <= j < k && !flags[j] && rel(s[j], v),
    decreases k,
{
    if k > 0 {
        lemma_unflagged_exists(rel, s, flags, v, (k - 1) as nat);
        if flagged_occurrences(rel, s, flags, v, (k - 1) as nat) < occurrences(
            rel,
            s,
            v,
            (k - 1) as nat,
        ) {
            let j = choose|j: int| 0 <= j < k - 1 && !flags[j] && rel(s[j], v);
            assert(0 <= j < k && !flags[j] && rel(s[j], v));
        } else if !flags[k - 1] && rel(s[k - 1], v) {
            assert(0 <= k - 1 < k && !flags[k - 1] && rel(s[k - 1], v));
        }
    }
}

/// Of each class, as many slots of `right` are consumed as the class has
/// terms among the first `k` of `left`, up to what `right` holds of it.
pub proof fn lemma_consumed_occurrences<T>(
    rel: spec_fn(T, T) -> bool,
    left: Seq<T>,
    right: Seq<T>,
    v: T,
    k: nat,
)
    requires
        equivalence(rel),
        k <= left.len(),
    ensures
        flagged_occurrences(rel, right, consumed(rel, left, right, k), v, right.len())
            == if occurrences(rel, left, v, k) <= count(rel, right, v) {
            occurrences(rel, left, v, k)
        } else {
            count(rel, right, v)
        },
    decreases k,
{
    if k == 0 {
        let none = Seq::new(right.len(), |j: int| false);
        lemma_unflagged_exists(rel, right, none, v, right.len());
        lemma_none_flagged(rel, right, none, v, right.len());
    } else {
        let l = left[k - 1];
        let before = consumed(rel, left, right, (k - 1) as nat);
        let j = first_partner(rel, l, right, before, 0);
        lemma_consumed_occurrences(rel, left, right, v, (k - 1) as nat);
        lemma_consumed_len(rel, left, right, (k - 1) as nat);
        lemma_first_partner(rel, l, right, before, 0);
        lemma_unflagged_exists(rel, right, before, v, right.len());
        if j < right.len() {
            lemma_flagged_occurrences_update(rel, right, before, j, v, right.len());
            assert(partner(rel, l, right, before, j));
            if rel(l, v) {
                assert(rel(right[j], l));
                assert(rel(right[j], v));
            } else if rel(right[j], v) {
                assert(rel(l, v));
            }
        } else if rel(l, v) {
            if exists|i: int| 0 <= i < right.len() && !before[i] && rel(right[i], v) {
                let i = choose|i: int| 0 <= i < right.len() && !before[i] && rel(right[i], v);
                assert(rel(v, right[i]));
                assert(rel(l, right[i]));
                assert(partner(rel, l, right, before, i));
            }
        }
    }
}

/// Where no flag is set, no term is flagged.
pub proof fn lemma_none_flagged<T>(
    rel: spec_fn(T, T) -> bool,
    s: Seq<T>,
    flags: Seq<bool>,
    v: T,
    k: nat,
)
    requires
        forall|j: int| 0 <= j < k ==> !flags[j],
    ensures
        flagged_occurrences(rel, s, flags, v, k) == 0,
    decreases k,
{
    if k > 0 {
        lemma_none_flagged(rel, s, flags, v, (k - 1) as nat);
    }
}

/// Of each class, as many terms of `left` cancel as slots of `right` are
/// consumed.
pub proof fn lemma_cancelled_occurrences<T>(
    rel: spec_fn(T, T) -> bool,
    left: Seq<T>,
    right: Seq<T>,
    v: T,
    k: nat,
)
    requires
        equivalence(rel),
        k <= left.len(),
    ensures
        flagged_occurrences(rel, left, cancelled(rel, left, right), v, k) == flagged_occurrences(
            rel,
            right,
            consumed(rel, left, right, k),
            v,
            right.len(),
        ),
    decreases k,
{
    if k == 0 {
        let none = Seq::new(right.len(), |j: int| false);
        lemma_none_flagged(rel, right, none, v, right.len());
    } else {
        let l = left[k - 1];
        let before = consumed(rel, left, right, (k - 1) as nat);
        let j = first_partner(rel, l, right, before, 0);
        lemma_cancelled_occurrences(rel, left, right, v, (k - 1) as nat);
        lemma_consumed_len(rel, left, right, (k - 1) as nat);
        lemma_first_partner(rel, l, right, before, 0);
        assert(cancelled(rel, left, right)[k - 1] == cancels(rel, left, right, k - 1));
        if j < right.len() {
            lemma_flagged_occurrences_update(rel, right, before, j, v, right.len());
            assert(partner(rel, l, right, before, j));
            if rel(l, v) {
                assert(rel(right[j], l));
                assert(rel(right[j], v));
            } else if rel(right[j], v) {
                assert(rel(l, v));
            }
        }
    }
}

/// Under an equivalence, each side keeps of each class as many terms as it
/// holds more than the other side.
pub proof fn law_difference_counts<T>(rel: spec_fn(T, T) -> bool, left: Seq<T>, right: Seq<T>, v: T)
    requires
        equivalence(rel),
    ensures
        count(rel, left_residue(rel, left, right), v) == if count(rel, left, v) >= count(
            rel,
            right,
            v,
        ) {
            count(rel, left, v) - count(rel, right, v)
        } else {
            0
        },
        count(rel, right_residue(rel, left, right), v) == if count(rel, right, v) >= count(
            rel,
            left,
            v,
        ) {
            count(rel, right, v) - count(rel, left, v)
        } else {
            0
        },
{
    lemma_unflagged_occurrences(rel, left, cancelled(rel, left, right), v, left.len());
    lemma_unflagged_occurrences(
        rel,
        right,
        consumed(rel, left, right, left.len()),
        v,
        right.len(),
    );
    lemma_consumed_occurrences(rel, left, right, v, left.len());
    lemma_cancelled_occurrences(rel, left, right, v, left.len());
}

/// Counting the terms identical to `v` counts `v` in the multiset.
pub proof fn lemma_occurrences_multiset<T>(s: Seq<T>, v: T, k: nat)
    requires
        k <= s.len(),
    ensures
        occurrences(identical::<T>(), s, v, k) == s.take(k as int).to_multiset().count(v),
    decreases k,
{
    broadcast use vstd::multiset::group_multiset_axioms;

    if k == 0 {
        assert(s.take(0) =~= Seq::<T>::empty());
        assert(s.take(0).to_multiset() =~= Multiset::<T>::empty()) by {
            s.take(0).to_multiset_ensures();
        }
    } else {
        lemma_occurrences_multiset(s, v, (k - 1) as nat);
        let before = s.take(k - 1);
        assert(s.take(k as int) =~= before.push(s[k - 1]));
        before.to_multiset_ensures();
    }
}

/// Where terms cancel only against themselves, the residues are the two
/// differences of the multisets.
pub proof fn law_difference_multisets<T>(left: Seq<T>, right: Seq<T>)
    ensures
        left_residue(identical::<T>(), left, right).to_multiset() == left.to_multiset().sub(
            right.to_multiset(),
        ),
        right_residue(identical::<T>(), left, right).to_multiset() == right.to_multiset().sub(
            left.to_multiset(),
        ),
{
    broadcast use vstd::multiset::group_multiset_axioms;

    let rel = identical::<T>();
    let kept = left_residue(rel, left, right);
    let rest = right_residue(rel, left, right);
    assert(left.take(left.len() as int) =~= left);
    assert(right.take(right.len() as int) =~= right);
    assert(kept.take(kept.len() as int) =~= kept);
    assert(rest.take(rest.len() as int) =~= rest);
    assert forall|v: T|
        kept.to_multiset().count(v) == left.to_multiset().sub(right.to_multiset()).count(v)
            && rest.to_multiset().count(v) == right.to_multiset().sub(left.to_multiset()).count(
            v,
        ) by {
        law_difference_counts(rel, left, right, v);
        lemma_occurrences_multiset(left, v, left.len());
        lemma_occurrences_multiset(right, v, right.len());
        lemma_occurrences_multiset(kept, v, kept.len());
        lemma_occurrences_multiset(rest, v, rest.len());
    }
    assert(kept.to_multiset() =~= left.to_multiset().sub(right.to_multiset()));
    assert(rest.to_multiset() =~= right.to_multiset().sub(left.to_multiset()));
}

} // verus!
