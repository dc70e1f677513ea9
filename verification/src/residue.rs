//! The mathematical model of cancellation between two sequences of terms.
//!
//! Terms are compared by a relation `rel`, which need be neither symmetric
//! nor transitive. Cancellation is greedy: the terms of the left sequence
//! are taken in order, and each one consumes the first slot of the right
//! sequence that is still free and that `rel` pairs it with.

use vstd::prelude::*;
use vstd::std_specs::cmp::PartialEqSpec;

verus! {

/// The relation that the native equality of `T` computes.
pub open spec fn native<T: PartialEq>() -> spec_fn(T, T) -> bool {
    |a: T, b: T| a.eq_spec(&b)
}

/// `eq` may be asked about every pair of terms.
pub open spec fn total<T, F: FnMut(&T, &T) -> bool>(eq: F) -> bool {
    forall|a: &T, b: &T| call_requires(eq, (a, b))
}

/// Every answer that `eq` can give is the one that `rel` gives.
pub open spec fn decides<T, F: FnMut(&T, &T) -> bool>(eq: F, rel: spec_fn(T, T) -> bool) -> bool {
    forall|a: &T, b: &T, r: bool| #[trigger] call_ensures(eq, (a, b), r) ==> r == rel(*a, *b)
}

/// Slot `j` of `right` is free and `rel` pairs `l` with the term in it.
pub open spec fn partner<T>(
    rel: spec_fn(T, T) -> bool,
    l: T,
    right: Seq<T>,
    used: Seq<bool>,
    j: int,
) -> bool {
    0 <= j < right.len() && !used[j] && rel(l, right[j])
}

/// The first partner of `l` among the slots `from..`, or `right.len()` where
/// there is none.
pub open spec fn first_partner<T>(
    rel: spec_fn(T, T) -> bool,
    l: T,
    right: Seq<T>,
    used: Seq<bool>,
    from: int,
) -> int
    decreases right.len() - from,
{
    if from < 0 || from >= right.len() {
        right.len() as int
    } else if partner(rel, l, right, used, from) {
        from
    } else {
        first_partner(rel, l, right, used, from + 1)
    }
}

/// The slots of `right` consumed once the first `k` terms of `left` have
/// been taken.
pub open spec fn consumed<T>(
    rel: spec_fn(T, T) -> bool,
    left: Seq<T>,
    right: Seq<T>,
    k: nat,
) -> Seq<bool>
    decreases k,
{
    if k == 0 {
        Seq::new(right.len(), |j: int| false)
    } else {
        let before = consumed(rel, left, right, (k - 1) as nat);
        let j = first_partner(rel, left[k - 1], right, before, 0);
        if j < right.len() {
            before.update(j, true)
        } else {
            before
        }
    }
}

/// Term `k` of `left` finds a partner when its turn comes, and so cancels.
pub open spec fn cancels<T>(rel: spec_fn(T, T) -> bool, left: Seq<T>, right: Seq<T>, k: int) -> bool {
    first_partner(rel, left[k], right, consumed(rel, left, right, k as nat), 0) < right.len()
}

/// The terms among the first `k` of `s` whose flag is not set, in order.
pub open spec fn unflagged<T>(s: Seq<T>, flags: Seq<bool>, k: nat) -> Seq<T>
    decreases k,
{
    if k == 0 {
        Seq::empty()
    } else {
        let before = unflagged(s, flags, (k - 1) as nat);
        if flags[k - 1] {
            before
        } else {
            before.push(s[k - 1])
        }
    }
}

/// For each term of `left`, whether it cancels.
pub open spec fn cancelled<T>(rel: spec_fn(T, T) -> bool, left: Seq<T>, right: Seq<T>) -> Seq<bool> {
    Seq::new(left.len(), |k: int| cancels(rel, left, right, k))
}

/// The terms of `left` that find no partner in `right`, in order.
pub open spec fn left_residue<T>(rel: spec_fn(T, T) -> bool, left: Seq<T>, right: Seq<T>) -> Seq<T> {
    unflagged(left, cancelled(rel, left, right), left.len())
}

/// The terms of `right` that no term of `left` consumes, in order.
pub open spec fn right_residue<T>(rel: spec_fn(T, T) -> bool, left: Seq<T>, right: Seq<T>) -> Seq<T> {
    unflagged(right, consumed(rel, left, right, left.len()), right.len())
}

/// Some term of `left` is paired by `rel` with some term of `right`.
pub open spec fn intersects<T>(rel: spec_fn(T, T) -> bool, left: Seq<T>, right: Seq<T>) -> bool {
    exists|i: int, j: int|
        0 <= i < left.len() && 0 <= j < right.len() && #[trigger] rel(left[i], right[j])
}

/// `first_partner` is the least partner from `from` on.
pub proof fn lemma_first_partner<T>(
    rel: spec_fn(T, T) -> bool,
    l: T,
    right: Seq<T>,
    used: Seq<bool>,
    from: int,
)
    requires
        0 <= from <= right.len(),
    ensures
        from <= first_partner(rel, l, right, used, from) <= right.len(),
        first_partner(rel, l, right, used, from) < right.len() ==> partner(
            rel,
            l,
            right,
            used,
            first_partner(rel, l, right, used, from),
        ),
        forall|j: int|
            from <= j < first_partner(rel, l, right, used, from) ==> !partner(
                rel,
                l,
                right,
                used,
                j,
            ),
    decreases right.len() - from,
{
    if from < right.len() && !partner(rel, l, right, used, from) {
        lemma_first_partner(rel, l, right, used, from + 1);
    }
}

/// The flags of consumption are one for each slot of `right`.
pub proof fn lemma_consumed_len<T>(rel: spec_fn(T, T) -> bool, left: Seq<T>, right: Seq<T>, k: nat)
    ensures
        consumed(rel, left, right, k).len() == right.len(),
    decreases k,
{
    if k > 0 {
        let before = consumed(rel, left, right, (k - 1) as nat);
        lemma_consumed_len(rel, left, right, (k - 1) as nat);
        lemma_first_partner(rel, left[k - 1], right, before, 0);
    }
}

/// The number of flags that are set among the first `k`.
pub open spec fn flagged(flags: Seq<bool>, k: nat) -> nat
    decreases k,
{
    if k == 0 {
        0
    } else if flags[k - 1] {
        flagged(flags, (k - 1) as nat) + 1
    } else {
        flagged(flags, (k - 1) as nat)
    }
}

/// Each of the first `k` terms is either kept or flagged.
pub proof fn lemma_unflagged_len<T>(s: Seq<T>, flags: Seq<bool>, k: nat)
    ensures
        unflagged(s, flags, k).len() + flagged(flags, k) == k,
    decreases k,
{
    if k > 0 {
        lemma_unflagged_len(s, flags, (k - 1) as nat);
    }
}

/// Where no flag is set, every term is kept.
pub proof fn lemma_unflagged_none<T>(s: Seq<T>, flags: Seq<bool>, k: nat)
    requires
        k <= s.len(),
        forall|j: int| 0 <= j < k ==> !flags[j],
    ensures
        unflagged(s, flags, k) == s.take(k as int),
    decreases k,
{
    if k > 0 {
        lemma_unflagged_none(s, flags, (k - 1) as nat);
        assert(s.take(k as int) =~= s.take(k - 1).push(s[k - 1]));
    } else {
        assert(s.take(0) =~= Seq::<T>::empty());
    }
}

/// What is kept comes from the terms whose flag is not set.
pub proof fn lemma_unflagged_members<T>(s: Seq<T>, flags: Seq<bool>, k: nat)
    ensures
        forall|i: int|
            0 <= i < unflagged(s, flags, k).len() ==> exists|j: int|
                0 <= j < k && !flags[j] && s[j] == #[trigger] unflagged(s, flags, k)[i],
    decreases k,
{
    if k > 0 {
        let before = unflagged(s, flags, (k - 1) as nat);
        lemma_unflagged_members(s, flags, (k - 1) as nat);
        assert forall|i: int| 0 <= i < unflagged(s, flags, k).len() implies exists|j: int|
            0 <= j < k && !flags[j] && s[j] == #[trigger] unflagged(s, flags, k)[i] by {
            if i < before.len() {
                let j = choose|j: int| 0 <= j < k - 1 && !flags[j] && s[j] == before[i];
                assert(0 <= j < k && !flags[j] && s[j] == unflagged(s, flags, k)[i]);
            } else {
                assert(!flags[k - 1] && s[k - 1] == unflagged(s, flags, k)[i]);
            }
        }
    }
}

/// Setting a flag that was not set adds one to the count, where the count
/// reaches it.
pub proof fn lemma_flagged_update(flags: Seq<bool>, j: int, k: nat)
    requires
        0 <= j < flags.len(),
        !flags[j],
        k <= flags.len(),
    ensures
        flagged(flags.update(j, true), k) == flagged(flags, k) + if j < k {
            1nat
        } else {
            0nat
        },
    decreases k,
{
    if k > 0 {
        lemma_flagged_update(flags, j, (k - 1) as nat);
    }
}

/// A flag is set among the first `k` exactly where the count is not 0.
pub proof fn lemma_flagged_positive(flags: Seq<bool>, k: nat)
    ensures
        flagged(flags, k) > 0 <==> exists|j: int| 0 <= j < k && flags[j],
    decreases k,
{
    if k > 0 {
        lemma_flagged_positive(flags, (k - 1) as nat);
        if flagged(flags, (k - 1) as nat) > 0 {
            let j = choose|j: int| 0 <= j < k - 1 && flags[j];
            assert(0 <= j < k && flags[j]);
        } else if flags[k - 1] {
            assert(0 <= k - 1 < k && flags[k - 1]);
        }
    }
}

/// As many slots of `right` are consumed as terms of `left` cancel.
pub proof fn lemma_consumed_count<T>(rel: spec_fn(T, T) -> bool, left: Seq<T>, right: Seq<T>, k: nat)
    requires
        k <= left.len(),
    ensures
        flagged(consumed(rel, left, right, k), right.len()) == flagged(
            cancelled(rel, left, right),
            k,
        ),
    decreases k,
{
    if k == 0 {
        let none = Seq::new(right.len(), |j: int| false);
        lemma_flagged_positive(none, right.len());
    } else {
        let before = consumed(rel, left, right, (k - 1) as nat);
        let j = first_partner(rel, left[k - 1], right, before, 0);
        lemma_consumed_count(rel, left, right, (k - 1) as nat);
        lemma_consumed_len(rel, left, right, (k - 1) as nat);
        lemma_first_partner(rel, left[k - 1], right, before, 0);
        assert(cancelled(rel, left, right)[k - 1] == cancels(rel, left, right, k - 1));
        if j < right.len() {
            lemma_flagged_update(before, j, right.len());
        }
    }
}

/// While no term of `left` has cancelled, every slot of `right` is free.
pub proof fn lemma_untouched<T>(rel: spec_fn(T, T) -> bool, left: Seq<T>, right: Seq<T>, k: nat)
    requires
        k <= left.len(),
        forall|i: int| 0 <= i < k ==> !cancels(rel, left, right, i),
    ensures
        consumed(rel, left, right, k) == Seq::new(right.len(), |j: int| false),
    decreases k,
{
    if k > 0 {
        lemma_untouched(rel, left, right, (k - 1) as nat);
        assert(!cancels(rel, left, right, k - 1));
    }
}

/// Against nothing, nothing cancels: the left residue of `left` is `left`,
/// and the right residue is empty.
pub proof fn law_empty_right<T>(rel: spec_fn(T, T) -> bool, left: Seq<T>)
    ensures
        left_residue(rel, left, Seq::empty()) == left,
        right_residue(rel, left, Seq::empty()) == Seq::<T>::empty(),
{
    let right = Seq::<T>::empty();
    lemma_unflagged_none(left, cancelled(rel, left, right), left.len());
    assert(left.take(left.len() as int) =~= left);
}

/// With nothing on the left, nothing cancels: the left residue is empty,
/// and the right residue of `right` is `right`.
pub proof fn law_empty_left<T>(rel: spec_fn(T, T) -> bool, right: Seq<T>)
    ensures
        left_residue(rel, Seq::empty(), right) == Seq::<T>::empty(),
        right_residue(rel, Seq::empty(), right) == right,
{
    let left = Seq::<T>::empty();
    lemma_unflagged_none(right, consumed(rel, left, right, 0), right.len());
    assert(right.take(right.len() as int) =~= right);
}

/// Cancellation removes as many terms from one side as from the other.
pub proof fn law_balance<T>(rel: spec_fn(T, T) -> bool, left: Seq<T>, right: Seq<T>)
    ensures
        left_residue(rel, left, right).len() <= left.len(),
        right_residue(rel, left, right).len() <= right.len(),
        left.len() - left_residue(rel, left, right).len() == right.len() - right_residue(
            rel,
            left,
            right,
        ).len(),
{
    lemma_unflagged_len(left, cancelled(rel, left, right), left.len());
    lemma_unflagged_len(right, consumed(rel, left, right, left.len()), right.len());
    lemma_consumed_count(rel, left, right, left.len());
}

/// Every term of a residue is a term of the side that it is left of.
pub proof fn law_residue_members<T>(rel: spec_fn(T, T) -> bool, left: Seq<T>, right: Seq<T>)
    ensures
        forall|i: int|
            0 <= i < left_residue(rel, left, right).len() ==> left.contains(
                #[trigger] left_residue(rel, left, right)[i],
            ),
        forall|i: int|
            0 <= i < right_residue(rel, left, right).len() ==> right.contains(
                #[trigger] right_residue(rel, left, right)[i],
            ),
{
    lemma_unflagged_members(left, cancelled(rel, left, right), left.len());
    lemma_unflagged_members(right, consumed(rel, left, right, left.len()), right.len());
    assert forall|i: int| 0 <= i < left_residue(rel, left, right).len() implies left.contains(
        #[trigger] left_residue(rel, left, right)[i],
    ) by {
        let flags = cancelled(rel, left, right);
        let j = choose|j: int|
            0 <= j < left.len() && !flags[j] && left[j] == unflagged(left, flags, left.len())[i];
        assert(left[j] == left_residue(rel, left, right)[i]);
    }
    assert forall|i: int| 0 <= i < right_residue(rel, left, right).len() implies right.contains(
        #[trigger] right_residue(rel, left, right)[i],
    ) by {
        let flags = consumed(rel, left, right, left.len());
        let j = choose|j: int|
            0 <= j < right.len() && !flags[j] && right[j] == unflagged(
                right,
                flags,
                right.len(),
            )[i];
        assert(right[j] == right_residue(rel, left, right)[i]);
    }
}

/// Some term cancels exactly where the two sides intersect.
pub proof fn law_intersects<T>(rel: spec_fn(T, T) -> bool, left: Seq<T>, right: Seq<T>)
    ensures
        intersects(rel, left, right) <==> left_residue(rel, left, right).len() < left.len(),
        intersects(rel, left, right) <==> right_residue(rel, left, right).len() < right.len(),
{
    let flags = cancelled(rel, left, right);
    lemma_unflagged_len(left, flags, left.len());
    lemma_flagged_positive(flags, left.len());
    law_balance(rel, left, right);
    if intersects(rel, left, right) {
        let (i, j) = choose|i: int, j: int|
            0 <= i < left.len() && 0 <= j < right.len() && #[trigger] rel(left[i], right[j]);
        if forall|k: int| 0 <= k < left.len() ==> !cancels(rel, left, right, k) {
            lemma_untouched(rel, left, right, i as nat);
            let free = consumed(rel, left, right, i as nat);
            lemma_first_partner(rel, left[i], right, free, 0);
            assert(partner(rel, left[i], right, free, j));
            assert(cancels(rel, left, right, i));
        }
        let k = choose|k: int| 0 <= k < left.len() && cancels(rel, left, right, k);
        assert(flags[k]);
    }
    if left_residue(rel, left, right).len() < left.len() {
        let k = choose|k: int| 0 <= k < left.len() && flags[k];
        let free = consumed(rel, left, right, k as nat);
        lemma_first_partner(rel, left[k], right, free, 0);
        let j = first_partner(rel, left[k], right, free, 0);
        assert(rel(left[k], right[j]));
    }
}

} // verus!
