//! Cancellation between two multisets of terms held as vectors.

use crate::expr::Expr;
use crate::residue::{
    cancelled, cancels, consumed, decides, first_partner, flagged, intersects, left_residue,
    lemma_flagged_positive, lemma_flagged_update, native, right_residue, total, unflagged,
};
use vstd::prelude::*;
use vstd::std_specs::cmp::PartialEqSpec;

verus! {

/// Computes the symmetric difference of two multisets under the native
/// equality of their terms.
pub fn multiset_symmetric_difference<T>(left: Vec<T>, right: Vec<T>) -> (residues: (
    Vec<T>,
    Vec<T>,
)) where T: PartialEq
    ensures
        T::obeys_eq_spec() ==> residues.0@ == left_residue(native::<T>(), left@, right@)
            && residues.1@ == right_residue(native::<T>(), left@, right@),
        forall|i: int| 0 <= i < residues.0@.len() ==> left@.contains(#[trigger] residues.0@[i]),
        forall|i: int| 0 <= i < residues.1@.len() ==> right@.contains(#[trigger] residues.1@[i]),
        residues.0@.len() <= left@.len(),
        residues.1@.len() <= right@.len(),
        left@.len() - residues.0@.len() == right@.len() - residues.1@.len(),
{
    let mut eq = |a: &T, b: &T| -> (r: bool)
        ensures
            T::obeys_eq_spec() ==> r == a.eq_spec(b),
        { a == b };
    assert(T::obeys_eq_spec() ==> decides(eq, native::<T>()));
    cancel(left, right, &mut eq)
}

/// Computes the symmetric difference of two multisets under the comparison
/// `eq`: the terms of `left` that cancel against nothing in `right`, and the
/// terms of `right` that nothing in `left` consumed.
///
/// The terms of `left` are taken in order; each consumes the first slot of
/// `right` that is still free and holds a term that `eq` accepts, so one
/// occurrence cancels at most one occurrence.
pub fn multiset_symmetric_difference_by<T, F>(left: Vec<T>, right: Vec<T>, eq: F) -> (residues: (
    Vec<T>,
    Vec<T>,
)) where F: FnMut(&T, &T) -> bool
    requires
        total(eq),
    ensures
        forall|rel: spec_fn(T, T) -> bool| #[trigger]
            decides(eq, rel) ==> residues.0@ == left_residue(rel, left@, right@) && residues.1@
                == right_residue(rel, left@, right@),
        forall|i: int| 0 <= i < residues.0@.len() ==> left@.contains(#[trigger] residues.0@[i]),
        forall|i: int| 0 <= i < residues.1@.len() ==> right@.contains(#[trigger] residues.1@[i]),
        residues.0@.len() <= left@.len(),
        residues.1@.len() <= right@.len(),
        left@.len() - residues.0@.len() == right@.len() - residues.1@.len(),
{
    let mut eq = eq;
    cancel(left, right, &mut eq)
}

/// The symmetric difference of two multisets, with a borrowed comparison.
pub fn cancel<T, F>(left: Vec<T>, right: Vec<T>, eq: &mut F) -> (residues: (Vec<T>, Vec<T>)) where
    F: FnMut(&T, &T) -> bool,

    requires
        total(*old(eq)),
    ensures
        *final(eq) == *old(eq),
        forall|rel: spec_fn(T, T) -> bool| #[trigger]
            decides(*old(eq), rel) ==> residues.0@ == left_residue(rel, left@, right@)
                && residues.1@ == right_residue(rel, left@, right@),
        forall|i: int| 0 <= i < residues.0@.len() ==> left@.contains(#[trigger] residues.0@[i]),
        forall|i: int| 0 <= i < residues.1@.len() ==> right@.contains(#[trigger] residues.1@[i]),
        residues.0@.len() <= left@.len(),
        residues.1@.len() <= right@.len(),
        left@.len() - residues.0@.len() == right@.len() - residues.1@.len(),
{
    let ghost eq0 = *eq;
    let mut used: Vec<bool> = Vec::new();
    let mut n: usize = 0;
    while n < right.len()
        invariant
            n <= right@.len(),
            used@.len() == n,
            forall|j: int| 0 <= j < n ==> !used@[j],
        decreases right@.len() - n,
    {
        used.push(false);
        n = n + 1;
    }
    assert(used@ =~= Seq::new(right@.len(), |j: int| false));
    proof {
        lemma_flagged_positive(used@, right@.len());
    }
    let mut kept: Vec<T> = Vec::new();
    for l in it: left
        invariant
            it.seq() == left@,
            *eq == eq0,
            total(*eq),
            used@.len() == right@.len(),
            kept@.len() + flagged(used@, right@.len()) == it.index(),
            forall|i: int| 0 <= i < kept@.len() ==> left@.contains(#[trigger] kept@[i]),
            forall|rel: spec_fn(T, T) -> bool| #[trigger]
                decides(*eq, rel) ==> used@ == consumed(rel, left@, right@, it.index() as nat)
                    && kept@ == unflagged(
                    left@,
                    cancelled(rel, left@, right@),
                    it.index() as nat,
                ),
    {
        let ghost k = it.index();
        let ghost before = used@;
        let j = find_partner(&l, &right, &used, eq);
        if j < right.len() {
            used.set(j, true);
        } else {
            kept.push(l);
        }
        proof {
            if j < right@.len() {
                lemma_flagged_update(before, j as int, right@.len());
            } else {
                assert(left@[k] == l);
            }
            assert forall|rel: spec_fn(T, T) -> bool| #[trigger] decides(*eq, rel) implies used@
                == consumed(rel, left@, right@, (k + 1) as nat) && kept@ == unflagged(
                left@,
                cancelled(rel, left@, right@),
                (k + 1) as nat,
            ) by {
                assert(before == consumed(rel, left@, right@, k as nat));
                assert(j == first_partner(rel, left@[k], right@, before, 0));
                assert(cancels(rel, left@, right@, k) == (j < right@.len()));
                assert(cancelled(rel, left@, right@)[k] == cancels(rel, left@, right@, k));
            }
        }
    }
    let mut rest: Vec<T> = Vec::new();
    let mut m: usize = 0;
    for r in it: right
        invariant
            it.seq() == right@,
            m == it.index(),
            right@.len() <= usize::MAX,
            used@.len() == right@.len(),
            rest@ == unflagged(right@, used@, m as nat),
            rest@.len() + flagged(used@, m as nat) == m,
            forall|i: int| 0 <= i < rest@.len() ==> right@.contains(#[trigger] rest@[i]),
    {
        if !used[m] {
            assert(right@[m as int] == r);
            rest.push(r);
        }
        m = m + 1;
    }
    (kept, rest)
}

/// Finds the first free slot of `right` whose term `eq` pairs with `l`.
/// Returns `right.len()` where there is none.
pub fn find_partner<T, F>(l: &T, right: &Vec<T>, used: &Vec<bool>, eq: &mut F) -> (j: usize) where
    F: FnMut(&T, &T) -> bool,

    requires
        total(*old(eq)),
        used@.len() == right@.len(),
    ensures
        *final(eq) == *old(eq),
        j <= right@.len(),
        j < right@.len() ==> !used@[j as int],
        forall|rel: spec_fn(T, T) -> bool| #[trigger]
            decides(*old(eq), rel) ==> j == first_partner(rel, *l, right@, used@, 0),
{
    let mut j: usize = 0;
    while j < right.len()
        invariant
            j <= right@.len(),
            used@.len() == right@.len(),
            *eq == *old(eq),
            total(*eq),
            forall|rel: spec_fn(T, T) -> bool| #[trigger]
                decides(*eq, rel) ==> first_partner(rel, *l, right@, used@, 0) == first_partner(
                    rel,
                    *l,
                    right@,
                    used@,
                    j as int,
                ),
        decreases right@.len() - j,
    {
        if eq(l, &right[j]) && !used[j] {
            return j;
        }
        j = j + 1;
    }
    j
}

/// Tells whether some term of `left` equals some term of `right`.
pub fn has_intersection<T>(left: &[T], right: &[T]) -> (found: bool) where T: PartialEq
    ensures
        T::obeys_eq_spec() ==> found == intersects(native::<T>(), left@, right@),
{
    let mut eq = |a: &T, b: &T| -> (r: bool)
        ensures
            T::obeys_eq_spec() ==> r == a.eq_spec(b),
        { a == b };
    assert(T::obeys_eq_spec() ==> decides(eq, native::<T>()));
    intersect(left, right, &mut eq)
}

/// Tells whether `eq` accepts some term of `left` with some term of `right`.
pub fn has_intersection_by<T, F>(left: &[T], right: &[T], eq: F) -> (found: bool) where
    F: FnMut(&T, &T) -> bool,

    requires
        total(eq),
    ensures
        forall|rel: spec_fn(T, T) -> bool| #[trigger]
            decides(eq, rel) ==> found == intersects(rel, left@, right@),
        found ==> exists|i: int, j: int|
            0 <= i < left@.len() && 0 <= j < right@.len() && #[trigger] call_ensures(
                eq,
                (&left@[i], &right@[j]),
                true,
            ),
        !found ==> forall|i: int, j: int|
            0 <= i < left@.len() && 0 <= j < right@.len() ==> #[trigger] call_ensures(
                eq,
                (&left@[i], &right@[j]),
                false,
            ),
{
    let mut eq = eq;
    intersect(left, right, &mut eq)
}

/// Tells whether two multisets share a term, with a borrowed comparison.
pub fn intersect<T, F>(left: &[T], right: &[T], eq: &mut F) -> (found: bool) where
    F: FnMut(&T, &T) -> bool,

    requires
        total(*old(eq)),
    ensures
        *final(eq) == *old(eq),
        forall|rel: spec_fn(T, T) -> bool| #[trigger]
            decides(*old(eq), rel) ==> found == intersects(rel, left@, right@),
        found ==> exists|i: int, j: int|
            0 <= i < left@.len() && 0 <= j < right@.len() && #[trigger] call_ensures(
                *old(eq),
                (&left@[i], &right@[j]),
                true,
            ),
        !found ==> forall|i: int, j: int|
            0 <= i < left@.len() && 0 <= j < right@.len() ==> #[trigger] call_ensures(
                *old(eq),
                (&left@[i], &right@[j]),
                false,
            ),
{
    let mut i: usize = 0;
    while i < left.len()
        invariant
            i <= left@.len(),
            *eq == *old(eq),
            total(*eq),
            forall|a: int, b: int|
                0 <= a < i && 0 <= b < right@.len() ==> #[trigger] call_ensures(
                    *eq,
                    (&left@[a], &right@[b]),
                    false,
                ),
            forall|rel: spec_fn(T, T) -> bool| #[trigger]
                decides(*eq, rel) ==> forall|a: int, b: int|
                    0 <= a < i && 0 <= b < right@.len() ==> !#[trigger] rel(left@[a], right@[b]),
        decreases left@.len() - i,
    {
        let mut j: usize = 0;
        while j < right.len()
            invariant
                i < left@.len(),
                j <= right@.len(),
                *eq == *old(eq),
                total(*eq),
                forall|b: int|
                    0 <= b < j ==> #[trigger] call_ensures(
                        *eq,
                        (&left@[i as int], &right@[b]),
                        false,
                    ),
                forall|rel: spec_fn(T, T) -> bool| #[trigger]
                    decides(*eq, rel) ==> forall|b: int|
                        0 <= b < j ==> !#[trigger] rel(left@[i as int], right@[b]),
            decreases right@.len() - j,
        {
            if eq(&left[i], &right[j]) {
                assert(call_ensures(*eq, (&left@[i as int], &right@[j as int]), true));
                return true;
            }
            j = j + 1;
        }
        i = i + 1;
    }
    false
}

/// The tree that `table` holds for `atom`: that of the first entry, from
/// `from` on, whose atom equals `atom`; the atom itself where there is none.
pub open spec fn looked_up<A: PartialEq>(table: Seq<(&A, Expr<A>)>, atom: A, from: int) -> Expr<A>
    decreases table.len() - from,
{
    if from < 0 || from >= table.len() {
        Expr::Atom(atom)
    } else if table[from].0.eq_spec(&atom) {
        table[from].1
    } else {
        looked_up(table, atom, from + 1)
    }
}

/// Looks an atom up in a table of substitutions: returns the tree of the
/// first entry whose atom equals `atom`, and the atom itself where no entry
/// does.
pub fn substitute_iter_on_atoms<A>(table: Vec<(&A, Expr<A>)>, atom: A) -> (expr: Expr<A>) where
    A: PartialEq,

    ensures
        A::obeys_eq_spec() ==> expr == looked_up(table@, atom, 0),
        expr == Expr::Atom(atom) || exists|i: int|
            0 <= i < table@.len() && expr == (#[trigger] table@[i]).1,
{
    for entry in it: table
        invariant
            it.seq() == table@,
            A::obeys_eq_spec() ==> looked_up(table@, atom, 0) == looked_up(
                table@,
                atom,
                it.index(),
            ),
    {
        if *entry.0 == atom {
            assert(entry == table@[it.index()]);
            return entry.1;
        }
    }
    Expr::Atom(atom)
}

} // verus!
