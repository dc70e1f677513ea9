//! Ratios written as trees, and substitution into their atoms.
//!
//! A tree is an atom or a group of trees in order. A ratio is written as a
//! group of exactly two groups: the terms of the top, then the terms of the
//! bottom.

use crate::pair::{composed_all, Ratio, RatioPair};
use crate::residue::native;
use vstd::prelude::*;
use vstd::std_specs::cmp::{PartialEqSpec, PartialEqSpecImpl};
use vstd::std_specs::convert::{FromSpecImpl, TryFromSpecImpl};

verus! {

/// A tree of atoms.
#[derive(Debug, Hash)]
pub enum Expr<A> {
    /// A leaf.
    Atom(A),
    /// Trees in order.
    Group(Vec<Expr<A>>),
}

/// Why a tree is not a ratio.
#[derive(Clone, Copy, Debug, PartialEq, Eq, Structural, Hash, PartialOrd, Ord)]
pub enum RatioPairFromExprError {
    /// The tree is an atom.
    NotGroup,
    /// The group does not hold exactly two trees.
    BadGroupShape,
    /// The first of the two trees is an atom.
    MissingTopGroup,
    /// The second of the two trees is an atom.
    MissingBotGroup,
    /// Both trees are atoms.
    MissingTopBotGroup,
}

/// Two trees have the same shape and, leaf for leaf, atoms that the native
/// equality of `A` holds equal.
pub open spec fn same_tree<A: PartialEq>(a: Expr<A>, b: Expr<A>) -> bool
    decreases a,
{
    match (a, b) {
        (Expr::Atom(x), Expr::Atom(y)) => x.eq_spec(&y),
        (Expr::Group(g), Expr::Group(h)) => {
            &&& g@.len() == h@.len()
            &&& forall|i: int| 0 <= i < g@.len() ==> same_tree(#[trigger] g@[i], h@[i])
        },
        _ => false,
    }
}

/// Tells whether two trees are the same, atom for atom.
pub fn same<A: PartialEq>(a: &Expr<A>, b: &Expr<A>) -> (r: bool)
    ensures
        A::obeys_eq_spec() ==> r == same_tree(*a, *b),
    decreases a,
{
    match (a, b) {
        (Expr::Atom(x), Expr::Atom(y)) => x == y,
        (Expr::Group(g), Expr::Group(h)) => same_terms(g, h),
        _ => false,
    }
}

/// Tells whether two sequences of trees are the same, tree for tree.
pub fn same_terms<A: PartialEq>(g: &Vec<Expr<A>>, h: &Vec<Expr<A>>) -> (r: bool)
    ensures
        A::obeys_eq_spec() ==> r == (g@.len() == h@.len() && forall|i: int|
            0 <= i < g@.len() ==> same_tree(#[trigger] g@[i], h@[i])),
    decreases g,
{
    if g.len() != h.len() {
        return false;
    }
    let mut i: usize = 0;
    while i < g.len()
        invariant
            i <= g@.len(),
            g@.len() == h@.len(),
            A::obeys_eq_spec() ==> forall|k: int| 0 <= k < i ==> same_tree(#[trigger] g@[k], h@[k]),
        decreases g@.len() - i,
    {
        if !same(&g[i], &h[i]) {
            return false;
        }
        i = i + 1;
    }
    true
}

impl<A: PartialEq> PartialEqSpecImpl for Expr<A> {
    open spec fn obeys_eq_spec() -> bool {
        A::obeys_eq_spec()
    }

    open spec fn eq_spec(&self, other: &Self) -> bool {
        same_tree(*self, *other)
    }
}

impl<A: PartialEq> PartialEq for Expr<A> {
    fn eq(&self, other: &Self) -> (r: bool) {
        same(self, other)
    }
}

impl<A: Eq> Eq for Expr<A> {

}

/// `copy` is `expr` with a clone of each atom in place of the atom.
pub open spec fn copied<A: Clone>(expr: Expr<A>, copy: Expr<A>) -> bool
    decreases expr,
{
    match expr {
        Expr::Atom(atom) => copy matches Expr::Atom(twin) && cloned(atom, twin),
        Expr::Group(group) => {
            &&& copy matches Expr::Group(twins)
            &&& twins@.len() == group@.len()
            &&& forall|i: int| 0 <= i < group@.len() ==> copied(#[trigger] group@[i], twins@[i])
        },
    }
}

/// Copies a tree, cloning each atom.
pub fn copy<A: Clone>(expr: &Expr<A>) -> (twin: Expr<A>)
    ensures
        copied(*expr, twin),
    decreases expr,
{
    match expr {
        Expr::Atom(atom) => Expr::Atom(atom.clone()),
        Expr::Group(group) => Expr::Group(copy_terms(group)),
    }
}

/// Copies each tree of a sequence, in order.
pub fn copy_terms<A: Clone>(terms: &Vec<Expr<A>>) -> (twins: Vec<Expr<A>>)
    ensures
        twins@.len() == terms@.len(),
        forall|i: int| 0 <= i < terms@.len() ==> copied(#[trigger] terms@[i], twins@[i]),
    decreases terms,
{
    let mut twins: Vec<Expr<A>> = Vec::new();
    let mut i: usize = 0;
    while i < terms.len()
        invariant
            i <= terms@.len(),
            twins@.len() == i,
            forall|k: int| 0 <= k < i ==> copied(#[trigger] terms@[k], twins@[k]),
        decreases terms@.len() - i,
    {
        twins.push(copy(&terms[i]));
        i = i + 1;
    }
    twins
}

impl<A: Clone> Clone for Expr<A> {
    fn clone(&self) -> (twin: Self)
        ensures
            copied(*self, twin),
    {
        copy(self)
    }
}

/// The tree is a group of exactly two groups.
pub open spec fn ratio_shaped<A>(expr: Expr<A>) -> bool {
    &&& expr matches Expr::Group(group)
    &&& group@.len() == 2
    &&& group@[0] is Group
    &&& group@[1] is Group
}

/// The ratio that a tree stands for, or why it stands for none.
pub open spec fn parsed<A>(expr: Expr<A>) -> Result<RatioPair<Vec<Expr<A>>>, RatioPairFromExprError> {
    match expr {
        Expr::Atom(_) => Err(RatioPairFromExprError::NotGroup),
        Expr::Group(group) => if group@.len() != 2 {
            Err(RatioPairFromExprError::BadGroupShape)
        } else {
            match (group@[0], group@[1]) {
                (Expr::Group(top), Expr::Group(bot)) => Ok(RatioPair { top, bot }),
                (Expr::Atom(_), Expr::Group(_)) => Err(RatioPairFromExprError::MissingTopGroup),
                (Expr::Group(_), Expr::Atom(_)) => Err(RatioPairFromExprError::MissingBotGroup),
                (Expr::Atom(_), Expr::Atom(_)) => Err(RatioPairFromExprError::MissingTopBotGroup),
            }
        },
    }
}

/// `expr` is `ratio` written as a tree: the group of the group of its top
/// and the group of its bottom.
pub open spec fn written<A>(ratio: RatioPair<Vec<Expr<A>>>, expr: Expr<A>) -> bool {
    &&& expr matches Expr::Group(group)
    &&& group@ == seq![Expr::Group(ratio.top), Expr::Group(ratio.bot)]
}

/// A ratio written as a tree reads back as the same ratio.
pub proof fn law_round_trip<A>(ratio: RatioPair<Vec<Expr<A>>>, expr: Expr<A>)
    requires
        written(ratio, expr),
    ensures
        parsed(expr) == Ok::<RatioPair<Vec<Expr<A>>>, RatioPairFromExprError>(ratio),
{
}

/// A tree that reads as a ratio is that ratio written as a tree.
pub proof fn law_parsed_written<A>(expr: Expr<A>, ratio: RatioPair<Vec<Expr<A>>>)
    requires
        parsed(expr) == Ok::<RatioPair<Vec<Expr<A>>>, RatioPairFromExprError>(ratio),
    ensures
        written(ratio, expr),
{
    let group = expr->Group_0;
    assert(group@ =~= seq![Expr::Group(ratio.top), Expr::Group(ratio.bot)]);
}

/// A tree reads as a ratio exactly where it has the shape of one.
pub proof fn law_shape<A>(expr: Expr<A>)
    ensures
        ratio_shaped(expr) <==> parsed(expr) is Ok,
{
}

/// Tells whether a tree has the shape of a ratio.
#[must_use]
pub fn has_ratio_shape<A>(expr: &Expr<A>) -> (shaped: bool)
    ensures
        shaped == ratio_shaped(*expr),
{
    match expr {
        Expr::Group(group) => {
            if group.len() == 2 {
                is_group(&group[0]) && is_group(&group[1])
            } else {
                false
            }
        },
        Expr::Atom(_) => false,
    }
}

/// Tells whether a tree is a group.
pub fn is_group<A>(expr: &Expr<A>) -> (group: bool)
    ensures
        group == (*expr is Group),
{
    match expr {
        Expr::Group(_) => true,
        Expr::Atom(_) => false,
    }
}

impl<A> TryFromSpecImpl<Expr<A>> for RatioPair<Vec<Expr<A>>> {
    open spec fn obeys_try_from_spec() -> bool {
        true
    }

    open spec fn try_from_spec(expr: Expr<A>) -> Result<Self, RatioPairFromExprError> {
        parsed(expr)
    }
}

impl<A> TryFrom<Expr<A>> for RatioPair<Vec<Expr<A>>> {
    type Error = RatioPairFromExprError;

    /// Reads a ratio from a tree of the right shape.
    fn try_from(expr: Expr<A>) -> (ratio: Result<Self, RatioPairFromExprError>)
        ensures
            ratio == parsed(expr),
    {
        match expr {
            Expr::Atom(_) => Err(RatioPairFromExprError::NotGroup),
            Expr::Group(group) => {
                let mut group = group;
                if group.len() != 2 {
                    return Err(RatioPairFromExprError::BadGroupShape);
                }
                let bot = group.pop().unwrap();
                let top = group.pop().unwrap();
                match (top, bot) {
                    (Expr::Group(top), Expr::Group(bot)) => Ok(RatioPair { top, bot }),
                    (Expr::Atom(_), Expr::Group(_)) => Err(RatioPairFromExprError::MissingTopGroup),
                    (Expr::Group(_), Expr::Atom(_)) => Err(RatioPairFromExprError::MissingBotGroup),
                    (Expr::Atom(_), Expr::Atom(_)) => Err(
                        RatioPairFromExprError::MissingTopBotGroup,
                    ),
                }
            },
        }
    }
}

impl<A> FromSpecImpl<RatioPair<Vec<Expr<A>>>> for Expr<A> {
    /// The group that `from` builds is known by what it holds, which
    /// `written` states; no spec function can name the group itself.
    open spec fn obeys_from_spec() -> bool {
        false
    }

    open spec fn from_spec(ratio: RatioPair<Vec<Expr<A>>>) -> Self {
        choose|expr: Expr<A>| written(ratio, expr)
    }
}

impl<A> From<RatioPair<Vec<Expr<A>>>> for Expr<A> {
    /// Writes a ratio as a tree, forgetting that it is a ratio.
    fn from(ratio: RatioPair<Vec<Expr<A>>>) -> (expr: Self)
        ensures
            written(ratio, expr),
    {
        let mut group: Vec<Expr<A>> = Vec::new();
        group.push(Expr::Group(ratio.top));
        group.push(Expr::Group(ratio.bot));
        assert(group@ =~= seq![Expr::Group(ratio.top), Expr::Group(ratio.bot)]);
        Expr::Group(group)
    }
}

/// `result` is `expr` with each atom replaced by a tree that `f` can return
/// for it; groups keep their length and order.
pub open spec fn substituted<A, F: FnMut(A) -> Expr<A>>(f: F, expr: Expr<A>, result: Expr<A>) -> bool
    decreases expr,
{
    match expr {
        Expr::Atom(atom) => call_ensures(f, (atom,), result),
        Expr::Group(group) => {
            &&& result matches Expr::Group(replaced)
            &&& replaced@.len() == group@.len()
            &&& forall|i: int|
                0 <= i < group@.len() ==> substituted(f, #[trigger] group@[i], replaced@[i])
        },
    }
}

/// Term by term, `results` is `terms` with `f` substituted into each.
pub open spec fn substituted_all<A, F: FnMut(A) -> Expr<A>>(
    f: F,
    terms: Seq<Expr<A>>,
    results: Seq<Expr<A>>,
) -> bool {
    &&& results.len() == terms.len()
    &&& forall|i: int| 0 <= i < terms.len() ==> substituted(f, #[trigger] terms[i], results[i])
}

/// Substitutes a tree for each atom of `expr`.
pub fn substitute_expr<A, F>(expr: Expr<A>, f: &mut F) -> (result: Expr<A>) where
    F: FnMut(A) -> Expr<A>,

    requires
        forall|atom: A| call_requires(*old(f), (atom,)),
    ensures
        *final(f) == *old(f),
        substituted(*old(f), expr, result),
    decreases expr,
{
    match expr {
        Expr::Atom(atom) => f(atom),
        Expr::Group(group) => Expr::Group(substitute_terms(group, f)),
    }
}

/// Substitutes a tree for each atom of each term, in order.
pub fn substitute_terms<A, F>(terms: Vec<Expr<A>>, f: &mut F) -> (results: Vec<Expr<A>>) where
    F: FnMut(A) -> Expr<A>,

    requires
        forall|atom: A| call_requires(*old(f), (atom,)),
    ensures
        *final(f) == *old(f),
        substituted_all(*old(f), terms@, results@),
    decreases terms,
{
    let mut results: Vec<Expr<A>> = Vec::new();
    for term in it: terms
        invariant
            it.seq() == terms@,
            *f == *old(f),
            forall|atom: A| call_requires(*f, (atom,)),
            results@.len() == it.index(),
            forall|i: int|
                0 <= i < it.index() ==> substituted(*f, #[trigger] terms@[i], results@[i]),
    {
        let replaced = substitute_expr(term, f);
        results.push(replaced);
    }
    results
}

/// Substitutes a tree for each atom of each term of a ratio: first through
/// the top, then through the bottom, each from left to right.
pub fn substitute<A, R, F>(ratio: R, f: F) -> (result: R) where
    R: Ratio<Vec<Expr<A>>>,
    F: FnMut(A) -> Expr<A>,

    requires
        forall|atom: A| call_requires(f, (atom,)),
    ensures
        result.pair().top@.len() == ratio.pair().top@.len(),
        result.pair().bot@.len() == ratio.pair().bot@.len(),
        substituted_all(f, ratio.pair().top@, result.pair().top@),
        substituted_all(f, ratio.pair().bot@, result.pair().bot@),
{
    let mut f = f;
    let pair = ratio.into_pair();
    let top = substitute_terms(pair.top, &mut f);
    let bot = substitute_terms(pair.bot, &mut f);
    R::new(top, bot)
}

/// `ratios` holds, for each entry of `terms`, the sides of a ratio that
/// substitution with the entry's function can give, and `result` is their
/// product from the left under the native equality of trees.
pub open spec fn evaluated<A: PartialEq, R: Ratio<Vec<Expr<A>>>, F: FnMut(A) -> Expr<A>>(
    terms: Seq<(R, F)>,
    ratios: Seq<RatioPair<Seq<Expr<A>>>>,
    result: R,
) -> bool {
    &&& ratios.len() == terms.len()
    &&& forall|i: int|
        0 <= i < terms.len() ==> substituted_all(
            terms[i].1,
            terms[i].0.pair().top@,
            (#[trigger] ratios[i]).top,
        ) && substituted_all(terms[i].1, terms[i].0.pair().bot@, ratios[i].bot)
    &&& A::obeys_eq_spec() ==> result.pair().sides() == composed_all(native::<Expr<A>>(), ratios)
}

/// Evaluates one step of deduction: substitutes into each ratio with the
/// function that stands beside it, then multiplies the results from the
/// left, comparing trees by their native equality.
pub fn eval_composition<A, R, F>(terms: Vec<(R, F)>) -> (result: R) where
    A: PartialEq,
    R: Ratio<Vec<Expr<A>>>,
    F: FnMut(A) -> Expr<A>,

    requires
        forall|i: int, atom: A|
            0 <= i < terms@.len() ==> #[trigger] call_requires(terms@[i].1, (atom,)),
    ensures
        exists|ratios: Seq<RatioPair<Seq<Expr<A>>>>| evaluated(terms@, ratios, result),
{
    let mut ratios: Vec<R> = Vec::new();
    for term in it: terms
        invariant
            it.seq() == terms@,
            forall|i: int, atom: A|
                0 <= i < terms@.len() ==> #[trigger] call_requires(terms@[i].1, (atom,)),
            ratios@.len() == it.index(),
            forall|i: int|
                0 <= i < it.index() ==> substituted_all(
                    terms@[i].1,
                    terms@[i].0.pair().top@,
                    (#[trigger] ratios@[i]).pair().top@,
                ) && substituted_all(
                    terms@[i].1,
                    terms@[i].0.pair().bot@,
                    ratios@[i].pair().bot@,
                ),
    {
        let (ratio, f) = term;
        let replaced = substitute(ratio, f);
        ratios.push(replaced);
    }
    let ghost sides = Seq::new(ratios@.len(), |i: int| ratios@[i].pair().sides());
    let result = R::compose(ratios);
    proof {
        assert(sides =~= Seq::new(ratios@.len(), |i: int| ratios@[i].pair().sides()));
        assert forall|i: int| 0 <= i < terms@.len() implies substituted_all(
            terms@[i].1,
            terms@[i].0.pair().top@,
            (#[trigger] sides[i]).top,
        ) && substituted_all(terms@[i].1, terms@[i].0.pair().bot@, sides[i].bot) by {
            assert(sides[i] == ratios@[i].pair().sides());
        }
        assert(evaluated(terms@, sides, result));
    }
    result
}

} // verus!
