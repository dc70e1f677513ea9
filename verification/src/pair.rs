//! Ratios: a numerator and a denominator, each a multiset of terms.

use crate::residue::{
    decides, intersects, law_balance, law_empty_left, law_empty_right, law_intersects,
    left_residue, native, right_residue, total,
};
use crate::util::{cancel, intersect};
use vstd::prelude::*;
use vstd::std_specs::cmp::PartialEqSpec;
use vstd::std_specs::convert::FromSpecImpl;

verus! {

/// A multiset of terms held in a fixed order.
pub trait Terms: Sized {
    /// The type of a term.
    type Item;

    /// The terms, in the order in which they are held.
    spec fn terms(&self) -> Seq<Self::Item>;

    /// Builds the multiset that holds `items`, in that order.
    fn from_terms(items: Vec<Self::Item>) -> (s: Self)
        ensures
            s.terms() == items@,
    ;

    /// Hands out the terms, in order.
    fn into_terms(self) -> (items: Vec<Self::Item>)
        ensures
            items@ == self.terms(),
    ;

    /// Lends the terms, in order.
    fn as_terms(&self) -> (items: &[Self::Item])
        ensures
            items@ == self.terms(),
    ;
}

impl<T> Terms for Vec<T> {
    type Item = T;

    open spec fn terms(&self) -> Seq<T> {
        self@
    }

    fn from_terms(items: Vec<T>) -> (s: Self) {
        items
    }

    fn into_terms(self) -> (items: Vec<T>) {
        self
    }

    fn as_terms(&self) -> (items: &[T]) {
        self.as_slice()
    }
}

/// The canonical ratio: a numerator over a denominator.
#[derive(Clone, Copy, Debug, Default, PartialEq, Eq, Hash, PartialOrd, Ord)]
pub struct RatioPair<V> {
    /// Top of the ratio.
    pub top: V,
    /// Bottom of the ratio.
    pub bot: V,
}

/// A borrowed ratio.
#[derive(Clone, Copy, Debug, PartialEq, Eq, Hash, PartialOrd, Ord)]
pub struct RatioPairRef<'v, V> {
    /// Top of the ratio.
    pub top: &'v V,
    /// Bottom of the ratio.
    pub bot: &'v V,
}

impl<V> RatioPair<V> {
    /// The ratio turned over.
    pub open spec fn reversed(self) -> Self {
        RatioPair { top: self.bot, bot: self.top }
    }
}

impl<V: Terms> RatioPair<V> {
    /// The terms of both sides.
    pub open spec fn sides(self) -> RatioPair<Seq<V::Item>> {
        RatioPair { top: self.top.terms(), bot: self.bot.terms() }
    }
}

/// The ratio of two empty multisets.
pub open spec fn unit<T>() -> RatioPair<Seq<T>> {
    RatioPair { top: Seq::empty(), bot: Seq::empty() }
}

/// The product of two ratios: the bottom of `a` cancels against the top of
/// `b`; what is left of each stands in front of the side that took no part.
pub open spec fn composed<T>(
    rel: spec_fn(T, T) -> bool,
    a: RatioPair<Seq<T>>,
    b: RatioPair<Seq<T>>,
) -> RatioPair<Seq<T>> {
    RatioPair {
        top: right_residue(rel, a.bot, b.top) + a.top,
        bot: left_residue(rel, a.bot, b.top) + b.bot,
    }
}

/// The product of the first `k` ratios of `ratios`, taken from the left with
/// the first ratio as the seed; the unit where `k` is 0.
pub open spec fn folded<T>(
    rel: spec_fn(T, T) -> bool,
    ratios: Seq<RatioPair<Seq<T>>>,
    k: nat,
) -> RatioPair<Seq<T>>
    decreases k,
{
    if k == 0 {
        unit()
    } else if k == 1 {
        ratios[0]
    } else {
        composed(rel, folded(rel, ratios, (k - 1) as nat), ratios[k - 1])
    }
}

/// The product of all of `ratios`, taken from the left.
pub open spec fn composed_all<T>(
    rel: spec_fn(T, T) -> bool,
    ratios: Seq<RatioPair<Seq<T>>>,
) -> RatioPair<Seq<T>> {
    folded(rel, ratios, ratios.len())
}

/// Multiplying `a` by `b` would cancel a term: the bottom of `a` meets the
/// top of `b`, or the top of `a` meets the bottom of `b`.
pub open spec fn cancellable<T>(
    rel: spec_fn(T, T) -> bool,
    a: RatioPair<Seq<T>>,
    b: RatioPair<Seq<T>>,
) -> bool {
    intersects(rel, a.bot, b.top) || intersects(rel, a.top, b.bot)
}

/// Turning a ratio over twice gives the ratio back.
pub proof fn law_reverse_involution<V>(ratio: RatioPair<V>)
    ensures
        ratio.reversed().reversed() == ratio,
{
}

/// The ratio of two empty multisets is a unit on the left.
pub proof fn law_unit_left<T>(rel: spec_fn(T, T) -> bool, ratio: RatioPair<Seq<T>>)
    ensures
        composed(rel, unit(), ratio) == ratio,
{
    law_empty_left(rel, ratio.top);
    assert(ratio.top + Seq::<T>::empty() =~= ratio.top);
    assert(Seq::<T>::empty() + ratio.bot =~= ratio.bot);
}

/// The ratio of two empty multisets is a unit on the right.
pub proof fn law_unit_right<T>(rel: spec_fn(T, T) -> bool, ratio: RatioPair<Seq<T>>)
    ensures
        composed(rel, ratio, unit()) == ratio,
{
    law_empty_right(rel, ratio.bot);
    assert(Seq::<T>::empty() + ratio.top =~= ratio.top);
    assert(ratio.bot + Seq::<T>::empty() =~= ratio.bot);
}

/// A product lacks as many terms on the top as on the bottom, and lacks a
/// term exactly where the bottom of `a` meets the top of `b`.
pub proof fn law_cancellation<T>(
    rel: spec_fn(T, T) -> bool,
    a: RatioPair<Seq<T>>,
    b: RatioPair<Seq<T>>,
)
    ensures
        shrunk(composed(rel, a, b), a, b),
        intersects(rel, a.bot, b.top) <==> composed(rel, a, b).top.len() < a.top.len()
            + b.top.len(),
        intersects(rel, a.bot, b.top) <==> composed(rel, a, b).bot.len() < a.bot.len()
            + b.bot.len(),
{
    law_balance(rel, a.bot, b.top);
    law_intersects(rel, a.bot, b.top);
}

/// The product of no ratios is the ratio of two empty multisets.
pub proof fn law_compose_none<T>(rel: spec_fn(T, T) -> bool)
    ensures
        composed_all(rel, Seq::<RatioPair<Seq<T>>>::empty()) == unit::<T>(),
{
}

/// The product of one ratio is that ratio.
pub proof fn law_compose_one<T>(rel: spec_fn(T, T) -> bool, ratio: RatioPair<Seq<T>>)
    ensures
        composed_all(rel, seq![ratio]) == ratio,
{
}

/// The product of three ratios is the product of the first two, multiplied
/// by the third.
pub proof fn law_compose_three<T>(
    rel: spec_fn(T, T) -> bool,
    r1: RatioPair<Seq<T>>,
    r2: RatioPair<Seq<T>>,
    r3: RatioPair<Seq<T>>,
)
    ensures
        composed_all(rel, seq![r1, r2, r3]) == composed(rel, composed(rel, r1, r2), r3),
{
    reveal_with_fuel(folded, 4);
}

/// The product of the first `k` ratios does not depend on what follows them.
pub proof fn lemma_folded_prefix<T>(
    rel: spec_fn(T, T) -> bool,
    ratios: Seq<RatioPair<Seq<T>>>,
    next: RatioPair<Seq<T>>,
    k: nat,
)
    requires
        k <= ratios.len(),
    ensures
        folded(rel, ratios.push(next), k) == folded(rel, ratios, k),
    decreases k,
{
    if k > 1 {
        lemma_folded_prefix(rel, ratios, next, (k - 1) as nat);
    }
}

/// The product of a sequence of ratios with one more ratio behind it is the
/// product of the sequence, multiplied by that ratio.
pub proof fn law_compose_push<T>(
    rel: spec_fn(T, T) -> bool,
    ratios: Seq<RatioPair<Seq<T>>>,
    next: RatioPair<Seq<T>>,
)
    ensures
        composed_all(rel, ratios.push(next)) == composed(rel, composed_all(rel, ratios), next),
{
    lemma_folded_prefix(rel, ratios, next, ratios.len());
    if ratios.len() == 0 {
        law_unit_left(rel, next);
    }
}

/// `product` has no more terms on either side than `a` and `b` together,
/// and lacks as many on the top as on the bottom.
pub open spec fn shrunk<T>(
    product: RatioPair<Seq<T>>,
    a: RatioPair<Seq<T>>,
    b: RatioPair<Seq<T>>,
) -> bool {
    &&& product.top.len() <= a.top.len() + b.top.len()
    &&& product.bot.len() <= a.bot.len() + b.bot.len()
    &&& a.top.len() + b.top.len() - product.top.len() == a.bot.len() + b.bot.len()
        - product.bot.len()
}

/// Multiplies two ratios of vectors, with a borrowed comparison.
pub fn compose_terms<T, F>(a: RatioPair<Vec<T>>, b: RatioPair<Vec<T>>, eq: &mut F) -> (r: RatioPair<
    Vec<T>,
>) where F: FnMut(&T, &T) -> bool
    requires
        total(*old(eq)),
    ensures
        *final(eq) == *old(eq),
        forall|rel: spec_fn(T, T) -> bool| #[trigger]
            decides(*old(eq), rel) ==> r.sides() == composed(rel, a.sides(), b.sides()),
        shrunk(r.sides(), a.sides(), b.sides()),
{
    let (lower, upper) = cancel(a.bot, b.top, eq);
    let mut top = upper;
    let mut bot = lower;
    let mut a_top = a.top;
    let mut b_bot = b.bot;
    top.append(&mut a_top);
    bot.append(&mut b_bot);
    RatioPair { top, bot }
}

/// Anything that holds a numerator and a denominator.
pub trait Ratio<V>: Sized {
    /// The ratio as a pair of sides.
    spec fn pair(&self) -> RatioPair<V>;

    /// Builds a ratio from its two sides.
    fn new(top: V, bot: V) -> (r: Self)
        ensures
            r.pair() == (RatioPair { top, bot }),
    ;

    /// Lends both sides.
    fn cases(&self) -> (c: RatioPairRef<'_, V>)
        ensures
            *c.top == self.pair().top,
            *c.bot == self.pair().bot,
    ;

    /// Turns the ratio into the canonical pair.
    fn into_pair(self) -> (p: RatioPair<V>)
        ensures
            p == self.pair(),
    ;

    /// Hands out the top.
    fn top(self) -> (v: V)
        ensures
            v == self.pair().top,
    {
        self.into_pair().top
    }

    /// Lends the top.
    fn top_ref(&self) -> (v: &V)
        ensures
            *v == self.pair().top,
    {
        self.cases().top
    }

    /// Hands out the bottom.
    fn bot(self) -> (v: V)
        ensures
            v == self.pair().bot,
    {
        self.into_pair().bot
    }

    /// Lends the bottom.
    fn bot_ref(&self) -> (v: &V)
        ensures
            *v == self.pair().bot,
    {
        self.cases().bot
    }

    /// Builds a ratio from a canonical pair.
    fn from_pair(pair: RatioPair<V>) -> (r: Self)
        ensures
            r.pair() == pair,
    {
        Self::new(pair.top, pair.bot)
    }

    /// Turns the ratio over: the top becomes the bottom.
    fn reverse(self) -> (r: Self)
        ensures
            r.pair() == self.pair().reversed(),
    {
        let p = self.into_pair();
        Self::new(p.bot, p.top)
    }

    /// The ratio whose sides are both the default of `V`.
    fn default() -> (r: Self) where V: Default
        ensures
            call_ensures(V::default, (), r.pair().top),
            call_ensures(V::default, (), r.pair().bot),
    {
        Self::new(V::default(), V::default())
    }

    /// Copies both sides.
    fn clone(&self) -> (r: Self) where V: Clone
        ensures
            call_ensures(V::clone, (&self.pair().top,), r.pair().top),
            call_ensures(V::clone, (&self.pair().bot,), r.pair().bot),
    {
        Self::new(self.top_ref().clone(), self.bot_ref().clone())
    }

    /// Tells whether both sides equal those of `other`, which may hold
    /// sides of another type.
    fn eq<RV>(&self, other: RatioPairRef<'_, RV>) -> (same: bool) where V: PartialEq<RV>
        ensures
            V::obeys_eq_spec() ==> same == (self.pair().top.eq_spec(other.top)
                && self.pair().bot.eq_spec(other.bot)),
    {
        self.top_ref() == other.top && self.bot_ref() == other.bot
    }

    /// Tells whether `eq` accepts the tops and then the bottoms of the two
    /// ratios. The bottoms are not asked about where the tops differ.
    fn eq_by<RV, F>(&self, other: RatioPairRef<'_, RV>, eq: F) -> (same: bool) where
        F: FnMut(&V, &RV) -> bool,

        requires
            call_requires(eq, (&self.pair().top, other.top)),
            call_requires(eq, (&self.pair().bot, other.bot)),
        ensures
            same ==> call_ensures(eq, (&self.pair().top, other.top), true) && call_ensures(
                eq,
                (&self.pair().bot, other.bot),
                true,
            ),
            !same ==> call_ensures(eq, (&self.pair().top, other.top), false) || (call_ensures(
                eq,
                (&self.pair().top, other.top),
                true,
            ) && call_ensures(eq, (&self.pair().bot, other.bot), false)),
    {
        let mut eq = eq;
        eq(self.top_ref(), other.top) && eq(self.bot_ref(), other.bot)
    }

    /// Multiplies two ratios, comparing terms by their native equality.
    fn pair_compose(top: Self, bot: Self) -> (r: Self) where V: Terms, V::Item: PartialEq
        ensures
            V::Item::obeys_eq_spec() ==> r.pair().sides() == composed(
                native::<V::Item>(),
                top.pair().sides(),
                bot.pair().sides(),
            ),
            shrunk(r.pair().sides(), top.pair().sides(), bot.pair().sides()),
    {
        let mut eq = |a: &V::Item, b: &V::Item| -> (r: bool)
            ensures
                V::Item::obeys_eq_spec() ==> r == a.eq_spec(b),
            { a == b };
        assert(V::Item::obeys_eq_spec() ==> decides(eq, native::<V::Item>()));
        Self::pair_compose_by(top, bot, eq)
    }

    /// Multiplies two ratios, comparing terms with `eq`: the bottom of `top`
    /// cancels against the top of `bot`.
    fn pair_compose_by<F>(top: Self, bot: Self, eq: F) -> (r: Self) where
        V: Terms,
        F: FnMut(&V::Item, &V::Item) -> bool,

        requires
            total(eq),
        ensures
            forall|rel: spec_fn(V::Item, V::Item) -> bool| #[trigger]
                decides(eq, rel) ==> r.pair().sides() == composed(
                    rel,
                    top.pair().sides(),
                    bot.pair().sides(),
                ),
            shrunk(r.pair().sides(), top.pair().sides(), bot.pair().sides()),
    {
        let mut eq = eq;
        let a = top.into_pair();
        let b = bot.into_pair();
        let a = RatioPair { top: a.top.into_terms(), bot: a.bot.into_terms() };
        let b = RatioPair { top: b.top.into_terms(), bot: b.bot.into_terms() };
        let p = compose_terms(a, b, &mut eq);
        Self::new(V::from_terms(p.top), V::from_terms(p.bot))
    }

    /// Multiplies the ratios from the left, comparing terms by their native
    /// equality.
    fn compose(ratios: Vec<Self>) -> (r: Self) where V: Terms, V::Item: PartialEq
        ensures
            ratios@.len() == 0 ==> r.pair().sides() == unit::<V::Item>(),
            ratios@.len() == 1 ==> r == ratios@[0],
            V::Item::obeys_eq_spec() ==> r.pair().sides() == composed_all(
                native::<V::Item>(),
                Seq::new(ratios@.len(), |i: int| ratios@[i].pair().sides()),
            ),
    {
        let mut eq = |a: &V::Item, b: &V::Item| -> (r: bool)
            ensures
                V::Item::obeys_eq_spec() ==> r == a.eq_spec(b),
            { a == b };
        assert(V::Item::obeys_eq_spec() ==> decides(eq, native::<V::Item>()));
        Self::compose_by(ratios, eq)
    }

    /// Multiplies the ratios from the left, comparing terms with `eq`. The
    /// first ratio is the seed; of no ratios the product is the ratio of two
    /// empty multisets.
    fn compose_by<F>(ratios: Vec<Self>, eq: F) -> (r: Self) where
        V: Terms,
        F: FnMut(&V::Item, &V::Item) -> bool,

        requires
            total(eq),
        ensures
            ratios@.len() == 0 ==> r.pair().sides() == unit::<V::Item>(),
            ratios@.len() == 1 ==> r == ratios@[0],
            forall|rel: spec_fn(V::Item, V::Item) -> bool| #[trigger]
                decides(eq, rel) ==> r.pair().sides() == composed_all(rel, Seq::new(ratios@.len(), |i: int| ratios@[i].pair().sides())),
    {
        let mut eq = eq;
        let ghost eq0 = eq;
        let mut acc: Option<Self> = None;
        for next in it: ratios
            invariant
                it.seq() == ratios@,
                eq == eq0,
                total(eq),
                it.index() == 0 ==> acc is None,
                it.index() > 0 ==> acc is Some,
                it.index() == 1 ==> acc == Some(ratios@[0]),
                forall|rel: spec_fn(V::Item, V::Item) -> bool| #[trigger]
                    decides(eq, rel) && it.index() > 0 ==> acc.unwrap().pair().sides() == folded(
                        rel,
                        Seq::new(ratios@.len(), |i: int| ratios@[i].pair().sides()),
                        it.index() as nat,
                    ),
        {
            acc = Some(
                match acc {
                    None => next,
                    Some(so_far) => {
                        let a = so_far.into_pair();
                        let b = next.into_pair();
                        let a = RatioPair { top: a.top.into_terms(), bot: a.bot.into_terms() };
                        let b = RatioPair { top: b.top.into_terms(), bot: b.bot.into_terms() };
                        let p = compose_terms(a, b, &mut eq);
                        Self::new(V::from_terms(p.top), V::from_terms(p.bot))
                    },
                },
            );
        }
        match acc {
            Some(product) => product,
            None => Self::new(V::from_terms(Vec::new()), V::from_terms(Vec::new())),
        }
    }

    /// Tells whether multiplying `top` by `bot` would cancel a term, under
    /// the native equality of terms.
    fn has_cancellation(top: &Self, bot: &Self) -> (any: bool) where V: Terms, V::Item: PartialEq
        ensures
            V::Item::obeys_eq_spec() ==> any == cancellable(
                native::<V::Item>(),
                top.pair().sides(),
                bot.pair().sides(),
            ),
    {
        let mut eq = |a: &V::Item, b: &V::Item| -> (r: bool)
            ensures
                V::Item::obeys_eq_spec() ==> r == a.eq_spec(b),
            { a == b };
        assert(V::Item::obeys_eq_spec() ==> decides(eq, native::<V::Item>()));
        Self::has_cancellation_by(top, bot, eq)
    }

    /// Tells whether multiplying `top` by `bot` would cancel a term, without
    /// multiplying: whether `eq` pairs a term of the bottom of `top` with one
    /// of the top of `bot`, or a term of the top of `top` with one of the
    /// bottom of `bot`.
    fn has_cancellation_by<F>(top: &Self, bot: &Self, eq: F) -> (any: bool) where
        V: Terms,
        F: FnMut(&V::Item, &V::Item) -> bool,

        requires
            total(eq),
        ensures
            forall|rel: spec_fn(V::Item, V::Item) -> bool| #[trigger]
                decides(eq, rel) ==> any == cancellable(
                    rel,
                    top.pair().sides(),
                    bot.pair().sides(),
                ),
    {
        let mut eq = eq;
        let a = top.cases();
        let b = bot.cases();
        if intersect(a.bot.as_terms(), b.top.as_terms(), &mut eq) {
            true
        } else {
            intersect(a.top.as_terms(), b.bot.as_terms(), &mut eq)
        }
    }
}

impl<V> Ratio<V> for RatioPair<V> {
    open spec fn pair(&self) -> RatioPair<V> {
        *self
    }

    fn new(top: V, bot: V) -> (r: Self) {
        RatioPair { top, bot }
    }

    fn cases(&self) -> (c: RatioPairRef<'_, V>) {
        RatioPairRef { top: &self.top, bot: &self.bot }
    }

    fn into_pair(self) -> (p: RatioPair<V>) {
        self
    }
}

impl<V> Ratio<V> for (V, V) {
    open spec fn pair(&self) -> RatioPair<V> {
        RatioPair { top: self.0, bot: self.1 }
    }

    fn new(top: V, bot: V) -> (r: Self) {
        (top, bot)
    }

    fn cases(&self) -> (c: RatioPairRef<'_, V>) {
        RatioPairRef { top: &self.0, bot: &self.1 }
    }

    fn into_pair(self) -> (p: RatioPair<V>) {
        RatioPair { top: self.0, bot: self.1 }
    }
}

impl<V> FromSpecImpl<(V, V)> for RatioPair<V> {
    open spec fn obeys_from_spec() -> bool {
        true
    }

    open spec fn from_spec(v: (V, V)) -> Self {
        RatioPair { top: v.0, bot: v.1 }
    }
}

impl<V> From<(V, V)> for RatioPair<V> {
    fn from(v: (V, V)) -> (p: Self) {
        RatioPair { top: v.0, bot: v.1 }
    }
}

} // verus!
