use ratio::{Ratio, RatioPair, RatioPairRef};

fn pair<T>(top: Vec<T>, bot: Vec<T>) -> RatioPair<Vec<T>> {
    RatioPair { top, bot }
}

fn dup<T: Clone>(value: &T) -> T {
    Clone::clone(value)
}

#[test]
fn compose_of_nothing_is_the_empty_ratio() {
    let unit: RatioPair<Vec<u32>> = Ratio::compose(Vec::new());
    assert_eq!(unit, pair(vec![], vec![]));
    let unit: RatioPair<Vec<String>> = Ratio::compose(Vec::new());
    assert_eq!(unit, pair(vec![], vec![]));
    let unit: (Vec<char>, Vec<char>) = Ratio::compose(Vec::new());
    assert_eq!(unit, (vec![], vec![]));
    let unit: (Vec<(u8, bool)>, Vec<(u8, bool)>) = Ratio::compose_by(Vec::new(), |_, _| true);
    assert_eq!(unit, (vec![], vec![]));
}

#[test]
fn compose_of_one_ratio_is_that_ratio() {
    let only = pair(vec![1, 2], vec![2, 1]);
    assert_eq!(RatioPair::compose(vec![dup(&only)]), only);
}

#[test]
fn compose_folds_from_the_left() {
    let r1 = pair(vec!["a", "b"], vec!["c", "d", "c"]);
    let r2 = pair(vec!["c", "e"], vec!["a", "f"]);
    let r3 = pair(vec!["f", "c", "x"], vec!["e", "b"]);
    let all = RatioPair::compose(vec![dup(&r1), dup(&r2), dup(&r3)]);
    let by_pairs = RatioPair::pair_compose(RatioPair::pair_compose(r1, r2), r3);
    assert_eq!(all, by_pairs);
    assert_eq!(all, pair(vec!["x", "e", "a", "b"], vec!["d", "a", "e", "b"]));
}

#[test]
fn compose_by_folds_from_the_left() {
    let same_parity = |l: &u32, r: &u32| l % 2 == r % 2;
    let r1 = pair(vec![1], vec![2, 3]);
    let r2 = pair(vec![4, 6], vec![5]);
    let r3 = pair(vec![7, 8], vec![9]);
    let all = RatioPair::compose_by(vec![dup(&r1), dup(&r2), dup(&r3)], same_parity);
    let by_pairs = RatioPair::pair_compose_by(
        RatioPair::pair_compose_by(r1, r2, same_parity),
        r3,
        same_parity,
    );
    assert_eq!(all, by_pairs);
    assert_eq!(all, pair(vec![8, 6, 1], vec![5, 9]));
}

#[test]
fn middle_term_cancels() {
    let product = RatioPair::pair_compose(pair(vec!["a"], vec!["b"]), pair(vec!["b"], vec!["c"]));
    assert_eq!(product, pair(vec!["a"], vec!["c"]));
}

#[test]
fn one_of_two_occurrences_cancels() {
    let product = RatioPair::pair_compose(pair(vec![], vec!["x", "x"]), pair(vec!["x"], vec![]));
    assert_eq!(product, pair(vec![], vec!["x"]));
}

#[test]
fn different_terms_do_not_cancel() {
    let product = RatioPair::pair_compose(pair(vec![], vec!["x"]), pair(vec!["y"], vec![]));
    assert_eq!(product, pair(vec!["y"], vec!["x"]));
}

#[test]
fn residues_stand_in_front_of_the_untouched_sides() {
    let product = RatioPair::pair_compose(
        pair(vec![1, 2], vec![3, 4, 5]),
        pair(vec![6, 4, 7], vec![8, 9]),
    );
    assert_eq!(product, pair(vec![6, 7, 1, 2], vec![3, 5, 8, 9]));
}

#[test]
fn pair_compose_on_plain_pairs() {
    let product = <(Vec<u8>, Vec<u8>)>::pair_compose((vec![1], vec![2, 2]), (vec![2, 3], vec![4]));
    assert_eq!(product, (vec![3, 1], vec![2, 4]));
}

#[test]
fn pair_compose_by_a_comparison() {
    let product = RatioPair::pair_compose_by(
        pair(vec!["A"], vec!["b", "C"]),
        pair(vec!["B", "d"], vec!["e"]),
        |l: &&str, r: &&str| l.eq_ignore_ascii_case(r),
    );
    assert_eq!(product, pair(vec!["d", "A"], vec!["C", "e"]));
}

#[test]
fn the_empty_ratio_is_a_unit() {
    let r = pair(vec![1, 2], vec![3]);
    assert_eq!(RatioPair::pair_compose(pair(vec![], vec![]), dup(&r)), r);
    assert_eq!(RatioPair::pair_compose(dup(&r), pair(vec![], vec![])), r);
}

#[test]
fn reverse_swaps_the_sides() {
    assert_eq!(pair(vec![1], vec![2, 3]).reverse(), pair(vec![2, 3], vec![1]));
    assert_eq!((vec![1], vec![2, 3]).reverse(), (vec![2, 3], vec![1]));
}

#[test]
fn reverse_twice_is_the_identity() {
    let r = pair(vec!["a", "b"], vec!["c"]);
    assert_eq!(dup(&r).reverse().reverse(), r);
    let t = (vec![1u8], Vec::<u8>::new());
    assert_eq!(dup(&t).reverse().reverse(), t);
}

#[test]
fn new_and_accessors() {
    let r: RatioPair<Vec<u8>> = Ratio::new(vec![1], vec![2]);
    assert_eq!(r.top, vec![1]);
    assert_eq!(r.bot, vec![2]);
    assert_eq!(r.top_ref(), &vec![1]);
    assert_eq!(r.bot_ref(), &vec![2]);
    assert_eq!(r.cases(), RatioPairRef { top: &vec![1], bot: &vec![2] });
    assert_eq!(dup(&r).top(), vec![1]);
    assert_eq!(dup(&r).bot(), vec![2]);
    assert_eq!(dup(&r).into_pair(), r);
    let t: (Vec<u8>, Vec<u8>) = Ratio::new(vec![1], vec![2]);
    assert_eq!(t, (vec![1], vec![2]));
    assert_eq!(t.top_ref(), &vec![1]);
    assert_eq!(t.bot_ref(), &vec![2]);
    assert_eq!(t.cases(), RatioPairRef { top: &vec![1], bot: &vec![2] });
    assert_eq!(dup(&t).top(), vec![1]);
    assert_eq!(dup(&t).bot(), vec![2]);
    assert_eq!(t.into_pair(), r);
}

#[test]
fn from_pair_and_from_tuple() {
    let r = pair(vec![1], vec![2]);
    assert_eq!(<(Vec<i32>, Vec<i32>)>::from_pair(dup(&r)), (vec![1], vec![2]));
    assert_eq!(RatioPair::from_pair(dup(&r)), r);
    assert_eq!(RatioPair::from((vec![1], vec![2])), r);
    let into: RatioPair<Vec<i32>> = (vec![1], vec![2]).into();
    assert_eq!(into, r);
}

#[test]
fn default_ratio_has_default_sides() {
    let r: RatioPair<Vec<u8>> = Ratio::default();
    assert_eq!(r, pair(vec![], vec![]));
    let t: (u32, u32) = Ratio::default();
    assert_eq!(t, (0, 0));
}

#[test]
fn clone_copies_both_sides() {
    let r = pair(vec![String::from("a")], vec![String::from("b")]);
    assert_eq!(Ratio::clone(&r), r);
    let t = (vec![1], vec![2]);
    assert_eq!(Ratio::clone(&t), t);
}

#[test]
fn eq_compares_top_with_top_and_bot_with_bot() {
    let r = pair(vec![1], vec![2]);
    assert!(Ratio::eq(&r, (vec![1], vec![2]).cases()));
    assert!(Ratio::eq(&r, r.cases()));
    assert!(!Ratio::eq(&r, (vec![2], vec![1]).cases()));
    assert!(!Ratio::eq(&r, (vec![1], vec![3]).cases()));
    assert!(!Ratio::eq(&r, (vec![0], vec![2]).cases()));
}

#[test]
fn eq_by_compares_sides_with_the_comparison() {
    let r = pair(vec![1, 2], vec![3]);
    let s = (vec!["a", "b"], vec!["c"]);
    let same_len = |l: &Vec<i32>, r: &Vec<&str>| l.len() == r.len();
    assert!(r.eq_by(s.cases(), same_len));
    assert!(!r.eq_by((vec!["a"], vec!["c"]).cases(), same_len));
    assert!(!r.eq_by((vec!["a", "b"], vec![]).cases(), same_len));
}

#[test]
fn eq_by_asks_about_the_top_first() {
    let r = pair(vec![1], vec![2]);
    let mut asked = Vec::new();
    let same = r.eq_by(pair(vec![1], vec![3]).cases(), |l: &Vec<i32>, r: &Vec<i32>| {
        asked.push((l.clone(), r.clone()));
        l == r
    });
    assert!(!same);
    assert_eq!(asked, vec![(vec![1], vec![1]), (vec![2], vec![3])]);
    let mut asked = Vec::new();
    let same = r.eq_by(pair(vec![0], vec![2]).cases(), |l: &Vec<i32>, r: &Vec<i32>| {
        asked.push((l.clone(), r.clone()));
        l == r
    });
    assert!(!same);
    assert_eq!(asked, vec![(vec![1], vec![0])]);
}

#[test]
fn cancellation_between_bottom_and_top() {
    assert!(RatioPair::has_cancellation(&pair(vec![1], vec![2]), &pair(vec![2], vec![3])));
}

#[test]
fn cancellation_between_top_and_bottom() {
    assert!(RatioPair::has_cancellation(&pair(vec![1], vec![2]), &pair(vec![3], vec![1])));
}

#[test]
fn no_cancellation_between_unrelated_ratios() {
    assert!(!RatioPair::has_cancellation(&pair(vec![1], vec![2]), &pair(vec![3], vec![4])));
    assert!(!RatioPair::has_cancellation(&pair(vec![1], vec![2]), &pair(vec![1], vec![2])));
    assert!(!RatioPair::<Vec<u8>>::has_cancellation(&pair(vec![], vec![]), &pair(vec![], vec![])));
}

#[test]
fn cancellation_by_a_comparison() {
    let same_parity = |l: &u32, r: &u32| l % 2 == r % 2;
    let a = (vec![1], vec![2]);
    assert!(<(Vec<u32>, Vec<u32>)>::has_cancellation_by(&a, &(vec![4], vec![6]), same_parity));
    assert!(<(Vec<u32>, Vec<u32>)>::has_cancellation_by(&a, &(vec![3], vec![5]), same_parity));
    assert!(!<(Vec<u32>, Vec<u32>)>::has_cancellation_by(&a, &(vec![3], vec![4]), same_parity));
}

#[test]
fn cancellation_tells_whether_the_product_is_shorter() {
    let a = pair(vec![1, 2], vec![3, 4]);
    let b = pair(vec![4, 5], vec![6]);
    assert!(RatioPair::has_cancellation(&a, &b));
    let product = RatioPair::pair_compose(dup(&a), dup(&b));
    assert!(product.top.len() + product.bot.len() < a.top.len() + a.bot.len() + b.top.len() + b.bot.len());
}
