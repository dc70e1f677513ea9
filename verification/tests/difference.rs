use ratio::util::{
    has_intersection, has_intersection_by, multiset_symmetric_difference,
    multiset_symmetric_difference_by,
};

#[test]
fn difference_of_empty_left_keeps_right() {
    let (left, right) = multiset_symmetric_difference(Vec::<u32>::new(), vec![3, 1, 3]);
    assert_eq!(left, Vec::<u32>::new());
    assert_eq!(right, vec![3, 1, 3]);
}

#[test]
fn difference_of_empty_right_keeps_left() {
    let (left, right) = multiset_symmetric_difference(vec![3, 1, 3], Vec::<u32>::new());
    assert_eq!(left, vec![3, 1, 3]);
    assert_eq!(right, Vec::<u32>::new());
}

#[test]
fn difference_of_two_empty_sides_is_empty() {
    let (left, right) = multiset_symmetric_difference(Vec::<u8>::new(), Vec::<u8>::new());
    assert!(left.is_empty());
    assert!(right.is_empty());
}

#[test]
fn one_occurrence_cancels_one_occurrence() {
    let (left, right) = multiset_symmetric_difference(vec!["x", "x"], vec!["x"]);
    assert_eq!(left, vec!["x"]);
    assert_eq!(right, Vec::<&str>::new());
    let (left, right) = multiset_symmetric_difference(vec!["x"], vec!["x", "x", "x"]);
    assert_eq!(left, Vec::<&str>::new());
    assert_eq!(right, vec!["x", "x"]);
}

#[test]
fn equal_sides_cancel_whole() {
    let (left, right) = multiset_symmetric_difference(vec![1, 2, 2, 3], vec![2, 3, 1, 2]);
    assert_eq!(left, Vec::<i32>::new());
    assert_eq!(right, Vec::<i32>::new());
}

#[test]
fn residues_keep_the_order_of_their_side() {
    let (left, right) = multiset_symmetric_difference(vec![1, 2, 3, 2, 4], vec![2, 5, 3, 6]);
    assert_eq!(left, vec![1, 2, 4]);
    assert_eq!(right, vec![5, 6]);
}

#[test]
fn earlier_occurrences_cancel_first() {
    let left = vec![("a", 1), ("b", 2), ("a", 3)];
    let right = vec![("a", 10), ("c", 20), ("a", 30), ("a", 40)];
    let (left, right) = multiset_symmetric_difference_by(left, right, |l, r| l.0 == r.0);
    assert_eq!(left, vec![("b", 2)]);
    assert_eq!(right, vec![("c", 20), ("a", 40)]);
}

#[test]
fn disjoint_sides_are_left_unchanged() {
    let (left, right) = multiset_symmetric_difference(vec![1, 2], vec![3, 4]);
    assert_eq!(left, vec![1, 2]);
    assert_eq!(right, vec![3, 4]);
}

#[test]
fn difference_by_a_comparison_that_is_not_equality() {
    let (left, right) =
        multiset_symmetric_difference_by(vec![10, 21, 32], vec![42, 13], |l, r| l % 10 == r % 10);
    assert_eq!(left, vec![10, 21]);
    assert_eq!(right, vec![13]);
}

#[test]
fn difference_by_a_comparison_that_is_not_symmetric() {
    // Each left term consumes the first free right term that is not below it.
    let (left, right) = multiset_symmetric_difference_by(vec![5, 1, 9], vec![3, 7, 2], |l, r| l <= r);
    assert_eq!(left, vec![9]);
    assert_eq!(right, vec![2]);
}

#[test]
fn difference_by_a_comparison_that_accepts_nothing() {
    let (left, right) = multiset_symmetric_difference_by(vec![1, 1], vec![1, 1], |_, _| false);
    assert_eq!(left, vec![1, 1]);
    assert_eq!(right, vec![1, 1]);
}

#[test]
fn difference_by_a_comparison_that_accepts_everything() {
    let (left, right) = multiset_symmetric_difference_by(vec![1, 2, 3], vec![7, 8], |_, _| true);
    assert_eq!(left, vec![3]);
    assert_eq!(right, Vec::<i32>::new());
}

#[test]
fn cancellation_takes_as_many_from_each_side() {
    let left = vec![4, 4, 5, 6, 4, 7];
    let right = vec![4, 6, 6, 4, 8];
    let (left_rest, right_rest) = multiset_symmetric_difference(left.clone(), right.clone());
    assert_eq!(left.len() - left_rest.len(), right.len() - right_rest.len());
    assert_eq!(left_rest, vec![5, 4, 7]);
    assert_eq!(right_rest, vec![6, 8]);
}

#[test]
fn intersection_of_sides_that_share_a_term() {
    assert!(has_intersection(&[1, 2, 3], &[5, 3]));
    assert!(has_intersection(&["a"], &["a"]));
}

#[test]
fn no_intersection_of_disjoint_or_empty_sides() {
    assert!(!has_intersection(&[1, 2, 3], &[4, 5]));
    assert!(!has_intersection::<u8>(&[], &[4, 5]));
    assert!(!has_intersection::<u8>(&[4, 5], &[]));
    assert!(!has_intersection::<u8>(&[], &[]));
}

#[test]
fn intersection_by_a_comparison() {
    assert!(has_intersection_by(&[11, 22], &[35, 42], |l, r| l % 10 == r % 10));
    assert!(!has_intersection_by(&[11, 22], &[35, 44], |l, r| l % 10 == r % 10));
    assert!(!has_intersection_by(&[1, 2], &[1, 2], |_, _| false));
}

#[test]
fn intersection_tells_whether_the_difference_cancels() {
    let cases: Vec<(Vec<i32>, Vec<i32>)> = vec![
        (vec![], vec![]),
        (vec![1], vec![2]),
        (vec![1, 2], vec![2]),
        (vec![3, 3], vec![3, 3, 3]),
        (vec![1, 2, 3], vec![4, 5, 6]),
    ];
    for (left, right) in cases {
        let meets = has_intersection(&left, &right);
        let (rest, _) = multiset_symmetric_difference(left.clone(), right);
        assert_eq!(meets, rest.len() < left.len());
    }
}
