use parity_paradigms::paradigms::{
    declarative_example, declarative_squares, functional_example, functional_squares,
    imperative_example, imperative_squares, is_even, sample_numbers, square,
};

#[test]
fn sample_is_one_to_six() {
    assert_eq!(sample_numbers(), vec![1, 2, 3, 4, 5, 6]);
}

#[test]
fn all_styles_give_squares_of_evens() {
    assert_eq!(imperative_example(), vec![4, 16, 36]);
    assert_eq!(declarative_example(), vec![4, 16, 36]);
    assert_eq!(functional_example(), vec![4, 16, 36]);
}

#[test]
fn repeated_runs_are_identical() {
    for _ in 0..3 {
        assert_eq!(format!("{:?}", imperative_example()), "[4, 16, 36]");
        assert_eq!(format!("{:?}", declarative_example()), "[4, 16, 36]");
        assert_eq!(format!("{:?}", functional_example()), "[4, 16, 36]");
    }
}

#[test]
fn reversed_sample_keeps_encounter_order() {
    let reversed = vec![6, 5, 4, 3, 2, 1];
    assert_eq!(imperative_squares(&reversed), vec![36, 16, 4]);
    assert_eq!(declarative_squares(&reversed), vec![36, 16, 4]);
    assert_eq!(functional_squares(&reversed), vec![36, 16, 4]);
}

#[test]
fn empty_and_all_odd_give_nothing() {
    let empty: Vec<i32> = Vec::new();
    let odd = vec![1, 3, -5, 7];
    assert!(imperative_squares(&empty).is_empty());
    assert!(declarative_squares(&odd).is_empty());
    assert!(functional_squares(&odd).is_empty());
}

#[test]
fn negative_evens_are_squared() {
    let numbers = vec![-4, -3, 0, 9, 46340];
    let expected = vec![16, 0, 2147395600];
    assert_eq!(imperative_squares(&numbers), expected);
    assert_eq!(declarative_squares(&numbers), expected);
    assert_eq!(functional_squares(&numbers), expected);
}

#[test]
fn large_odd_elements_need_no_room() {
    let numbers = vec![i32::MAX, 2, i32::MIN + 1];
    assert_eq!(imperative_squares(&numbers), vec![4]);
    assert_eq!(functional_squares(&numbers), vec![4]);
}

#[test]
fn named_parts() {
    assert!(is_even(0));
    assert!(is_even(-2));
    assert!(!is_even(-3));
    assert_eq!(square(-7), 49);
    assert_eq!(square(12), 144);
}
