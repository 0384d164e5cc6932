use heapcheck::exercises::{
    add, add_sub, calculate_length, calculate_length_and_modify, calculate_length_full_ownership,
    largest, longest,
};
use heapcheck::tokens::contains_value;

#[test]
fn add_sums() {
    assert_eq!(add(2, 3), 5);
    assert_eq!(add(-4, 4), 0);
}

#[test]
fn add_sub_pairs() {
    assert_eq!(add_sub(10, 4), (14, 6));
    assert_eq!(add_sub(0, 7), (7, -7));
}

#[test]
fn lengths() {
    let mut word = String::from("hello");
    word += " world";
    assert_eq!(calculate_length(&word), 11);

    let appended = calculate_length_and_modify(&mut word);
    assert_eq!(word, "hello world (modified)");
    assert_eq!(appended, 22);

    assert_eq!(calculate_length_full_ownership(word), 22);
}

#[test]
fn largest_of_vector() {
    let numbers = vec![34, 50, 12, 87, 99];
    assert_eq!(largest(&numbers), 99);

    let single = vec![-3];
    assert_eq!(largest(&single), -3);

    let repeated = vec![7, 7, 7];
    assert_eq!(largest(&repeated), 7);
}

#[test]
fn longest_of_two() {
    assert_eq!(longest("short", "longer string"), "longer string");
    assert_eq!(longest("longer string", "short"), "longer string");
    // Ties go to the second argument.
    assert_eq!(longest("abc", "xyz"), "xyz");
}

#[test]
fn finds_token() {
    let with_token = vec![1, 7, 6, 7, 67];
    assert!(contains_value(&with_token, 67));

    let without_token = vec![1, 3, 5, 7, 8];
    assert!(!contains_value(&without_token, 67));

    let empty: Vec<i32> = vec![];
    assert!(!contains_value(&empty, 67));
}
