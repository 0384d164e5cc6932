use heapcheck::checker::{check_case, check_case_strict, CheckError, PositionTable, MAX_CASE_LEN};

#[test]
fn identity_is_yes() {
    // Every index maps to itself: always YES.
    let v: Vec<usize> = vec![1, 2, 3, 4, 5, 6, 7];
    assert!(check_case(&v));
}

#[test]
fn single_element_yes() {
    let v: Vec<usize> = vec![1];
    assert!(check_case(&v));
}

#[test]
fn five_elements_yes() {
    let v: Vec<usize> = vec![1, 4, 3, 2, 5];
    assert!(check_case(&v));
}

#[test]
fn five_elements_no() {
    let v: Vec<usize> = vec![1, 4, 2, 3, 5];
    assert!(!check_case(&v));
}

#[test]
fn three_elements_yes() {
    let v: Vec<usize> = vec![2, 1, 3];
    assert!(check_case(&v));
}

#[test]
fn four_elements_yes() {
    let v: Vec<usize> = vec![2, 4, 3, 1];
    assert!(check_case(&v));
}

#[test]
fn checker_is_idempotent() {
    // Two runs on the same input give the same verdict and leave the
    // input untouched.
    let v: Vec<usize> = vec![1, 4, 3, 2, 5];
    let first = check_case(&v);
    let second = check_case(&v);
    assert_eq!(first, second);
    assert_eq!(v, vec![1, 4, 3, 2, 5]);

    let w: Vec<usize> = vec![1, 4, 2, 3, 5];
    assert_eq!(check_case(&w), check_case(&w));
}

#[test]
fn scratch_table_does_not_leak_between_cases() {
    // Running case A then case B on one table gives the same verdict for
    // B as running B alone on a fresh table.
    let a: Vec<usize> = vec![1, 4, 2, 3, 5];
    let b: Vec<usize> = vec![2, 4, 3, 1];

    let mut reused = PositionTable::new();
    let _ = reused.check_case(&a);
    let b_after_a = reused.check_case(&b);

    let mut fresh = PositionTable::new();
    let b_alone = fresh.check_case(&b);

    assert_eq!(b_after_a, b_alone);
    assert_eq!(b_after_a, check_case(&b));
}

#[test]
fn scratch_table_matches_fresh_table() {
    let cases: Vec<Vec<usize>> = vec![
        vec![1],
        vec![1, 4, 3, 2, 5],
        vec![1, 4, 2, 3, 5],
        vec![2, 1, 3],
        vec![2, 4, 3, 1],
        vec![1, 2, 3, 4, 5, 6, 7, 8],
    ];
    let mut table = PositionTable::new();
    for case in &cases {
        assert_eq!(table.check_case(case), check_case(case));
    }
}

#[test]
fn strict_accepts_permutations() {
    let v: Vec<usize> = vec![2, 1, 3];
    assert_eq!(check_case_strict(&v), Ok(true));

    let w: Vec<usize> = vec![1, 4, 2, 3, 5];
    assert_eq!(check_case_strict(&w), Ok(false));
}

#[test]
fn strict_rejects_duplicate_values() {
    let v: Vec<usize> = vec![2, 2];
    assert_eq!(check_case_strict(&v), Err(CheckError::InvalidInput));
}

#[test]
fn strict_rejects_out_of_range_values() {
    let v: Vec<usize> = vec![3, 1];
    assert_eq!(check_case_strict(&v), Err(CheckError::InvalidInput));

    let w: Vec<usize> = vec![0, 1];
    assert_eq!(check_case_strict(&w), Err(CheckError::InvalidInput));
}

#[test]
fn strict_rejects_oversized_cases() {
    let v: Vec<usize> = vec![1; MAX_CASE_LEN + 1];
    assert_eq!(check_case_strict(&v), Err(CheckError::InvalidInput));
}

#[test]
fn largest_case_size_runs() {
    // The identity permutation at the table's full capacity.
    let n = MAX_CASE_LEN;
    let mut v: Vec<usize> = Vec::with_capacity(n);
    for i in 1..=n {
        v.push(i);
    }
    let mut table = PositionTable::new();
    assert!(table.check_case(&v));
    assert!(check_case(&v));
}
