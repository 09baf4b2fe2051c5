use algokit::two_sum::two_num_sum;

#[test]
fn lib_test_two_num_sum() {
    // Basic test
    assert_eq!(two_num_sum(&vec![2, 7, 11, 15], 9).len(), 2);
    assert!(
        vec![2, 7] == two_num_sum(&vec![2, 7, 11, 15], 9)
            || vec![7, 2] == two_num_sum(&vec![2, 7, 11, 15], 9)
    );

    // Test with negative numbers
    assert!(
        vec![-1, 5] == two_num_sum(&vec![1, -1, 2, 5], 4)
            || vec![5, -1] == two_num_sum(&vec![1, -1, 2, 5], 4)
    );

    // Test with no solution
    assert_eq!(two_num_sum(&vec![1, 2, 3], 10), Vec::<i64>::new());

    // Test with duplicate numbers
    assert!(vec![2, 2] == two_num_sum(&vec![2, 2, 3], 4));
}

#[test]
fn two_num_sum_test_two_num_sum() {
    // Basic test
    assert_eq!(two_num_sum(&vec![2, 7, 11, 15], 9).len(), 2);
    assert!(
        vec![2, 7] == two_num_sum(&vec![2, 7, 11, 15], 9)
            || vec![7, 2] == two_num_sum(&vec![2, 7, 11, 15], 9)
    );

    // Test with negative numbers
    assert!(
        vec![-1, 5] == two_num_sum(&vec![1, -1, 2, 5], 4)
            || vec![5, -1] == two_num_sum(&vec![1, -1, 2, 5], 4)
    );

    // Test with no solution
    assert_eq!(two_num_sum(&vec![1, 2, 3], 10), Vec::<i64>::new());

    // Test with duplicate numbers
    assert!(vec![2, 2] == two_num_sum(&vec![2, 2, 3], 4));
}

#[test]
fn two_num_sum_empty_input() {
    assert_eq!(two_num_sum(&Vec::new(), 0), Vec::<i64>::new());
    assert_eq!(two_num_sum(&vec![5], 10), Vec::<i64>::new());
}
