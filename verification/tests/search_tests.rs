use algokit::search::binary_search;
use algokit::search::binary_search_new;
use algokit::search::linear_search;

#[test]
fn lib_it_works() {
    let arr: &Vec<i64> = &vec![1, 2, 3, 4, 5, 6];
    let result = binary_search_new(arr, &6);
    assert_eq!(result, 5);
}

#[test]
fn lib_invalid_search_value() {
    let arr: &Vec<i64> = &vec![1, 2, 3, 4, 5, 6];
    let result = binary_search(arr, &66);
    assert_eq!(result, -1)
}

#[test]
fn binary_search_it_works() {
    let arr: &Vec<i64> = &vec![1, 2, 3, 4, 5, 6];
    let result = binary_search(arr, &6);
    assert_eq!(result, 5);
}

#[test]
fn binary_search_invalid_search_value() {
    let arr: &Vec<i64> = &vec![1, 2, 3, 4, 5, 6];
    let result = binary_search(arr, &66);
    assert_eq!(result, -1)
}

#[test]
fn search_num() {
    let arr = vec![1, 2, 3, 4, 5];
    let result = linear_search(&arr, &5);
    assert_eq!(result, 4);
}

#[test]
fn search_string() {
    let arr = vec!["a", "b", "cd", "ef"];
    let result = linear_search(&arr, &"ef");
    assert_eq!(result, 3);
}

#[test]
fn not_found_case_string() {
    let arr = vec!["a", "b", "cd", "ef"];
    let result = linear_search(&arr, &"efg");
    assert_eq!(result, -1);
}

#[test]
fn binary_search_empty_and_low_target() {
    let empty: Vec<i64> = Vec::new();
    assert_eq!(binary_search(&empty, &5), -1);
    let arr: Vec<i64> = vec![2, 4, 6];
    assert_eq!(binary_search(&arr, &1), -1);
    assert_eq!(binary_search_new(&arr, &1), -1);
    assert_eq!(binary_search(&arr, &7), -1);
}

#[test]
fn linear_search_first_match() {
    let arr = vec![3, 1, 3, 1];
    assert_eq!(linear_search(&arr, &3), 0);
    assert_eq!(linear_search(&arr, &1), 1);
}
