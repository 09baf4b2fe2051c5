use algokit::brackets::balanced_paranthesis;
use algokit::equilibrium::equilibirum;
use algokit::missing::missing_element;
use algokit::xor_unique::find_unique;

#[test]
fn equilibirium_test_equilibirium() {
    assert_eq!(equilibirum(vec![1, 2, 0, 3]), 2);
    assert_eq!(equilibirum(vec![1, 1, 1, 1, 1, 1]), -1);
    assert_eq!(equilibirum(vec![1, 1, 1, 1, 1]), 2);
    assert_eq!(equilibirum(vec![-7, 1, 5, 2, -4, 3, 0]), 3);
}

#[test]
fn equilibirium_edges() {
    assert_eq!(equilibirum(Vec::new()), -1);
    assert_eq!(equilibirum(vec![5]), 0);
    assert_eq!(equilibirum(vec![0, 0]), 0);
    assert_eq!(equilibirum(vec![1, 2]), -1);
    assert_eq!(equilibirum(vec![0, 7, 0]), 1);
}

#[test]
fn missing_element_test_equilibirium() {
    assert_eq!(missing_element(vec![1, 2, 3, 5]), 4);
    assert_eq!(missing_element(vec![8, 2, 4, 5, 3, 7, 1]), 6);
    assert_eq!(missing_element(vec![1]), 2);
}

#[test]
fn missing_element_first_missing() {
    assert_eq!(missing_element(vec![2, 3, 4]), 1);
    assert_eq!(missing_element(vec![1, 2, 3]), 4);
}

#[test]
fn paranthesis_checker_test_equilibirium() {
    assert_eq!(balanced_paranthesis("[{()}]"), true);
    assert_eq!(balanced_paranthesis("[()()]{}"), true);
    assert_eq!(balanced_paranthesis("([]"), false);
    assert_eq!(balanced_paranthesis("([{]})"), false);
}

#[test]
fn paranthesis_checker_edges() {
    assert_eq!(balanced_paranthesis(""), true);
    assert_eq!(balanced_paranthesis("a"), false);
    assert_eq!(balanced_paranthesis("(a)"), false);
    assert_eq!(balanced_paranthesis(")("), false);
    assert_eq!(balanced_paranthesis("{[()]}"), true);
}

#[test]
fn test_find_unique() {
    assert_eq!(find_unique(vec![1, 2, 1, 5, 5]), 2);
    assert_eq!(find_unique(vec![2, 30, 2, 15, 20, 30, 15]), 20);
}

#[test]
fn find_unique_single() {
    assert_eq!(find_unique(vec![42]), 42);
    assert_eq!(find_unique(Vec::new()), 0);
}
