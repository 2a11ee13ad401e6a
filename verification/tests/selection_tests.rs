//! Selector parsing: detaching `[...]` from a token's text and reading
//! the selection it names.

use smsh::selection::{determine_selection, get_selector, Selection, _get_selection};

#[test]
fn get_selector_test_some_1() {
    let (text, selector) = get_selector("{cmds}[0]").unwrap();
    assert_eq!(text, "{cmds}".to_string());
    assert_eq!(selector, "0".to_string());
}

#[test]
fn get_selector_test_some_2() {
    let (text, selector) = get_selector("{cmds}[0..]").unwrap();
    assert_eq!(text, "{cmds}".to_string());
    assert_eq!(selector, "0..".to_string());
}

#[test]
fn get_selector_test_some_3() {
    let (text, selector) = get_selector("{cmds}[0..2]").unwrap();
    assert_eq!(text, "{cmds}".to_string());
    assert_eq!(selector, "0..2".to_string());
}

#[test]
fn get_selector_test_some_4() {
    let (text, selector) = get_selector("{cmds}[..2]").unwrap();
    assert_eq!(text, "{cmds}".to_string());
    assert_eq!(selector, "..2".to_string());
}

#[test]
fn get_selector_test_none_1() {
    assert_eq!(None, get_selector("{cmds}"));
}

#[test]
fn get_selector_test_none_2() {
    assert_eq!(None, get_selector("{cmds}["));
}

#[test]
fn get_selector_test_none_3() {
    assert_eq!(None, get_selector("{cmds}]"));
}

#[test]
fn get_selector_test_none_4() {
    assert_eq!(None, get_selector("{cmds}[]"));
}

#[test]
fn determine_selection_1() {
    assert_eq!(Selection::Index(0), determine_selection("0").unwrap());
}

#[test]
fn determine_selection_2() {
    assert_eq!(Selection::Index(10), determine_selection("10").unwrap());
}

#[test]
fn determine_selection_3() {
    assert_eq!(Selection::Slice(0, 5), determine_selection("0..5").unwrap());
}

#[test]
fn determine_selection_4() {
    assert_eq!(
        Selection::Slice(0, 10),
        determine_selection("0..10").unwrap()
    );
}

#[test]
fn determine_selection_5() {
    assert_eq!(
        Selection::Slice(10, 10),
        determine_selection("10..10").unwrap()
    );
}

#[test]
fn determine_selection_6() {
    assert_eq!(
        Selection::LessThan(10),
        determine_selection("..10").unwrap()
    );
}

#[test]
fn determine_selection_7() {
    assert_eq!(
        Selection::GreaterThan(3),
        determine_selection("3..").unwrap()
    );
}

#[test]
fn determine_selection_8() {
    assert!(determine_selection("1...10").is_err());
}

#[test]
fn determine_selection_9() {
    assert!(determine_selection("...10").is_err());
}

#[test]
fn determine_selection_10() {
    assert!(determine_selection("10...").is_err());
}

#[test]
fn determine_selection_11() {
    assert!(determine_selection("a...b").is_err());
}

#[test]
fn _get_selection_test_1() {
    assert_eq!(
        Selection::Index(0),
        _get_selection("0".to_string()).unwrap()
    );
}

#[test]
fn _get_selection_test_2() {
    assert_eq!(
        Selection::Index(10),
        _get_selection("10".to_string()).unwrap()
    );
}

#[test]
fn _get_selection_test_3() {
    assert_eq!(
        Selection::Slice(0, 5),
        _get_selection("0..5".to_string()).unwrap()
    );
}

#[test]
fn _get_selection_test_4() {
    assert_eq!(
        Selection::Slice(0, 10),
        _get_selection("0..10".to_string()).unwrap()
    );
}

#[test]
fn _get_selection_test_5() {
    assert_eq!(
        Selection::Slice(10, 10),
        _get_selection("10..10".to_string()).unwrap()
    );
}

#[test]
fn _get_selection_test_6() {
    assert_eq!(
        Selection::Slice(0, 10),
        _get_selection("..10".to_string()).unwrap()
    );
}

#[test]
fn _get_selection_test_7() {
    assert_eq!(
        Selection::Slice(3, 0),
        _get_selection("3..".to_string()).unwrap()
    );
}

#[test]
fn _get_selection_test_8() {
    assert!(_get_selection("1...10".to_string()).is_err());
}

#[test]
fn _get_selection_test_9() {
    assert!(_get_selection("...10".to_string()).is_err());
}

#[test]
fn _get_selection_test_10() {
    assert!(_get_selection("10...".to_string()).is_err());
}

#[test]
fn _get_selection_test_11() {
    assert!(_get_selection("a...b".to_string()).is_err());
}

#[test]
fn oversized_selector_bound_is_invalid() {
    // A bound that cannot fit this machine's word size is rejected
    // rather than wrapped.
    assert!(determine_selection("99999999999999999999999").is_err());
}
