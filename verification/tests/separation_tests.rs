//! Separator annotations: detaching a trailing `S="..."`.

use smsh::separation::{get_separator, Separator};

#[test]
fn get_separator_test_1() {
    let text = "echo";

    assert_eq!(
        ("echo".to_string(), Separator::Whitespace),
        get_separator(text)
    );
}

#[test]
fn get_separator_test_2() {
    let text = "e{PATH}S=\":\"";

    assert_eq!(
        ("e{PATH}".to_string(), Separator::Arbitrary(":".to_string())),
        get_separator(text)
    );
}

#[test]
fn get_separator_empty_separator_is_no_annotation() {
    let text = "e{PATH}S=\"\"";
    assert_eq!((text.to_string(), Separator::Whitespace), get_separator(text));
}

#[test]
fn get_separator_needs_a_prefix() {
    let text = "S=\":\"";
    assert_eq!((text.to_string(), Separator::Whitespace), get_separator(text));
}
