//! The line scanner: carving raw lines into parts, and the parse
//! errors malformed quoting and bracing produce.

use smsh::error::ShellError;
use smsh::scan::{get_parts, get_tokens};

#[test]
fn get_parts_1() {
    let line = "";
    assert_eq!(Vec::<String>::new(), get_parts(line).unwrap());
}

#[test]
fn get_parts_2() {
    let line = "echo one two three";
    let v = vec![
        "echo".to_string(),
        "one".to_string(),
        "two".to_string(),
        "three".to_string(),
    ];
    assert_eq!(v, get_parts(line).unwrap());
}

#[test]
fn get_parts_3() {
    let line = "echo   one two three  ";
    let v = vec![
        "echo".to_string(),
        "one".to_string(),
        "two".to_string(),
        "three".to_string(),
    ];
    assert_eq!(v, get_parts(line).unwrap());
}

#[test]
fn get_parts_keeps_quotes_and_braces() {
    let v = get_parts("echo 'a b' \"c d\" !{cat file} {v}[2]").unwrap();
    assert_eq!(
        v,
        vec![
            "echo".to_string(),
            "'a b'".to_string(),
            "\"c d\"".to_string(),
            "!{cat file}".to_string(),
            "{v}[2]".to_string(),
        ]
    );
}

#[test]
fn get_parts_nested_braces() {
    let v = get_parts("!{{a} {b}} tail").unwrap();
    assert_eq!(v, vec!["!{{a} {b}}".to_string(), "tail".to_string()]);
}

#[test]
fn get_words_unmatched_single_quote_fails() {
    let r = get_tokens("echo 'abc");
    assert!(r.is_err());
    assert!(r.unwrap_err().is_parse_error());
}

#[test]
fn get_words_unmatched_brace_fails() {
    let r = get_tokens("echo {abc");
    assert!(r.is_err());
    assert!(r.unwrap_err().is_parse_error());
}

#[test]
fn get_parts_unmatched_single_quote_fails() {
    assert_eq!(get_parts("echo 'abc"), Err(ShellError::UnmatchedSingleQuote));
}

#[test]
fn get_parts_unmatched_brace_fails() {
    assert_eq!(get_parts("echo {abc"), Err(ShellError::UnmatchedBrace));
}

#[test]
fn get_parts_unmatched_double_quote_fails() {
    assert_eq!(get_parts("echo \"abc"), Err(ShellError::UnmatchedDoubleQuote));
}

#[test]
fn get_parts_trailing_escape_fails() {
    assert_eq!(get_parts("echo abc\\"), Err(ShellError::TrailingEscape));
}
