//! Logical-line completeness: a line continues while a quote is open,
//! an escaped newline ends it, or a pipe operator trails.

use smsh::sources::{contains_finished_block, is_complete, is_shell_construct, SmshLineValidator};

#[test]
fn determine_completeness_1() {
    let text = "echo one two three four";
    assert!(is_complete(text))
}

#[test]
fn determine_completeness_2() {
    let text = "echo one two | cat";
    assert!(is_complete(text))
}

#[test]
fn determine_completeness_3() {
    let text = "echo \"one two\" | cat";
    assert!(is_complete(text))
}

#[test]
fn determine_completeness_4() {
    let text = "echo \'one two\' | cat";
    assert!(is_complete(text))
}

#[test]
fn determine_completeness_5() {
    let text = "echo \"!{cat file}\" | cat";
    assert!(is_complete(text))
}

#[test]
fn determine_completeness_6() {
    let text = "echo \"!{cat file}\" |";
    assert!(!is_complete(text))
}

#[test]
fn determine_completeness_7() {
    let text = "echo '!{cat file}' |     ";
    assert!(!is_complete(text))
}

#[test]
fn determine_completeness_8() {
    let text = "echo \"!{cat file} ";
    assert!(!is_complete(text))
}

#[test]
fn determine_completeness_9() {
    let text = "echo '!{cat file} ";
    assert!(!is_complete(text))
}

#[test]
fn determine_completeness_10() {
    let text = "echo '!{cat file}' | cat \\";
    assert!(!is_complete(text))
}

#[test]
fn determine_completeness_11() {
    let text = "echo '!{cat file}' | cat \\
";
    assert!(!is_complete(text))
} // Line ends with escaped newline -> false

#[test]
fn determine_completeness_12() {
    let text = "echo '!{cat file}' | cat \\  ";
    assert!(is_complete(text))
} // Line ends with escaped whitespace -> true

#[test]
fn determine_completeness_13() {
    let text = "echo '!{cat file}' | cat \\\n";
    assert!(!is_complete(text))
} // Line ends with escaped newline -> false

#[test]
fn determine_completeness_14() {
    let text = "echo '!{cat file}' | cat \\\n echo one two three";
    assert!(is_complete(text))
}

#[test]
fn determine_completeness_15() {
    let text = "echo '!{cat file}' | cat \\\n echo one two three\n";
    assert!(is_complete(text))
}

#[test]
fn determine_completeness_16() {
    let text = "echo '!{cat file}' | \"";
    assert!(!is_complete(text))
}

#[test]
fn determine_completeness_17() {
    let text = "echo '!{cat file}' | \\\n\"";
    assert!(!is_complete(text))
}

#[test]
fn determine_completeness_18() {
    let text = "echo '!{cat file}' \\\n\"";
    assert!(!is_complete(text))
}

#[test]
fn determine_completeness_19() {
    let text = "echo '!{cat file}' \" \\\n\"";
    assert!(is_complete(text))
}

#[test]
fn determine_completeness_20() {
    let text = "echo '!{cat file}\' \" \\\n\"";
    assert!(is_complete(text))
}

#[test]
fn determine_completeness_21() {
    let text = "\\\n\\\n\\\n\\\n";
    assert!(!is_complete(text))
}

#[test]
fn determine_completeness_22() {
    let text = "\\\n\\\n\\\n\\\n ";
    assert!(is_complete(text))
}

#[test]
fn finished_block_needs_blank_line() {
    assert!(!contains_finished_block("if x:\n    echo a\n"));
    assert!(contains_finished_block("if x:\n    echo a\n\n"));
    assert!(contains_finished_block("if x:\n    echo a\n  \n"));
}

#[test]
fn construct_prefixes() {
    assert!(is_shell_construct("if x:"));
    assert!(is_shell_construct("while x:"));
    assert!(is_shell_construct("for x in a:"));
    assert!(is_shell_construct("fn name:"));
    assert!(!is_shell_construct("echo if"));
}

#[test]
fn validator_waits_for_whole_block() {
    let v = SmshLineValidator;
    assert!(v.validate("echo one"));
    assert!(!v.validate("if x:\n    echo a\n"));
    assert!(v.validate("if x:\n    echo a\n\n"));
    assert!(!v.validate("echo 'open"));
}
