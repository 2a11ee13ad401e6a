//! Words.  A word and a token are one and the same unit of input;
//! these exercise its construction and selector parsing under the
//! word-level names.

use smsh::expansion::Expansion;
use smsh::selection::{get_selector, Selection};
use smsh::shell::Shell;
use smsh::token::{Quote, Token};

#[test]
fn mod_create_word_1() {
    let cmd = "cat".to_string();

    let word = Token {
        text: "cat".to_string(),
        quote: Quote::Unquoted,
        expansion: Expansion::Plain,
        selection: Selection::All,
        separated_text: Vec::<String>::new(),
        selected_text: Vec::<String>::new(),
    };

    assert_eq!(word, Token::new(cmd).unwrap());
}

#[test]
fn mod_create_word_2() {
    let cmd = "{cmd}".to_string();

    let word = Token {
        text: "cmd".to_string(),
        quote: Quote::Unquoted,
        expansion: Expansion::Variable,
        selection: Selection::All,
        separated_text: Vec::<String>::new(),
        selected_text: Vec::<String>::new(),
    };

    assert_eq!(word, Token::new(cmd).unwrap());
}

#[test]
fn mod_create_word_3() {
    let cmd = "!{cmd}".to_string();

    let word = Token {
        text: "cmd".to_string(),
        quote: Quote::Unquoted,
        expansion: Expansion::Subshell,
        selection: Selection::All,
        separated_text: Vec::<String>::new(),
        selected_text: Vec::<String>::new(),
    };

    assert_eq!(word, Token::new(cmd).unwrap());
}

#[test]
fn mod_create_word_4() {
    let cmd = "!{{cmd}}".to_string();

    let word = Token {
        text: "{cmd}".to_string(),
        quote: Quote::Unquoted,
        expansion: Expansion::Subshell,
        selection: Selection::All,
        separated_text: Vec::<String>::new(),
        selected_text: Vec::<String>::new(),
    };

    assert_eq!(word, Token::new(cmd).unwrap());
}

#[test]
fn mod_create_word_5() {
    let cmd = "!{{cmd}}[1]".to_string();

    let word = Token {
        text: "{cmd}".to_string(),
        quote: Quote::Unquoted,
        expansion: Expansion::Subshell,
        selection: Selection::Index(1),
        separated_text: Vec::<String>::new(),
        selected_text: Vec::<String>::new(),
    };

    assert_eq!(word, Token::new(cmd).unwrap());
}

#[test]
fn mod_create_word_6() {
    let cmd = "!{{cmd}}[1..]".to_string();

    let word = Token {
        text: "{cmd}".to_string(),
        quote: Quote::Unquoted,
        expansion: Expansion::Subshell,
        selection: Selection::Slice(1, 0),
        separated_text: Vec::<String>::new(),
        selected_text: Vec::<String>::new(),
    };

    assert_eq!(word, Token::new(cmd).unwrap());
}

#[test]
fn mod_create_word_7() {
    let cmd = "'!{{cmd}}[1..]'".to_string();

    let word = Token {
        text: "!{{cmd}}[1..]".to_string(),
        quote: Quote::SingleQuoted,
        expansion: Expansion::Plain,
        selection: Selection::All,
        separated_text: Vec::<String>::new(),
        selected_text: Vec::<String>::new(),
    };

    assert_eq!(word, Token::new(cmd).unwrap());
}

#[test]
fn mod_expand_1() {
    // Replace 'cmd' with 'cat'
    let mut smsh = Shell::new();
    smsh.insert_user_variable("cmd".to_string(), "cat".to_string());

    let mut word = Token::new("{cmd}".to_string()).unwrap();

    word.expand(&smsh);

    assert_eq!(word.text, "cat".to_string())
}

#[test]
fn selection_get_selector_test_some_1() {
    let (text, selector) = get_selector("{cmds}[0]").unwrap();
    assert_eq!(text, "{cmds}".to_string());
    assert_eq!(selector, "0".to_string());
}

#[test]
fn selection_get_selector_test_some_2() {
    let (text, selector) = get_selector("{cmds}[0..]").unwrap();
    assert_eq!(text, "{cmds}".to_string());
    assert_eq!(selector, "0..".to_string());
}

#[test]
fn selection_get_selector_test_some_3() {
    let (text, selector) = get_selector("{cmds}[0..2]").unwrap();
    assert_eq!(text, "{cmds}".to_string());
    assert_eq!(selector, "0..2".to_string());
}

#[test]
fn selection_get_selector_test_some_4() {
    let (text, selector) = get_selector("{cmds}[..2]").unwrap();
    assert_eq!(text, "{cmds}".to_string());
    assert_eq!(selector, "..2".to_string());
}

#[test]
fn selection_get_selector_test_none_1() {
    assert_eq!(None, get_selector("{cmds}"));
}

#[test]
fn selection_get_selector_test_none_2() {
    assert_eq!(None, get_selector("{cmds}["));
}

#[test]
fn selection_get_selector_test_none_3() {
    assert_eq!(None, get_selector("{cmds}]"));
}

#[test]
fn selection_get_selector_test_none_4() {
    assert_eq!(None, get_selector("{cmds}[]"));
}
