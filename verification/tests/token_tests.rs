//! Token construction and the expand → separate → select pipeline.

use smsh::error::ShellError;
use smsh::expansion::Expansion;
use smsh::scan::get_tokens;
use smsh::selection::Selection;
use smsh::shell::Shell;
use smsh::token::{get_quote, Quote, Token};

#[test]
fn create_word_1() {
    let cmd = "cat".to_string();

    let word = Token {
        text: "cat".to_string(),
        quote: Quote::Unquoted,
        expansion: Expansion::Plain,
        selection: Selection::All,
        separated_text: Vec::<String>::new(),
        selected_text: Vec::<String>::new(),
    };

    assert_eq!(word, Token::new(cmd).unwrap());
}

#[test]
fn create_word_2() {
    let cmd = "{cmd}".to_string();

    let word = Token {
        text: "cmd".to_string(),
        quote: Quote::Unquoted,
        expansion: Expansion::Variable,
        selection: Selection::All,
        separated_text: Vec::<String>::new(),
        selected_text: Vec::<String>::new(),
    };

    assert_eq!(word, Token::new(cmd).unwrap());
}

#[test]
fn create_word_3() {
    let cmd = "!{cmd}".to_string();

    let word = Token {
        text: "cmd".to_string(),
        quote: Quote::Unquoted,
        expansion: Expansion::Subshell,
        selection: Selection::All,
        separated_text: Vec::<String>::new(),
        selected_text: Vec::<String>::new(),
    };

    assert_eq!(word, Token::new(cmd).unwrap());
}

#[test]
fn create_word_4() {
    let cmd = "!{{cmd}}".to_string();

    let word = Token {
        text: "{cmd}".to_string(),
        quote: Quote::Unquoted,
        expansion: Expansion::Subshell,
        selection: Selection::All,
        separated_text: Vec::<String>::new(),
        selected_text: Vec::<String>::new(),
    };

    assert_eq!(word, Token::new(cmd).unwrap());
}

#[test]
fn create_word_5() {
    let cmd = "!{{cmd}}[1]".to_string();

    let word = Token {
        text: "{cmd}".to_string(),
        quote: Quote::Unquoted,
        expansion: Expansion::Subshell,
        selection: Selection::Index(1),
        separated_text: Vec::<String>::new(),
        selected_text: Vec::<String>::new(),
    };

    assert_eq!(word, Token::new(cmd).unwrap());
}

#[test]
fn create_word_6() {
    let cmd = "!{{cmd}}[1..]".to_string();

    let word = Token {
        text: "{cmd}".to_string(),
        quote: Quote::Unquoted,
        expansion: Expansion::Subshell,
        selection: Selection::Slice(1, 0),
        separated_text: Vec::<String>::new(),
        selected_text: Vec::<String>::new(),
    };

    assert_eq!(word, Token::new(cmd).unwrap());
}

#[test]
fn create_word_7() {
    let cmd = "'!{{cmd}}[1..]'".to_string();

    let word = Token {
        text: "!{{cmd}}[1..]".to_string(),
        quote: Quote::SingleQuoted,
        expansion: Expansion::Plain,
        selection: Selection::All,
        separated_text: Vec::<String>::new(),
        selected_text: Vec::<String>::new(),
    };

    assert_eq!(word, Token::new(cmd).unwrap());
}

#[test]
fn expand_1() {
    // Replace 'cmd' with 'cat'
    let mut smsh = Shell::new();
    smsh.insert_user_variable("cmd".to_string(), "cat".to_string());

    let mut word = Token::new("{cmd}".to_string()).unwrap();

    word.expand(&smsh);

    assert_eq!(word.text, "cat".to_string())
}

#[test]
fn expand_unset_variable_is_empty() {
    let smsh = Shell::new();
    let mut word = Token::new("{nothing_bound_here}".to_string()).unwrap();
    word.expand(&smsh);
    assert_eq!(word.text, "".to_string());
}

#[test]
fn plain_text_selects_itself() {
    // Text with no quotes, braces or whitespace passes through whole.
    let mut word = Token::new("plain-text".to_string()).unwrap();
    word.expand(&Shell::new());
    word.separate();
    word.select().unwrap();
    assert_eq!(word.selected_text, vec!["plain-text".to_string()]);
}

#[test]
fn single_quoted_text_stays_one_field() {
    let mut word = Token::new("'x y'".to_string()).unwrap();
    word.separate();
    word.select().unwrap();
    assert_eq!(word.selected_text, vec!["x y".to_string()]);
}

#[test]
fn unquoted_text_splits_on_whitespace() {
    let tokens = get_tokens("x y").unwrap();
    assert_eq!(tokens.len(), 2);
    assert_eq!(tokens[0].text, "x".to_string());
    assert_eq!(tokens[1].text, "y".to_string());
}

#[test]
fn variable_selection_index() {
    let mut smsh = Shell::new();
    smsh.insert_user_variable("v".to_string(), "zero one two three four".to_string());
    let mut word = Token::new("{v}[2]".to_string()).unwrap();
    word.expand(&smsh);
    word.separate();
    word.select().unwrap();
    assert_eq!(word.selected_text, vec!["two".to_string()]);
}

#[test]
fn variable_selection_tail_slice() {
    let mut smsh = Shell::new();
    smsh.insert_user_variable("v".to_string(), "zero one two three four".to_string());
    let mut word = Token::new("{v}[2..]".to_string()).unwrap();
    word.expand(&smsh);
    word.separate();
    word.select().unwrap();
    assert_eq!(
        word.selected_text,
        vec!["two".to_string(), "three".to_string(), "four".to_string()]
    );
}

#[test]
fn variable_selection_out_of_range_is_empty() {
    let mut smsh = Shell::new();
    smsh.insert_user_variable("v".to_string(), "zero one two three four".to_string());
    let mut word = Token::new("{v}[10]".to_string()).unwrap();
    word.expand(&smsh);
    word.separate();
    word.select().unwrap();
    assert_eq!(word.selected_text, Vec::<String>::new());
}

#[test]
fn environment_expansion_reads_recorded_table() {
    let mut smsh = Shell::new();
    smsh.insert_env_variable("HOME_OF_TESTS".to_string(), "/tmp/home".to_string());
    let mut word = Token::new("e{HOME_OF_TESTS}".to_string()).unwrap();
    word.expand(&smsh);
    assert_eq!(word.text, "/tmp/home".to_string());
}

#[test]
fn pipe_operator_token() {
    let mut word = Token::new("|".to_string()).unwrap();
    word.separate();
    word.select().unwrap();
    assert!(word.is_pipe_operator());
}

#[test]
fn mismatched_quote_is_an_error() {
    assert_eq!(
        Token::new("'ab\"".to_string()),
        Err(ShellError::UnmatchedQuote)
    );
}

#[test]
fn get_quote_strips_matching_pair() {
    let (text, quote) = get_quote("\"a b\"").unwrap();
    assert_eq!(text, "a b".to_string());
    assert_eq!(quote, Quote::DoubleQuoted);
}

#[test]
fn later_binding_wins() {
    let mut smsh = Shell::new();
    smsh.insert_user_variable("v".to_string(), "first".to_string());
    smsh.insert_user_variable("v".to_string(), "second".to_string());
    let mut word = Token::new("{v}".to_string()).unwrap();
    word.expand(&smsh);
    assert_eq!(word.text, "second".to_string());
}

#[test]
fn variable_selection_two_sided_slice_clamps() {
    let mut smsh = Shell::new();
    smsh.insert_user_variable("v".to_string(), "zero one two three four".to_string());
    let mut word = Token::new("{v}[1..3]".to_string()).unwrap();
    word.expand(&smsh);
    word.separate();
    word.select().unwrap();
    assert_eq!(
        word.selected_text,
        vec!["one".to_string(), "two".to_string()]
    );
}

#[test]
fn empty_expansion_makes_an_empty_token() {
    let smsh = Shell::new();
    let mut word = Token::new("{unbound}".to_string()).unwrap();
    assert!(!word.is_empty());
    word.expand(&smsh);
    assert!(word.is_empty());
}
