//! Expansion tagging.  Whole-token forms `{name}`, `!{command}` and
//! `e{NAME}` mark a token for variable, command-substitution and
//! environment expansion; anything else is plain text.  Single-quoted
//! tokens are never tagged.

use vstd::prelude::*;

use crate::strutil::{chars_of, copy_range};

verus! {

/// Where a token's final text comes from.
#[derive(Clone, Copy, PartialEq, Eq, Debug)]
pub enum Expansion {
    /// The text stands for itself.
    Plain,
    /// `{name}`: the shell's variable table.
    Variable,
    /// `e{NAME}`: the process environment.
    Environment,
    /// `!{command}`: the captured output of a forked sub-interpretation.
    Subshell,
}

/// What `get_expansion` returns: the text with the expansion braces
/// stripped, and the expansion kind they named.
pub open spec fn spec_expansion_split(s: Seq<char>) -> (Seq<char>, Expansion) {
    if s.len() < 2 {
        (s, Expansion::Plain)
    } else if s[0] == '{' && s.last() == '}' {
        (s.subrange(1, s.len() - 1), Expansion::Variable)
    } else if s[0] == '!' && s[1] == '{' && s.last() == '}' {
        (s.subrange(2, s.len() - 1), Expansion::Subshell)
    } else if s[0] == 'e' && s[1] == '{' && s.last() == '}' {
        (s.subrange(2, s.len() - 1), Expansion::Environment)
    } else {
        (s, Expansion::Plain)
    }
}

/// Classifies a token's text by its expansion form and strips the braces
/// (and the `!`/`e` sigil) from it.  Text without a whole-token expansion
/// form comes back unchanged and plain.
pub fn get_expansion(text: &str) -> (r: (String, Expansion))
    ensures
        r.0@ == spec_expansion_split(text@).0,
        r.1 == spec_expansion_split(text@).1,
{
    let cs = chars_of(text);
    let n = cs.len();
    if n < 2 {
        let mut copy = String::new();
        copy.append(text);
        return (copy, Expansion::Plain);
    }
    if cs[0] == '{' && cs[n - 1] == '}' {
        (copy_range(&cs, 1, n - 1), Expansion::Variable)
    } else if cs[0] == '!' && cs[1] == '{' && cs[n - 1] == '}' {
        (copy_range(&cs, 2, n - 1), Expansion::Subshell)
    } else if cs[0] == 'e' && cs[1] == '{' && cs[n - 1] == '}' {
        (copy_range(&cs, 2, n - 1), Expansion::Environment)
    } else {
        let mut copy = String::new();
        copy.append(text);
        (copy, Expansion::Plain)
    }
}

} // verus!
