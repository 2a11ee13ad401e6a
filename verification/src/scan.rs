//! The line scanner.  A raw logical line is carved into parts by quoting
//! rules: unquoted whitespace separates, quoted regions are copied
//! verbatim including their delimiters, `{`...`}` nests by a depth
//! counter and is copied verbatim, and a backslash escapes the next
//! character.  A line that ends inside a quote, a brace or an escape is
//! a parse error.

use vstd::prelude::*;

use crate::error::ShellError;
use crate::strutil::{chars_of, is_space, string_from_chars};
use crate::token::{token_obeys_new, spec_token_new, Token};

verus! {

/// Where the scanner stands in the line.
#[derive(Clone, Copy, PartialEq, Eq, Debug)]
pub enum ScanMode {
    Unquoted,
    SingleQuoted,
    DoubleQuoted,
    Escaped,
    Expansion,
}

/// The scanner's whole state: mode, the mode an escape returns to, the
/// brace depth, the finished parts and the part being built.
pub ghost struct ScanState {
    pub mode: ScanMode,
    pub esc_from: ScanMode,
    pub depth: nat,
    pub parts: Seq<Seq<char>>,
    pub cur: Seq<char>,
}

/// The scanner's starting state.
pub open spec fn scan_init() -> ScanState {
    ScanState {
        mode: ScanMode::Unquoted,
        esc_from: ScanMode::Unquoted,
        depth: 0,
        parts: Seq::empty(),
        cur: Seq::empty(),
    }
}

/// One scanner step.
pub open spec fn scan_step(st: ScanState, c: char) -> ScanState {
    match st.mode {
        ScanMode::Unquoted => {
            if is_space(c) {
                if st.cur.len() > 0 {
                    ScanState { parts: st.parts.push(st.cur), cur: Seq::empty(), ..st }
                } else {
                    st
                }
            } else if c == '\'' {
                ScanState { mode: ScanMode::SingleQuoted, cur: st.cur.push(c), ..st }
            } else if c == '"' {
                ScanState { mode: ScanMode::DoubleQuoted, cur: st.cur.push(c), ..st }
            } else if c == '\\' {
                ScanState {
                    mode: ScanMode::Escaped,
                    esc_from: ScanMode::Unquoted,
                    cur: st.cur.push(c),
                    ..st
                }
            } else if c == '{' {
                ScanState { mode: ScanMode::Expansion, depth: 1, cur: st.cur.push(c), ..st }
            } else {
                ScanState { cur: st.cur.push(c), ..st }
            }
        },
        ScanMode::SingleQuoted => {
            if c == '\'' {
                ScanState { mode: ScanMode::Unquoted, cur: st.cur.push(c), ..st }
            } else {
                ScanState { cur: st.cur.push(c), ..st }
            }
        },
        ScanMode::DoubleQuoted => {
            if c == '"' {
                ScanState { mode: ScanMode::Unquoted, cur: st.cur.push(c), ..st }
            } else if c == '\\' {
                ScanState {
                    mode: ScanMode::Escaped,
                    esc_from: ScanMode::DoubleQuoted,
                    cur: st.cur.push(c),
                    ..st
                }
            } else {
                ScanState { cur: st.cur.push(c), ..st }
            }
        },
        ScanMode::Escaped => {
            ScanState { mode: st.esc_from, cur: st.cur.push(c), ..st }
        },
        ScanMode::Expansion => {
            if c == '\\' {
                ScanState {
                    mode: ScanMode::Escaped,
                    esc_from: ScanMode::Expansion,
                    cur: st.cur.push(c),
                    ..st
                }
            } else if c == '{' {
                ScanState { depth: st.depth + 1, cur: st.cur.push(c), ..st }
            } else if c == '}' {
                if st.depth <= 1 {
                    ScanState { mode: ScanMode::Unquoted, depth: 0, cur: st.cur.push(c), ..st }
                } else {
                    ScanState { depth: (st.depth - 1) as nat, cur: st.cur.push(c), ..st }
                }
            } else {
                ScanState { cur: st.cur.push(c), ..st }
            }
        },
    }
}

/// The scanner folded over `s`.
pub open spec fn scan_fold(s: Seq<char>) -> ScanState
    decreases s.len(),
{
    if s.len() == 0 {
        scan_init()
    } else {
        scan_step(scan_fold(s.drop_last()), s.last())
    }
}

/// Folding one more character is one more step.
pub proof fn lemma_scan_fold_push(s: Seq<char>, c: char)
    ensures
        scan_fold(s.push(c)) == scan_step(scan_fold(s), c),
{
    assert(s.push(c).drop_last() =~= s);
    assert(s.push(c).last() == c);
}

/// The parts of a raw line, or the parse error its ending state names.
pub open spec fn spec_parts(s: Seq<char>) -> Result<Seq<Seq<char>>, ShellError> {
    let st = scan_fold(s);
    match st.mode {
        ScanMode::Unquoted => Result::Ok(
            if st.cur.len() > 0 {
                st.parts.push(st.cur)
            } else {
                st.parts
            },
        ),
        ScanMode::SingleQuoted => Result::Err(ShellError::UnmatchedSingleQuote),
        ScanMode::DoubleQuoted => Result::Err(ShellError::UnmatchedDoubleQuote),
        ScanMode::Escaped => Result::Err(ShellError::TrailingEscape),
        ScanMode::Expansion => Result::Err(ShellError::UnmatchedBrace),
    }
}

/// Carves a raw line into parts by the quoting rules.  Quotes, braces
/// and escapes are preserved in the parts; unquoted whitespace is
/// removed.  A line ending inside a quote, an escape or a brace is a
/// parse error naming what stayed open.
pub fn get_parts(rawline: &str) -> (r: Result<Vec<String>, ShellError>)
    ensures
        match r {
            Ok(parts) => spec_parts(rawline@) == Result::<Seq<Seq<char>>, ShellError>::Ok(
                parts.deep_view(),
            ),
            Err(e) => spec_parts(rawline@) == Result::<Seq<Seq<char>>, ShellError>::Err(e),
        },
{
    let cs = chars_of(rawline);
    let ghost s = rawline@;
    let n = cs.len();

    let mut mode = ScanMode::Unquoted;
    let mut esc_from = ScanMode::Unquoted;
    let mut depth: usize = 0;
    let mut parts = Vec::<String>::new();
    let mut cur = Vec::<char>::new();

    proof {
        assert(s.take(0int) =~= Seq::<char>::empty());
        assert(parts.deep_view() =~= Seq::<Seq<char>>::empty());
    }
    let mut i: usize = 0;
    while i < n
        invariant
            cs@ == s,
            n == s.len(),
            i <= n,
            depth <= i,
            scan_fold(s.take(i as int)) == (ScanState {
                mode,
                esc_from,
                depth: depth as nat,
                parts: parts.deep_view(),
                cur: cur@,
            }),
        decreases n - i,
    {
        let c = cs[i];
        proof {
            lemma_scan_fold_push(s.take(i as int), s[i as int]);
            assert(s.take(i as int).push(s[i as int]) =~= s.take(i + 1));
        }
        let ghost parts_before = parts.deep_view();
        match mode {
            ScanMode::Unquoted => {
                if crate::strutil::is_space_char(c) {
                    if cur.len() > 0 {
                        let word = string_from_chars(&cur);
                        parts.push(word);
                        cur = Vec::<char>::new();
                        proof {
                            assert(parts.deep_view() =~= parts_before.push(
                                scan_fold(s.take(i as int)).cur,
                            ));
                        }
                    }
                } else if c == '\'' {
                    cur.push(c);
                    mode = ScanMode::SingleQuoted;
                } else if c == '"' {
                    cur.push(c);
                    mode = ScanMode::DoubleQuoted;
                } else if c == '\\' {
                    cur.push(c);
                    esc_from = ScanMode::Unquoted;
                    mode = ScanMode::Escaped;
                } else if c == '{' {
                    cur.push(c);
                    mode = ScanMode::Expansion;
                    depth = 1;
                } else {
                    cur.push(c);
                }
            },
            ScanMode::SingleQuoted => {
                cur.push(c);
                if c == '\'' {
                    mode = ScanMode::Unquoted;
                }
            },
            ScanMode::DoubleQuoted => {
                cur.push(c);
                if c == '"' {
                    mode = ScanMode::Unquoted;
                } else if c == '\\' {
                    esc_from = ScanMode::DoubleQuoted;
                    mode = ScanMode::Escaped;
                }
            },
            ScanMode::Escaped => {
                cur.push(c);
                mode = esc_from;
            },
            ScanMode::Expansion => {
                cur.push(c);
                if c == '\\' {
                    esc_from = ScanMode::Expansion;
                    mode = ScanMode::Escaped;
                } else if c == '{' {
                    depth = depth + 1;
                } else if c == '}' {
                    if depth <= 1 {
                        mode = ScanMode::Unquoted;
                        depth = 0;
                    } else {
                        depth = depth - 1;
                    }
                }
            },
        }
        i = i + 1;
    }
    proof {
        assert(s.take(n as int) =~= s);
    }

    match mode {
        ScanMode::Unquoted => {
            if cur.len() > 0 {
                let ghost parts_before = parts.deep_view();
                let word = string_from_chars(&cur);
                parts.push(word);
                proof {
                    assert(parts.deep_view() =~= parts_before.push(scan_fold(s).cur));
                }
            }
            Result::Ok(parts)
        },
        ScanMode::SingleQuoted => Result::Err(ShellError::UnmatchedSingleQuote),
        ScanMode::DoubleQuoted => Result::Err(ShellError::UnmatchedDoubleQuote),
        ScanMode::Escaped => Result::Err(ShellError::TrailingEscape),
        ScanMode::Expansion => Result::Err(ShellError::UnmatchedBrace),
    }
}

/// Every token of `tokens` is what `Token::new` builds from the
/// corresponding part.
pub open spec fn tokens_obey_parts(tokens: Seq<Token>, parts: Seq<Seq<char>>) -> bool {
    &&& tokens.len() == parts.len()
    &&& forall|i: int| 0 <= i < parts.len() ==> token_obeys_new(#[trigger] tokens[i], parts[i])
}

/// `get_tokens(s)` fails with `e`: either the scanner fails so, or some
/// part's token construction does.
pub open spec fn spec_tokens_err(s: Seq<char>, e: ShellError) -> bool {
    ||| spec_parts(s) == Result::<Seq<Seq<char>>, ShellError>::Err(e)
    ||| (spec_parts(s) is Ok && exists|i: int|
        0 <= i < spec_parts(s)->Ok_0.len() && spec_token_new(#[trigger] spec_parts(s)->Ok_0[i])
            == Result::<crate::token::TokenModel, ShellError>::Err(e))
}

/// Breaks a raw line into tokens: carves it into parts by the quoting
/// rules, then builds one token from each part.  Fails on a malformed
/// line, or with the first part whose selector or quoting is malformed.
pub fn get_tokens(rawline: &str) -> (r: Result<Vec<Token>, ShellError>)
    ensures
        match r {
            Ok(tokens) => spec_parts(rawline@) is Ok && tokens_obey_parts(
                tokens@,
                spec_parts(rawline@)->Ok_0,
            ),
            Err(e) => spec_tokens_err(rawline@, e),
        },
{
    let parts = match get_parts(rawline) {
        Result::Ok(parts) => parts,
        Result::Err(e) => {
            return Result::Err(e);
        },
    };
    let ghost ps = parts.deep_view();
    let mut tokens = Vec::<Token>::new();
    let mut i: usize = 0;
    while i < parts.len()
        invariant
            ps == parts.deep_view(),
            i <= parts@.len(),
            tokens@.len() == i,
            forall|j: int| 0 <= j < i ==> token_obeys_new(#[trigger] tokens@[j], ps[j]),
        decreases parts@.len() - i,
    {
        let part = parts[i].clone();
        proof {
            assert(part@ == ps[i as int]);
        }
        match Token::new(part) {
            Result::Ok(t) => {
                tokens.push(t);
            },
            Result::Err(e) => {
                proof {
                    assert(spec_token_new(spec_parts(rawline@)->Ok_0[i as int]) == Result::<
                        crate::token::TokenModel,
                        ShellError,
                    >::Err(e));
                }
                return Result::Err(e);
            },
        }
        i = i + 1;
    }
    Result::Ok(tokens)
}

} // verus!
