//! Tokens.  A token is the smallest logical unit of input: a word, a
//! quoted string, or an expansion, possibly carrying a trailing field
//! selector.  Construction resolves the selector, the quoting and the
//! expansion kind, in that order; the final fields come from the
//! expand → separate → select pipeline.

use vstd::prelude::*;

use crate::error::ShellError;
use crate::expansion::{get_expansion, spec_expansion_split, Expansion};
use crate::selection::{get_selection, spec_selection_split, spec_selection_split_ok, Selection};
use crate::strutil::{chars_of, copy_range, is_space, string_from_chars};

verus! {

/// How a token was quoted in the raw line.
#[derive(Clone, Copy, PartialEq, Eq, Debug)]
pub enum Quote {
    SingleQuoted,
    DoubleQuoted,
    Unquoted,
}

/// The quote kind a single character announces.
pub open spec fn quote_of_char(c: char) -> Quote {
    if c == '\'' {
        Quote::SingleQuoted
    } else if c == '"' {
        Quote::DoubleQuoted
    } else {
        Quote::Unquoted
    }
}

/// What `get_quote` returns: the text inside the quotes and the quote
/// kind; nothing when the leading and trailing quote characters differ.
pub open spec fn spec_quote_split(s: Seq<char>) -> Option<(Seq<char>, Quote)> {
    if s.len() == 0 || quote_of_char(s[0]) is Unquoted {
        Option::Some((s, Quote::Unquoted))
    } else if s.len() == 1 {
        Option::Some((Seq::empty(), quote_of_char(s[0])))
    } else if quote_of_char(s.last()) == quote_of_char(s[0]) {
        Option::Some((s.subrange(1, s.len() - 1), quote_of_char(s[0])))
    } else {
        Option::None
    }
}

/// Strips a matching pair of leading and trailing quote characters,
/// reporting the quote kind.  Text that does not begin with a quote
/// character is unquoted; a mismatched pair is an error.
pub fn get_quote(text: &str) -> (r: Result<(String, Quote), ShellError>)
    ensures
        match r {
            Ok(pair) => spec_quote_split(text@) == Option::Some((pair.0@, pair.1)),
            Err(e) => spec_quote_split(text@) is None && e == ShellError::UnmatchedQuote,
        },
{
    let cs = chars_of(text);
    let n = cs.len();
    if n == 0 || (cs[0] != '\'' && cs[0] != '"') {
        let mut copy = String::new();
        copy.append(text);
        return Result::Ok((copy, Quote::Unquoted));
    }
    let quote = if cs[0] == '\'' {
        Quote::SingleQuoted
    } else {
        Quote::DoubleQuoted
    };
    if n == 1 {
        return Result::Ok((String::new(), quote));
    }
    let matches_lead = if cs[0] == '\'' {
        cs[n - 1] == '\''
    } else {
        cs[n - 1] == '"'
    };
    if matches_lead {
        Result::Ok((copy_range(&cs, 1, n - 1), quote))
    } else {
        Result::Err(ShellError::UnmatchedQuote)
    }
}

/// The ghost image of a freshly constructed token.
pub ghost struct TokenModel {
    pub text: Seq<char>,
    pub quote: Quote,
    pub expansion: Expansion,
    pub selection: Selection,
}

/// What `Token::new` makes of a raw word: selector first, quotes second,
/// expansion last (single-quoted text is never tagged for expansion).
pub open spec fn spec_token_new(s: Seq<char>) -> Result<TokenModel, ShellError> {
    if !spec_selection_split_ok(s) {
        Result::Err(ShellError::InvalidSelection)
    } else {
        let t1 = spec_selection_split(s).0;
        let sel = spec_selection_split(s).1;
        match spec_quote_split(t1) {
            Option::None => Result::Err(ShellError::UnmatchedQuote),
            Option::Some(qs) => {
                if qs.1 is SingleQuoted {
                    Result::Ok(
                        TokenModel {
                            text: qs.0,
                            quote: qs.1,
                            expansion: Expansion::Plain,
                            selection: sel,
                        },
                    )
                } else {
                    Result::Ok(
                        TokenModel {
                            text: spec_expansion_split(qs.0).0,
                            quote: qs.1,
                            expansion: spec_expansion_split(qs.0).1,
                            selection: sel,
                        },
                    )
                }
            },
        }
    }
}

/// One input unit, after construction and (later) expansion, separation
/// and selection.
#[derive(Clone, PartialEq, Eq, Debug)]
pub struct Token {
    /// The token's working text: raw at construction, replaced by
    /// expansion.
    pub text: String,
    /// How the token was quoted.
    pub quote: Quote,
    /// Which expansion the token's form named.
    pub expansion: Expansion,
    /// Which fields of the separated text survive selection.
    pub selection: Selection,
    /// The expanded text split into fields; filled by `separate`.
    pub separated_text: Vec<String>,
    /// The selected fields; filled by `select`.
    pub selected_text: Vec<String>,
}

/// `t` is what `Token::new` builds from the raw word `s`.
pub open spec fn token_obeys_new(t: Token, s: Seq<char>) -> bool {
    match spec_token_new(s) {
        Result::Ok(m) => t.text@ == m.text && t.quote == m.quote && t.expansion == m.expansion
            && t.selection == m.selection && t.separated_text@.len() == 0
            && t.selected_text@.len() == 0,
        Result::Err(_) => false,
    }
}

/// One folding step of whitespace separation: spaces close the current
/// field, other characters extend it.
pub open spec fn ws_step(acc: (Seq<Seq<char>>, Seq<char>), c: char) -> (Seq<Seq<char>>, Seq<char>) {
    if is_space(c) {
        if acc.1.len() > 0 {
            (acc.0.push(acc.1), Seq::empty())
        } else {
            acc
        }
    } else {
        (acc.0, acc.1.push(c))
    }
}

/// Folds whitespace separation over `s`.
pub open spec fn ws_fold(s: Seq<char>) -> (Seq<Seq<char>>, Seq<char>)
    decreases s.len(),
{
    if s.len() == 0 {
        (Seq::empty(), Seq::empty())
    } else {
        ws_step(ws_fold(s.drop_last()), s.last())
    }
}

/// The fields of `s`: its maximal whitespace-free runs, in order.
pub open spec fn ws_split(s: Seq<char>) -> Seq<Seq<char>> {
    let f = ws_fold(s);
    if f.1.len() > 0 {
        f.0.push(f.1)
    } else {
        f.0
    }
}

/// Folding one more character is one more step.
pub proof fn lemma_ws_fold_push(s: Seq<char>, c: char)
    ensures
        ws_fold(s.push(c)) == ws_step(ws_fold(s), c),
{
    assert(s.push(c).drop_last() =~= s);
    assert(s.push(c).last() == c);
}

/// What separation gives a token: quoted text is one field, unquoted
/// text is whitespace-split.
pub open spec fn spec_separated(text: Seq<char>, quote: Quote) -> Seq<Seq<char>> {
    if quote is Unquoted {
        ws_split(text)
    } else {
        seq![text]
    }
}

/// Fields picked from `sep` by a normalized `Slice(n, m)`: a zero `m`
/// means "to the end", and a two-sided bound clamps to `len - 1`.
pub open spec fn spec_sliced(sep: Seq<Seq<char>>, n: int, m: int) -> Seq<Seq<char>> {
    if sep.len() > 0 && n < sep.len() {
        if m > n {
            sep.subrange(n, if sep.len() - 1 < m { sep.len() - 1 } else { m })
        } else if m == 0 {
            sep.skip(n)
        } else {
            Seq::empty()
        }
    } else {
        Seq::empty()
    }
}

/// The fields selection keeps, for every selection form.
pub open spec fn spec_selected(sep: Seq<Seq<char>>, sel: Selection) -> Seq<Seq<char>> {
    match sel {
        Selection::All => sep,
        Selection::Nothing => Seq::empty(),
        Selection::Index(n) => if (n as int) < sep.len() {
            seq![sep[n as int]]
        } else {
            Seq::empty()
        },
        Selection::Slice(n, m) => spec_sliced(sep, n as int, m as int),
        Selection::GreaterThan(n) => spec_sliced(sep, n as int, 0),
        Selection::LessThan(m) => spec_sliced(sep, 0, m as int),
    }
}

/// How expansion rewrites one token: only the text changes, and only
/// for variable and environment expansions; command substitution is
/// deferred to the front end.
pub open spec fn token_expanded(
    pre: TokenView,
    post: TokenView,
    vars: Seq<(String, String)>,
    envs: Seq<(String, String)>,
) -> bool {
    &&& post == (TokenView { text: post.text, ..pre })
    &&& (pre.expansion is Variable ==> post.text == crate::shell::spec_var_value(vars, pre.text))
    &&& (pre.expansion is Environment ==> post.text == crate::shell::spec_var_value(
        envs,
        pre.text,
    ))
    &&& ((pre.expansion is Plain || pre.expansion is Subshell) ==> post.text == pre.text)
}

/// How expansion rewrites one token's view: variable and environment
/// names become their stored values (empty if unset); plain and
/// command-substitution text is untouched.
pub open spec fn spec_expanded_token(
    t: TokenView,
    vars: Seq<(String, String)>,
    envs: Seq<(String, String)>,
) -> TokenView {
    let text = if t.expansion is Variable {
        crate::shell::spec_var_value(vars, t.text)
    } else if t.expansion is Environment {
        crate::shell::spec_var_value(envs, t.text)
    } else {
        t.text
    };
    TokenView { text, ..t }
}

/// A whole token sequence after expansion.
pub open spec fn spec_expanded_all(
    ts: Seq<TokenView>,
    vars: Seq<(String, String)>,
    envs: Seq<(String, String)>,
) -> Seq<TokenView> {
    Seq::new(ts.len(), |i: int| spec_expanded_token(ts[i], vars, envs))
}

/// How separation and selection rewrite one token's view.
pub open spec fn spec_fielded_token(t: TokenView) -> TokenView {
    let sep = spec_separated(t.text, t.quote);
    TokenView { separated: sep, selected: spec_selected(sep, t.selection), ..t }
}

/// A whole token sequence after separation and selection.
pub open spec fn spec_fielded_all(ts: Seq<TokenView>) -> Seq<TokenView> {
    Seq::new(ts.len(), |i: int| spec_fielded_token(ts[i]))
}

/// The first token at or after `from` that waits for command
/// substitution, or the length if none does.
pub open spec fn first_subshell(ts: Seq<TokenView>, from: int) -> int
    decreases ts.len() - from,
{
    if from < 0 || from >= ts.len() {
        ts.len() as int
    } else if ts[from].expansion is Subshell {
        from
    } else {
        first_subshell(ts, from + 1)
    }
}

/// The first substitution at or after `from` is where it is.
pub proof fn lemma_first_subshell_at(ts: Seq<TokenView>, from: int, i: int)
    requires
        0 <= from <= i <= ts.len(),
        forall|j: int| from <= j < i ==> !((#[trigger] ts[j]).expansion is Subshell),
        i == ts.len() || ts[i].expansion is Subshell,
    ensures
        first_subshell(ts, from) == i,
    decreases i - from,
{
    if from < i {
        lemma_first_subshell_at(ts, from + 1, i);
    }
}

/// The selected text of a pipe-operator token: the single field `|`.
pub open spec fn is_pipe_selected(selected: Seq<Seq<char>>) -> bool {
    selected.len() == 1 && selected[0] == seq!['|']
}

/// The ghost image of a token's whole state.
pub ghost struct TokenView {
    pub text: Seq<char>,
    pub quote: Quote,
    pub expansion: Expansion,
    pub selection: Selection,
    pub separated: Seq<Seq<char>>,
    pub selected: Seq<Seq<char>>,
}

impl View for Token {
    type V = TokenView;

    open spec fn view(&self) -> TokenView {
        TokenView {
            text: self.text@,
            quote: self.quote,
            expansion: self.expansion,
            selection: self.selection,
            separated: self.separated_text.deep_view(),
            selected: self.selected_text.deep_view(),
        }
    }
}

impl DeepView for Token {
    type V = TokenView;

    open spec fn deep_view(&self) -> TokenView {
        self@
    }
}

impl Token {
    /// Builds a token from one raw word: strips and parses a trailing
    /// `[...]` selector, then a matching quote pair, then — except inside
    /// single quotes — an expansion form.  Separated and selected text
    /// start empty.
    pub fn new(text: String) -> (r: Result<Token, ShellError>)
        ensures
            match r {
                Ok(t) => token_obeys_new(t, text@),
                Err(e) => spec_token_new(text@) == Result::<TokenModel, ShellError>::Err(e),
            },
    {
        let (t1, selection) = match get_selection(text.as_str()) {
            Result::Ok(pair) => pair,
            Result::Err(e) => {
                return Result::Err(e);
            },
        };
        let (t2, quote) = match get_quote(t1.as_str()) {
            Result::Ok(pair) => pair,
            Result::Err(e) => {
                return Result::Err(e);
            },
        };
        let (text_final, expansion) = match quote {
            Quote::SingleQuoted => (t2, Expansion::Plain),
            Quote::DoubleQuoted | Quote::Unquoted => get_expansion(t2.as_str()),
        };
        Result::Ok(
            Token {
                text: text_final,
                quote,
                expansion,
                selection,
                separated_text: Vec::<String>::new(),
                selected_text: Vec::<String>::new(),
            },
        )
    }

    /// Splits the (expanded) text into fields: on whitespace runs for
    /// unquoted tokens, as one single field for quoted ones.  Only the
    /// separated text changes.
    pub fn separate(&mut self)
        ensures
            final(self).separated_text.deep_view() == spec_separated(
                old(self).text@,
                old(self).quote,
            ),
            final(self).text == old(self).text,
            final(self).quote == old(self).quote,
            final(self).expansion == old(self).expansion,
            final(self).selection == old(self).selection,
            final(self).selected_text == old(self).selected_text,
    {
        match self.quote {
            Quote::SingleQuoted | Quote::DoubleQuoted => {
                let mut fields = Vec::<String>::new();
                fields.push(self.text.clone());
                proof {
                    assert(fields.deep_view() =~= seq![self.text@]);
                }
                self.separated_text = fields;
            },
            Quote::Unquoted => {
                let cs = chars_of(self.text.as_str());
                let ghost s = self.text@;
                let n = cs.len();
                let mut fields = Vec::<String>::new();
                let mut cur = Vec::<char>::new();
                let mut i: usize = 0;
                while i < n
                    invariant
                        cs@ == s,
                        n == s.len(),
                        i <= n,
                        (fields.deep_view(), cur@) == ws_fold(s.take(i as int)),
                    decreases n - i,
                {
                    let c = cs[i];
                    proof {
                        lemma_ws_fold_push(s.take(i as int), s[i as int]);
                        assert(s.take(i as int).push(s[i as int]) =~= s.take(i + 1));
                    }
                    let ghost fields_before = fields.deep_view();
                    if crate::strutil::is_space_char(c) {
                        if cur.len() > 0 {
                            let word = string_from_chars(&cur);
                            fields.push(word);
                            cur = Vec::<char>::new();
                            proof {
                                assert(fields.deep_view() =~= fields_before.push(
                                    ws_fold(s.take(i as int)).1,
                                ));
                            }
                        }
                    } else {
                        cur.push(c);
                    }
                    i = i + 1;
                }
                proof {
                    assert(s.take(n as int) =~= s);
                }
                if cur.len() > 0 {
                    let ghost fields_before = fields.deep_view();
                    let word = string_from_chars(&cur);
                    fields.push(word);
                    proof {
                        assert(fields.deep_view() =~= fields_before.push(ws_fold(s).1));
                    }
                }
                self.separated_text = fields;
            },
        }
    }

    /// Applies the selection to the separated text: an out-of-range index
    /// keeps nothing, a two-sided slice clamps its upper bound to
    /// `len - 1`, and a zero upper bound means "to the end".  Only the
    /// selected text changes.
    pub fn select(&mut self) -> (r: Result<(), ShellError>)
        ensures
            r is Ok,
            final(self).selected_text.deep_view() == spec_selected(
                old(self).separated_text.deep_view(),
                old(self).selection,
            ),
            final(self).text == old(self).text,
            final(self).quote == old(self).quote,
            final(self).expansion == old(self).expansion,
            final(self).selection == old(self).selection,
            final(self).separated_text == old(self).separated_text,
    {
        let ghost sep = self.separated_text.deep_view();
        let len = self.separated_text.len();
        let mut selected = Vec::<String>::new();
        match self.selection {
            Selection::All => {
                let mut i: usize = 0;
                while i < len
                    invariant
                        len == self.separated_text@.len(),
                        sep == self.separated_text.deep_view(),
                        i <= len,
                        selected.deep_view() == sep.take(i as int),
                    decreases len - i,
                {
                    let ghost before = selected.deep_view();
                    selected.push(self.separated_text[i].clone());
                    proof {
                        assert(selected.deep_view() =~= before.push(sep[i as int]));
                        assert(sep.take(i as int).push(sep[i as int]) =~= sep.take(i + 1));
                    }
                    i = i + 1;
                }
                proof {
                    assert(sep.take(len as int) =~= sep);
                }
            },
            Selection::Nothing => {
            },
            Selection::Index(idx) => {
                if idx < len {
                    selected.push(self.separated_text[idx].clone());
                    proof {
                        assert(selected.deep_view() =~= seq![sep[idx as int]]);
                    }
                }
            },
            Selection::Slice(a, b) => {
                self.push_slice(&mut selected, a, b);
            },
            Selection::GreaterThan(a) => {
                self.push_slice(&mut selected, a, 0);
            },
            Selection::LessThan(b) => {
                self.push_slice(&mut selected, 0, b);
            },
        }
        self.selected_text = selected;
        Result::Ok(())
    }

    /// Copies the fields a normalized `Slice(n, m)` keeps into `out`.
    fn push_slice(&self, out: &mut Vec<String>, n: usize, m: usize)
        requires
            old(out)@.len() == 0,
        ensures
            final(out).deep_view() == spec_sliced(self.separated_text.deep_view(), n as int, m as int),
    {
        let ghost sep = self.separated_text.deep_view();
        let len = self.separated_text.len();
        if len > 0 && n < len {
            if m > n {
                let upper = if len - 1 < m {
                    len - 1
                } else {
                    m
                };
                let mut i: usize = n;
                while i < upper
                    invariant
                        sep == self.separated_text.deep_view(),
                        len == self.separated_text@.len(),
                        n <= i <= upper,
                        upper <= len,
                        out.deep_view() == sep.subrange(n as int, i as int),
                    decreases upper - i,
                {
                    let ghost before = out.deep_view();
                    out.push(self.separated_text[i].clone());
                    proof {
                        assert(out.deep_view() =~= before.push(sep[i as int]));
                        assert(sep.subrange(n as int, i as int).push(sep[i as int]) =~= sep.subrange(
                            n as int,
                            i + 1,
                        ));
                    }
                    i = i + 1;
                }
            } else if m == 0 {
                let mut i: usize = n;
                while i < len
                    invariant
                        sep == self.separated_text.deep_view(),
                        len == self.separated_text@.len(),
                        n <= i <= len,
                        out.deep_view() == sep.subrange(n as int, i as int),
                    decreases len - i,
                {
                    let ghost before = out.deep_view();
                    out.push(self.separated_text[i].clone());
                    proof {
                        assert(out.deep_view() =~= before.push(sep[i as int]));
                        assert(sep.subrange(n as int, i as int).push(sep[i as int]) =~= sep.subrange(
                            n as int,
                            i + 1,
                        ));
                    }
                    i = i + 1;
                }
                proof {
                    assert(sep.subrange(n as int, len as int) =~= sep.skip(n as int));
                }
            }
        }
    }

    /// True when this token, after selection, is the pipeline separator:
    /// its selected text is exactly the single field `|`.
    pub fn is_pipe_operator(&self) -> (r: bool)
        ensures
            r == is_pipe_selected(self.selected_text.deep_view()),
    {
        proof {
            reveal_strlit("|");
            assert("|"@ =~= seq!['|']);
        }
        if self.selected_text.len() == 1 {
            let r = crate::strutil::str_eq(self.selected_text[0].as_str(), "|");
            proof {
                assert(self.selected_text.deep_view()[0] == self.selected_text@[0]@);
            }
            r
        } else {
            false
        }
    }

    /// The fields selection kept.
    pub fn selected_text(&self) -> (r: &Vec<String>)
        ensures
            r == &self.selected_text,
    {
        &self.selected_text
    }

    /// Replaces the text with its expansion: a variable or environment
    /// name becomes the stored value, or empty text if unset.  Plain
    /// text is untouched; command substitution waits for the front end's
    /// captured output.
    pub fn expand(&mut self, smsh: &crate::shell::Shell)
        ensures
            token_expanded(old(self)@, final(self)@, smsh.user_variables@, smsh.env_variables@),
    {
        match self.expansion {
            Expansion::Variable => {
                match smsh.get_user_variable(self.text.as_str()) {
                    Option::Some(v) => {
                        self.text = v;
                    },
                    Option::None => {
                        self.text = String::new();
                    },
                }
            },
            Expansion::Environment => {
                match smsh.get_env_variable(self.text.as_str()) {
                    Option::Some(v) => {
                        self.text = v;
                    },
                    Option::None => {
                        self.text = String::new();
                    },
                }
            },
            Expansion::Plain | Expansion::Subshell => {},
        }
    }

    /// Copies this token, keeping every field's contents.
    pub fn duplicate(&self) -> (r: Token)
        ensures
            r@ == self@,
    {
        let r = Token {
            text: self.text.clone(),
            quote: self.quote,
            expansion: self.expansion,
            selection: self.selection,
            separated_text: crate::strutil::clone_string_vec(&self.separated_text),
            selected_text: crate::strutil::clone_string_vec(&self.selected_text),
        };
        proof {
            assert(r.separated_text.deep_view() =~= self.separated_text.deep_view());
            assert(r.selected_text.deep_view() =~= self.selected_text.deep_view());
        }
        r
    }

    /// True when the token's text is empty.
    pub fn is_empty(&self) -> (r: bool)
        ensures
            r == (self.text@.len() == 0),
    {
        self.text.as_str().is_empty()
    }

    /// The token's current text.
    pub fn text(&self) -> (r: &str)
        ensures
            r@ == self.text@,
    {
        self.text.as_str()
    }
}

} // verus!
