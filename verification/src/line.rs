//! Lines.  A `Line` is one logical line: its raw text, its tokens, its
//! classification (normal command, empty, or shell construct) and its
//! origin.  Classification looks at the line's first word; block-opening
//! constructs must end with a colon, which is stripped before the header
//! is tokenized.

use vstd::prelude::*;

use crate::error::ShellError;
use crate::scan::{get_tokens, spec_parts, spec_tokens_err, tokens_obey_parts};
use crate::sources::SourceKind;
use crate::strutil::{chars_of, copy_range, is_space};
use crate::token::Token;

verus! {

/// The shell constructs a line can open or take part in.
#[derive(Clone, Copy, PartialEq, Eq, Debug)]
pub enum Construct {
    If,
    Elif,
    Else,
    FunctionDefinition,
    For,
    While,
    Let,
}

/// The kind of command a line holds.
#[derive(Clone, Copy, PartialEq, Eq, Debug)]
pub enum LineType {
    /// An ordinary command pipeline.
    Normal,
    /// Nothing but whitespace.
    Empty,
    /// A construct header (or `let` / `else` line).
    ShellConstruct(Construct),
}

/// Where a line came from, and which line it was there.  Used in
/// error reporting; never modified after creation.
#[derive(Clone, PartialEq, Eq, Debug)]
pub struct LineID {
    pub source_kind: SourceKind,
    pub line_num: usize,
}

/// One logical line given to the shell.
#[derive(Clone, PartialEq, Eq, Debug)]
pub struct Line {
    pub line_id: LineID,
    pub raw_text: String,
    pub tokens: Vec<Token>,
    pub line_type: LineType,
    pub indentation: usize,
}

/// Characters that carry indentation.
pub open spec fn is_indent_char(c: char) -> bool {
    c == ' ' || c == '\t'
}

/// The length of the leading run of spaces and tabs.
pub open spec fn indent_run(s: Seq<char>) -> nat
    decreases s.len(),
{
    if s.len() == 0 || !is_indent_char(s[0]) {
        0
    } else {
        1 + indent_run(s.drop_first())
    }
}

/// Folds the indentation count over a leading whitespace run: a tab, or
/// every fourth space, adds one level.
pub open spec fn indent_fold(s: Seq<char>) -> (nat, nat)
    decreases s.len(),
{
    if s.len() == 0 {
        (0, 0)
    } else {
        let p = indent_fold(s.drop_last());
        if s.last() == ' ' {
            if p.1 == 3 {
                (p.0 + 1, 0)
            } else {
                (p.0, p.1 + 1)
            }
        } else {
            (p.0 + 1, 0)
        }
    }
}

/// A line's indentation: four spaces or one tab make one level.
pub open spec fn spec_indentation(s: Seq<char>) -> nat {
    indent_fold(s.take(indent_run(s) as int)).0
}

/// The length of the trailing whitespace run.
pub open spec fn trail_ws(s: Seq<char>) -> nat
    decreases s.len(),
{
    if s.len() == 0 || !is_space(s.last()) {
        0
    } else {
        1 + trail_ws(s.drop_last())
    }
}

/// The de-indented, right-trimmed body of a raw line.
pub open spec fn spec_body(s: Seq<char>) -> Seq<char> {
    if indent_run(s) + trail_ws(s) <= s.len() {
        s.subrange(indent_run(s) as int, s.len() - trail_ws(s))
    } else {
        Seq::empty()
    }
}

/// The index of the first whitespace character (or the length).
pub open spec fn first_space_idx(s: Seq<char>) -> nat
    decreases s.len(),
{
    if s.len() == 0 || is_space(s[0]) {
        0
    } else {
        1 + first_space_idx(s.drop_first())
    }
}

/// The construct a bare keyword names.
pub open spec fn spec_construct_of(w: Seq<char>) -> Option<Construct> {
    if w == seq!['i', 'f'] {
        Option::Some(Construct::If)
    } else if w == seq!['e', 'l', 'i', 'f'] {
        Option::Some(Construct::Elif)
    } else if w == seq!['e', 'l', 's', 'e'] {
        Option::Some(Construct::Else)
    } else if w == seq!['f', 'n'] {
        Option::Some(Construct::FunctionDefinition)
    } else if w == seq!['f', 'o', 'r'] {
        Option::Some(Construct::For)
    } else if w == seq!['w', 'h', 'i', 'l', 'e'] {
        Option::Some(Construct::While)
    } else if w == seq!['l', 'e', 't'] {
        Option::Some(Construct::Let)
    } else {
        Option::None
    }
}

/// Whether a construct opens an indented block (everything but `let`).
pub open spec fn is_block_construct(c: Construct) -> bool {
    !(c is Let)
}

/// Classifies a trimmed line body and names the text to tokenize: for a
/// block construct the body without its required trailing colon, else
/// the body itself.  A block keyword without the colon is an error.
pub open spec fn spec_line_parse(body: Seq<char>) -> Result<(LineType, Seq<char>), ShellError> {
    if body.len() == 0 {
        Result::Ok((LineType::Empty, body))
    } else {
        let w = body.take(first_space_idx(body) as int);
        let wc = if w.len() > 0 && w.last() == ':' {
            w.drop_last()
        } else {
            w
        };
        match spec_construct_of(wc) {
            Option::Some(c) => {
                if is_block_construct(c) {
                    if body.last() == ':' {
                        Result::Ok((LineType::ShellConstruct(c), body.drop_last()))
                    } else {
                        Result::Err(ShellError::MissingColon)
                    }
                } else {
                    if w == wc {
                        Result::Ok((LineType::ShellConstruct(Construct::Let), body))
                    } else {
                        Result::Ok((LineType::Normal, body))
                    }
                }
            },
            Option::None => Result::Ok((LineType::Normal, body)),
        }
    }
}

/// The ghost image of a line's whole state.
pub ghost struct LineView {
    pub kind: crate::sources::SourceKindV,
    pub line_num: usize,
    pub raw: Seq<char>,
    pub tokens: Seq<crate::token::TokenView>,
    pub line_type: LineType,
    pub indentation: usize,
}

impl View for Line {
    type V = LineView;

    open spec fn view(&self) -> LineView {
        LineView {
            kind: self.line_id.source_kind@,
            line_num: self.line_id.line_num,
            raw: self.raw_text@,
            tokens: self.tokens.deep_view(),
            line_type: self.line_type,
            indentation: self.indentation,
        }
    }
}

impl DeepView for Line {
    type V = LineView;

    open spec fn deep_view(&self) -> LineView {
        self@
    }
}

/// The fields of `fields` that are not empty, in order.
pub open spec fn nonempty_fields(fields: Seq<Seq<char>>) -> Seq<Seq<char>>
    decreases fields.len(),
{
    if fields.len() == 0 {
        Seq::empty()
    } else {
        nonempty_fields(fields.drop_last()) + (if fields.last().len() > 0 {
            seq![fields.last()]
        } else {
            Seq::<Seq<char>>::empty()
        })
    }
}

/// One more field extends the filtered sequence.
pub proof fn lemma_nonempty_fields_push(fields: Seq<Seq<char>>, f: Seq<char>)
    ensures
        nonempty_fields(fields.push(f)) == nonempty_fields(fields) + (if f.len() > 0 {
            seq![f]
        } else {
            Seq::<Seq<char>>::empty()
        }),
{
    assert(fields.push(f).drop_last() =~= fields);
    assert(fields.push(f).last() == f);
}

/// A line's argument vector: every token's selected fields, in order,
/// with empty fields dropped.
pub open spec fn spec_argv(tokens: Seq<crate::token::TokenView>) -> Seq<Seq<char>>
    decreases tokens.len(),
{
    if tokens.len() == 0 {
        Seq::empty()
    } else {
        spec_argv(tokens.drop_last()) + nonempty_fields(tokens.last().selected)
    }
}

/// One more token extends the argument vector.
pub proof fn lemma_spec_argv_push(tokens: Seq<crate::token::TokenView>, t: crate::token::TokenView)
    ensures
        spec_argv(tokens.push(t)) == spec_argv(tokens) + nonempty_fields(t.selected),
{
    assert(tokens.push(t).drop_last() =~= tokens);
    assert(tokens.push(t).last() == t);
}

/// The length of the whitespace run at the start of `s`.
pub open spec fn ws_run(s: Seq<char>) -> nat
    decreases s.len(),
{
    if s.len() == 0 || !is_space(s[0]) {
        0
    } else {
        1 + ws_run(s.drop_first())
    }
}

/// The whitespace run of `s` starts where the first other character is.
proof fn lemma_ws_run_at(s: Seq<char>, i: int)
    requires
        0 <= i <= s.len(),
        forall|j: int| 0 <= j < i ==> is_space(s[j]),
        i == s.len() || !is_space(s[i]),
    ensures
        ws_run(s) == i,
    decreases s.len(),
{
    if s.len() == 0 {
    } else if i == 0 {
    } else {
        lemma_ws_run_at(s.drop_first(), i - 1);
    }
}

/// The conditional of a construct header: the header text after its
/// keyword and the following whitespace.  Nothing when the line is
/// malformed or no conditional follows the keyword.
pub open spec fn spec_conditional(raw: Seq<char>) -> Option<Seq<char>> {
    match spec_line_parse(spec_body(raw)) {
        Result::Ok(p) => {
            let header = p.1;
            let w = first_space_idx(header) as int;
            let start = w + ws_run(header.skip(w));
            if start < header.len() {
                Option::Some(header.skip(start))
            } else {
                Option::None
            }
        },
        Result::Err(_) => Option::None,
    }
}

/// The diagnostic rendering of a line, by origin.
pub open spec fn spec_render(l: Line) -> Seq<char> {
    match l.line_id.source_kind {
        SourceKind::Tty => "\tTTY line "@ + crate::strutil::spec_dec(l.line_id.line_num as nat)
            + ": "@ + l.raw_text@,
        SourceKind::Subshell => "\tSubshell Expansion line "@ + crate::strutil::spec_dec(
            l.line_id.line_num as nat,
        ) + ": "@ + l.raw_text@,
        SourceKind::UserFunction(s) => "\tFunction `"@ + s@ + "` line "@
            + crate::strutil::spec_dec(l.line_id.line_num as nat) + ": "@ + l.raw_text@,
        SourceKind::Script(s) => "\tScript `"@ + s@ + "` line "@ + crate::strutil::spec_dec(
            l.line_id.line_num as nat,
        ) + ": "@ + l.raw_text@,
    }
}

/// `Line::new(raw, ..)` fails with `e`: the body's classification
/// fails so (a block keyword without its colon), or tokenizing the
/// header does.
pub open spec fn spec_line_new_err(raw: Seq<char>, e: ShellError) -> bool {
    ||| spec_line_parse(spec_body(raw)) == Result::<(LineType, Seq<char>), ShellError>::Err(e)
    ||| (spec_line_parse(spec_body(raw)) is Ok && spec_tokens_err(
        spec_line_parse(spec_body(raw))->Ok_0.1,
        e,
    ))
}

/// The relation between a raw line and the `Line` built from it.
pub open spec fn line_obeys_new(l: Line, raw: Seq<char>, num: usize, kind: crate::sources::SourceKindV) -> bool {
    &&& l.raw_text@ == raw
    &&& l.line_id.line_num == num
    &&& l.line_id.source_kind@ == kind
    &&& l.indentation == spec_indentation(raw)
    &&& spec_line_parse(spec_body(raw)) is Ok
    &&& l.line_type == spec_line_parse(spec_body(raw))->Ok_0.0
    &&& spec_parts(spec_line_parse(spec_body(raw))->Ok_0.1) is Ok
    &&& tokens_obey_parts(l.tokens@, spec_parts(spec_line_parse(spec_body(raw))->Ok_0.1)->Ok_0)
}

/// The run of leading spaces and tabs is where the first other
/// character stands.
proof fn lemma_indent_run_at(s: Seq<char>, i: int)
    requires
        0 <= i <= s.len(),
        forall|j: int| 0 <= j < i ==> is_indent_char(s[j]),
        i == s.len() || !is_indent_char(s[i]),
    ensures
        indent_run(s) == i,
    decreases s.len(),
{
    if s.len() == 0 {
    } else if i == 0 {
    } else {
        lemma_indent_run_at(s.drop_first(), i - 1);
    }
}

/// The trailing whitespace run is bounded by where the last other
/// character stands.
proof fn lemma_trail_ws_at(s: Seq<char>, j: int)
    requires
        0 <= j <= s.len(),
        forall|k: int| j <= k < s.len() ==> is_space(s[k]),
        j == 0 || !is_space(s[j - 1]),
    ensures
        trail_ws(s) == s.len() - j,
    decreases s.len(),
{
    if s.len() == 0 {
    } else if j == s.len() {
    } else {
        lemma_trail_ws_at(s.drop_last(), j);
    }
}

/// A run of trailing whitespace bounds `trail_ws` from below.
proof fn lemma_trail_ws_ge(s: Seq<char>, j: int)
    requires
        0 <= j <= s.len(),
        forall|k: int| j <= k < s.len() ==> is_space(s[k]),
    ensures
        trail_ws(s) >= s.len() - j,
    decreases s.len(),
{
    if s.len() == 0 || j == s.len() {
    } else {
        lemma_trail_ws_ge(s.drop_last(), j);
    }
}

/// The first whitespace character of `s` is at `i`.
proof fn lemma_first_space_at(s: Seq<char>, i: int)
    requires
        0 <= i <= s.len(),
        forall|j: int| 0 <= j < i ==> !is_space(s[j]),
        i == s.len() || is_space(s[i]),
    ensures
        first_space_idx(s) == i,
    decreases s.len(),
{
    if s.len() == 0 {
    } else if i == 0 {
    } else {
        lemma_first_space_at(s.drop_first(), i - 1);
    }
}

/// Folding the indentation over one more character.
proof fn lemma_indent_fold_push(s: Seq<char>, c: char)
    ensures
        indent_fold(s.push(c)) == ({
            let p = indent_fold(s);
            if c == ' ' {
                if p.1 == 3 {
                    ((p.0 + 1) as nat, 0nat)
                } else {
                    (p.0, (p.1 + 1) as nat)
                }
            } else {
                ((p.0 + 1) as nat, 0nat)
            }
        }),
{
    assert(s.push(c).drop_last() =~= s);
    assert(s.push(c).last() == c);
}

/// Computes a line's indentation: a tab, or each complete group of four
/// spaces, in the leading whitespace run counts one level.
pub fn determine_indentation(line: &str) -> (r: usize)
    ensures
        r == spec_indentation(line@),
{
    let cs = chars_of(line);
    let ghost s = line@;
    let n = cs.len();
    let mut levels: usize = 0;
    let mut spaces: usize = 0;
    let mut i: usize = 0;
    while i < n
        invariant
            cs@ == s,
            n == s.len(),
            i <= n,
            levels <= i,
            spaces <= 3,
            forall|j: int| 0 <= j < i ==> is_indent_char(s[j]),
            indent_fold(s.take(i as int)) == (levels as nat, spaces as nat),
        decreases n - i,
    {
        let c = cs[i];
        proof {
            lemma_indent_fold_push(s.take(i as int), s[i as int]);
            assert(s.take(i as int).push(s[i as int]) =~= s.take(i + 1));
        }
        if c == ' ' {
            if spaces == 3 {
                levels = levels + 1;
                spaces = 0;
            } else {
                spaces = spaces + 1;
            }
        } else if c == '\t' {
            levels = levels + 1;
            spaces = 0;
        } else {
            proof {
                lemma_indent_run_at(s, i as int);
            }
            return levels;
        }
        i = i + 1;
    }
    proof {
        lemma_indent_run_at(s, n as int);
        assert(s.take(n as int) =~= s);
    }
    levels
}

/// Classifies a line by its first word (the colon already stripped):
/// the construct keywords open constructs, anything else is a normal
/// command.
pub fn determine_line_type(first_word: &str) -> (r: LineType)
    ensures
        r == (match spec_construct_of(first_word@) {
            Option::Some(c) => LineType::ShellConstruct(c),
            Option::None => LineType::Normal,
        }),
{
    proof {
        reveal_strlit("if");
        reveal_strlit("elif");
        reveal_strlit("else");
        reveal_strlit("fn");
        reveal_strlit("for");
        reveal_strlit("while");
        reveal_strlit("let");
        assert("if"@ =~= seq!['i', 'f']);
        assert("elif"@ =~= seq!['e', 'l', 'i', 'f']);
        assert("else"@ =~= seq!['e', 'l', 's', 'e']);
        assert("fn"@ =~= seq!['f', 'n']);
        assert("for"@ =~= seq!['f', 'o', 'r']);
        assert("while"@ =~= seq!['w', 'h', 'i', 'l', 'e']);
        assert("let"@ =~= seq!['l', 'e', 't']);
    }
    if crate::strutil::str_eq(first_word, "if") {
        LineType::ShellConstruct(Construct::If)
    } else if crate::strutil::str_eq(first_word, "elif") {
        LineType::ShellConstruct(Construct::Elif)
    } else if crate::strutil::str_eq(first_word, "else") {
        LineType::ShellConstruct(Construct::Else)
    } else if crate::strutil::str_eq(first_word, "fn") {
        LineType::ShellConstruct(Construct::FunctionDefinition)
    } else if crate::strutil::str_eq(first_word, "for") {
        LineType::ShellConstruct(Construct::For)
    } else if crate::strutil::str_eq(first_word, "while") {
        LineType::ShellConstruct(Construct::While)
    } else if crate::strutil::str_eq(first_word, "let") {
        LineType::ShellConstruct(Construct::Let)
    } else {
        LineType::Normal
    }
}

/// Cuts the de-indented, right-trimmed body out of a raw line.
fn body_of(raw: &str) -> (r: String)
    ensures
        r@ == spec_body(raw@),
{
    let cs = chars_of(raw);
    let ghost s = raw@;
    let n = cs.len();
    // Leading indentation run.
    let mut i0: usize = 0;
    while i0 < n && (cs[i0] == ' ' || cs[i0] == '\t')
        invariant
            cs@ == s,
            n == s.len(),
            i0 <= n,
            forall|j: int| 0 <= j < i0 ==> is_indent_char(s[j]),
        decreases n - i0,
    {
        i0 = i0 + 1;
    }
    proof {
        lemma_indent_run_at(s, i0 as int);
    }
    // Trailing whitespace run, stopping at the indentation run.
    let mut j0: usize = n;
    while j0 > i0 && crate::strutil::is_space_char(cs[j0 - 1])
        invariant
            cs@ == s,
            n == s.len(),
            i0 <= j0 <= n,
            forall|k: int| j0 <= k < n ==> is_space(s[k]),
        decreases j0,
    {
        j0 = j0 - 1;
    }
    if j0 == i0 {
        // Nothing but whitespace (or empty).
        proof {
            lemma_trail_ws_ge(s, j0 as int);
            if indent_run(s) + trail_ws(s) <= s.len() {
                assert(s.subrange(i0 as int, s.len() - trail_ws(s)) =~= Seq::<char>::empty());
            }
        }
        String::new()
    } else {
        proof {
            lemma_trail_ws_at(s, j0 as int);
        }
        copy_range(&cs, i0, j0)
    }
}

/// The first whitespace-free word of a trimmed body.
fn first_word_of(body: &str) -> (r: String)
    ensures
        r@ == body@.take(first_space_idx(body@) as int),
{
    let cs = chars_of(body);
    let ghost s = body@;
    let n = cs.len();
    let mut i: usize = 0;
    while i < n && !crate::strutil::is_space_char(cs[i])
        invariant
            cs@ == s,
            n == s.len(),
            i <= n,
            forall|j: int| 0 <= j < i ==> !is_space(s[j]),
        decreases n - i,
    {
        i = i + 1;
    }
    proof {
        lemma_first_space_at(s, i as int);
    }
    copy_range(&cs, 0, i)
}

/// Classifies a trimmed line body: yields its kind and the text the
/// tokens come from (the body without its trailing colon, for a block
/// construct).
fn parse_body(body: String) -> (r: Result<(LineType, String), ShellError>)
    ensures
        match r {
            Ok(p) => spec_line_parse(body@) == Result::<(LineType, Seq<char>), ShellError>::Ok(
                (p.0, p.1@),
            ),
            Err(e) => spec_line_parse(body@) == Result::<(LineType, Seq<char>), ShellError>::Err(
                e,
            ),
        },
{
    let ghost b = body@;
    if body.as_str().unicode_len() == 0 {
        proof {
            assert(b =~= Seq::<char>::empty());
        }
        return Result::Ok((LineType::Empty, body));
    }
    let word = first_word_of(body.as_str());
    let wcs = chars_of(word.as_str());
    let stripped_word = if wcs.len() > 0 && wcs[wcs.len() - 1] == ':' {
        proof {
            assert(word@.take(word@.len() - 1) =~= word@.drop_last());
        }
        copy_range(&wcs, 0, wcs.len() - 1)
    } else {
        word.clone()
    };
    let word_type = determine_line_type(stripped_word.as_str());

    match word_type {
        LineType::ShellConstruct(c) => {
            match c {
                Construct::Let => {
                    if stripped_word.as_str().unicode_len() == word.as_str().unicode_len() {
                        Result::Ok((LineType::ShellConstruct(Construct::Let), body))
                    } else {
                        Result::Ok((LineType::Normal, body))
                    }
                },
                _ => {
                    let bcs = chars_of(body.as_str());
                    if bcs[bcs.len() - 1] == ':' {
                        proof {
                            assert(b.take(b.len() - 1) =~= b.drop_last());
                        }
                        let header = copy_range(&bcs, 0, bcs.len() - 1);
                        Result::Ok((LineType::ShellConstruct(c), header))
                    } else {
                        Result::Err(ShellError::MissingColon)
                    }
                },
            }
        },
        _ => Result::Ok((LineType::Normal, body)),
    }
}

/// Copies a block of lines, keeping every line's whole state.
pub fn duplicate_lines(v: &Vec<Line>) -> (r: Vec<Line>)
    ensures
        r@.len() == v@.len(),
        forall|i: int| 0 <= i < v@.len() ==> (#[trigger] r@[i])@ == v@[i]@,
{
    let mut r = Vec::<Line>::new();
    let mut i: usize = 0;
    while i < v.len()
        invariant
            i <= v@.len(),
            r@.len() == i,
            forall|j: int| 0 <= j < i ==> (#[trigger] r@[j])@ == v@[j]@,
        decreases v@.len() - i,
    {
        r.push(v[i].duplicate());
        i = i + 1;
    }
    r
}

impl Line {
    /// Builds a logical line: measures its indentation, classifies it by
    /// its first word — a block-opening construct must end with `:`,
    /// which is stripped — and carves the remaining text into tokens.
    pub fn new(raw_text: String, line_num: usize, source_kind: SourceKind) -> (r: Result<
        Line,
        ShellError,
    >)
        ensures
            match r {
                Ok(l) => line_obeys_new(l, raw_text@, line_num, source_kind@),
                Err(e) => spec_line_new_err(raw_text@, e),
            },
    {
        let indentation = determine_indentation(raw_text.as_str());
        let body = body_of(raw_text.as_str());
        let line_id = LineID { source_kind, line_num };

        let (line_type, header) = match parse_body(body) {
            Result::Ok(p) => p,
            Result::Err(e) => {
                return Result::Err(e);
            },
        };

        let tokens = match get_tokens(header.as_str()) {
            Result::Ok(tokens) => tokens,
            Result::Err(e) => {
                return Result::Err(e);
            },
        };

        Result::Ok(Line { line_id, raw_text, tokens, line_type, indentation })
    }

    /// Executes this line against the shell: a normal line becomes a
    /// pipeline plan, `let`, `fn` and `for` finish inside the library,
    /// and `if` and `while` come back as collected chains for the front
    /// end to evaluate.
    pub fn execute(&self, smsh: &mut crate::shell::Shell) -> (r: Result<
        crate::shell::Work,
        ShellError,
    >)
        ensures
            self.line_type is Empty ==> r == Result::<crate::shell::Work, ShellError>::Ok(
                crate::shell::Work::Completed,
            ) && *final(smsh) == *old(smsh),
            self.line_type is Normal ==> match r {
                Ok(w) => *final(smsh) == *old(smsh) && (match w {
                    crate::shell::Work::RunPipeline(p) => crate::pipeline::spec_pipeline_ok(
                        self.tokens.deep_view(),
                    ) && crate::pipeline::elements_obey_groups(
                        p.elements@,
                        crate::pipeline::spec_pipeline_groups(self.tokens.deep_view()),
                        *old(smsh),
                    ),
                    _ => false,
                }),
                Err(e) => e == ShellError::EmptyPipeElement && !crate::pipeline::spec_pipeline_ok(
                    self.tokens.deep_view(),
                ) && *final(smsh) == *old(smsh),
            },
            match self.line_type {
                LineType::ShellConstruct(c) => match c {
                    Construct::If | Construct::Elif | Construct::Else => match r {
                        Ok(w) => (w matches crate::shell::Work::EvaluateIf(chain)
                            && crate::constructs::if_collect_post(
                            *old(smsh),
                            *final(smsh),
                            *self,
                            Result::Ok(chain),
                        )),
                        Err(e) => crate::constructs::if_collect_post(
                            *old(smsh),
                            *final(smsh),
                            *self,
                            Result::Err(e),
                        ),
                    },
                    Construct::While => match r {
                        Ok(w) => (w matches crate::shell::Work::EvaluateWhile(clause)
                            && crate::constructs::while_collect_post(
                            *old(smsh),
                            *final(smsh),
                            *self,
                            self.tokens.deep_view(),
                            Result::Ok(clause),
                        )),
                        Err(e) => crate::constructs::while_collect_post(
                            *old(smsh),
                            *final(smsh),
                            *self,
                            self.tokens.deep_view(),
                            Result::Err(e),
                        ),
                    },
                    Construct::For => match r {
                        Ok(w) => w is Completed && crate::constructs::for_post(
                            *old(smsh),
                            *final(smsh),
                            *self,
                            self.tokens.deep_view(),
                            Result::Ok(()),
                        ),
                        Err(e) => crate::constructs::for_post(
                            *old(smsh),
                            *final(smsh),
                            *self,
                            self.tokens.deep_view(),
                            Result::Err(e),
                        ),
                    },
                    Construct::Let => match r {
                        Ok(w) => w is Completed && crate::constructs::let_post(
                            *old(smsh),
                            *final(smsh),
                            self.tokens.deep_view(),
                            Result::Ok(()),
                        ),
                        Err(e) => crate::constructs::let_post(
                            *old(smsh),
                            *final(smsh),
                            self.tokens.deep_view(),
                            Result::Err(e),
                        ),
                    },
                    Construct::FunctionDefinition => match r {
                        Ok(w) => w is Completed && crate::constructs::fn_post(
                            *old(smsh),
                            *final(smsh),
                            *self,
                            self.tokens.deep_view(),
                            Result::Ok(()),
                        ),
                        Err(e) => crate::constructs::fn_post(
                            *old(smsh),
                            *final(smsh),
                            *self,
                            self.tokens.deep_view(),
                            Result::Err(e),
                        ),
                    },
                },
                _ => true,
            },
            r is Ok ==> !(r->Ok_0 is Eof),
    {
        match self.line_type {
            LineType::Normal => {
                match crate::pipeline::Pipeline::new(self, smsh) {
                    Result::Ok(p) => Result::Ok(crate::shell::Work::RunPipeline(p)),
                    Result::Err(e) => Result::Err(e),
                }
            },
            LineType::Empty => Result::Ok(crate::shell::Work::Completed),
            LineType::ShellConstruct(c) => {
                match c {
                    Construct::If | Construct::Elif | Construct::Else => {
                        match crate::constructs::if_construct(smsh, self) {
                            Result::Ok(chain) => Result::Ok(
                                crate::shell::Work::EvaluateIf(chain),
                            ),
                            Result::Err(e) => Result::Err(e),
                        }
                    },
                    Construct::While => {
                        match crate::constructs::while_construct(smsh, self) {
                            Result::Ok(clause) => Result::Ok(
                                crate::shell::Work::EvaluateWhile(clause),
                            ),
                            Result::Err(e) => Result::Err(e),
                        }
                    },
                    Construct::For => {
                        match crate::constructs::for_construct(smsh, self) {
                            Result::Ok(()) => Result::Ok(crate::shell::Work::Completed),
                            Result::Err(e) => Result::Err(e),
                        }
                    },
                    Construct::Let => {
                        match crate::constructs::let_construct(smsh, self) {
                            Result::Ok(()) => Result::Ok(crate::shell::Work::Completed),
                            Result::Err(e) => Result::Err(e),
                        }
                    },
                    Construct::FunctionDefinition => {
                        match crate::constructs::fn_construct(smsh, self) {
                            Result::Ok(()) => Result::Ok(crate::shell::Work::Completed),
                            Result::Err(e) => Result::Err(e),
                        }
                    },
                }
            },
        }
    }

    /// The line's indentation level.
    pub fn indentation(&self) -> (r: usize)
        ensures
            r == self.indentation,
    {
        self.indentation
    }

    /// The line's identity: origin and line number.
    pub fn identifier(&self) -> (r: &LineID)
        ensures
            r == &self.line_id,
    {
        &self.line_id
    }

    /// The line's origin.
    pub fn source(&self) -> (r: &SourceKind)
        ensures
            r == &self.line_id.source_kind,
    {
        &self.line_id.source_kind
    }

    /// The raw text the line was built from.
    pub fn raw_text(&self) -> (r: &str)
        ensures
            r@ == self.raw_text@,
    {
        self.raw_text.as_str()
    }

    /// The line's tokens.
    pub fn tokens(&self) -> (r: &Vec<Token>)
        ensures
            r == &self.tokens,
    {
        &self.tokens
    }

    /// The line's argument vector: every token's non-empty selected
    /// fields, flattened in order.
    pub fn argv(&self) -> (r: Vec<String>)
        ensures
            r.deep_view() == spec_argv(self.tokens.deep_view()),
    {
        let ghost ts = self.tokens.deep_view();
        let mut r = Vec::<String>::new();
        proof {
            assert(r.deep_view() =~= spec_argv(ts.take(0int)));
        }
        let mut i: usize = 0;
        while i < self.tokens.len()
            invariant
                ts == self.tokens.deep_view(),
                i <= self.tokens@.len(),
                r.deep_view() == spec_argv(ts.take(i as int)),
            decreases self.tokens@.len() - i,
        {
            let token = &self.tokens[i];
            let ghost fs = token@.selected;
            let ghost r_at_token = r.deep_view();
            proof {
                lemma_spec_argv_push(ts.take(i as int), ts[i as int]);
                assert(ts.take(i as int).push(ts[i as int]) =~= ts.take(i + 1));
                assert(nonempty_fields(fs.take(0int)) =~= Seq::<Seq<char>>::empty());
                assert(r.deep_view() =~= r_at_token + nonempty_fields(fs.take(0int)));
            }
            let mut j: usize = 0;
            while j < token.selected_text.len()
                invariant
                    fs == token@.selected,
                    ts == self.tokens.deep_view(),
                    i < self.tokens@.len(),
                    token == &self.tokens[i as int],
                    j <= token.selected_text@.len(),
                    r.deep_view() == r_at_token + nonempty_fields(fs.take(j as int)),
                decreases token.selected_text@.len() - j,
            {
                let ghost before = r.deep_view();
                let field = &token.selected_text[j];
                proof {
                    lemma_nonempty_fields_push(fs.take(j as int), fs[j as int]);
                    assert(fs.take(j as int).push(fs[j as int]) =~= fs.take(j + 1));
                    assert(fs[j as int] == token.selected_text@[j as int]@);
                }
                if !field.as_str().is_empty() {
                    r.push(field.clone());
                    proof {
                        assert(r.deep_view() =~= before.push(fs[j as int]));
                        assert(before.push(fs[j as int]) =~= r_at_token + nonempty_fields(
                            fs.take(j + 1),
                        ));
                    }
                } else {
                    proof {
                        assert(nonempty_fields(fs.take(j + 1)) =~= nonempty_fields(
                            fs.take(j as int),
                        ));
                    }
                }
                j = j + 1;
            }
            proof {
                assert(fs.take(token.selected_text@.len() as int) =~= fs);
            }
            i = i + 1;
        }
        proof {
            assert(ts.take(self.tokens@.len() as int) =~= ts);
        }
        r
    }

    /// The conditional of an `if`, `elif` or `while` header: the header
    /// text after the keyword, verbatim.  A header with nothing after
    /// its keyword has no conditional.
    pub fn get_conditional(&self) -> (r: Result<String, ShellError>)
        ensures
            match r {
                Ok(c) => spec_conditional(self.raw_text@) == Option::Some(c@),
                Err(e) => e == ShellError::NoConditional && spec_conditional(self.raw_text@)
                    is None,
            },
    {
        let body = body_of(self.raw_text.as_str());
        let header = match parse_body(body) {
            Result::Ok(p) => p.1,
            Result::Err(_) => {
                return Result::Err(ShellError::NoConditional);
            },
        };
        let cs = chars_of(header.as_str());
        let ghost h = header@;
        let n = cs.len();
        // Skip the keyword.
        let mut i: usize = 0;
        while i < n && !crate::strutil::is_space_char(cs[i])
            invariant
                cs@ == h,
                n == h.len(),
                i <= n,
                forall|j: int| 0 <= j < i ==> !is_space(h[j]),
            decreases n - i,
        {
            i = i + 1;
        }
        proof {
            lemma_first_space_at(h, i as int);
        }
        // Skip the whitespace after it.
        let ghost w = i as int;
        let mut k: usize = i;
        while k < n && crate::strutil::is_space_char(cs[k])
            invariant
                cs@ == h,
                n == h.len(),
                w == i,
                i <= k <= n,
                forall|j: int| i <= j < k ==> is_space(h[j]),
            decreases n - k,
        {
            k = k + 1;
        }
        proof {
            assert forall|j: int| 0 <= j < k - w implies is_space(h.skip(w)[j]) by {
                assert(h.skip(w)[j] == h[w + j]);
            }
            if k < n {
                assert(!is_space(h.skip(w)[k - w]));
            }
            lemma_ws_run_at(h.skip(w), k - w);
        }
        if k < n {
            proof {
                assert(h.subrange(k as int, n as int) =~= h.skip(k as int));
            }
            Result::Ok(copy_range(&cs, k, n))
        } else {
            Result::Err(ShellError::NoConditional)
        }
    }

    /// Expands every token's variable and environment references from
    /// the shell's tables; unset names expand to empty text.  Tokens
    /// marked for command substitution keep their text: the front end
    /// resolves them through `first_subshell_from` and `apply_subshell`.
    pub fn expand(&mut self, smsh: &crate::shell::Shell)
        ensures
            final(self).tokens@.len() == old(self).tokens@.len(),
            forall|i: int|
                0 <= i < old(self).tokens@.len() ==> crate::token::token_expanded(
                    old(self).tokens@[i]@,
                    (#[trigger] final(self).tokens@[i])@,
                    smsh.user_variables@,
                    smsh.env_variables@,
                ),
            final(self).raw_text == old(self).raw_text,
            final(self).line_id == old(self).line_id,
            final(self).line_type == old(self).line_type,
            final(self).indentation == old(self).indentation,
    {
        let n = self.tokens.len();
        let mut i: usize = 0;
        while i < n
            invariant
                n == self.tokens@.len(),
                n == old(self).tokens@.len(),
                i <= n,
                forall|j: int|
                    i <= j < n ==> #[trigger] self.tokens@[j] == old(self).tokens@[j],
                forall|j: int|
                    0 <= j < i ==> crate::token::token_expanded(
                        old(self).tokens@[j]@,
                        (#[trigger] self.tokens@[j])@,
                        smsh.user_variables@,
                        smsh.env_variables@,
                    ),
                self.raw_text == old(self).raw_text,
                self.line_id == old(self).line_id,
                self.line_type == old(self).line_type,
                self.indentation == old(self).indentation,
            decreases n - i,
        {
            let mut t = self.tokens.remove(i);
            t.expand(smsh);
            self.tokens.insert(i, t);
            i = i + 1;
        }
    }

    /// The first token at or after `from` that waits for command
    /// substitution, with the command text to run.
    pub fn first_subshell_from(&self, from: usize) -> (r: Option<(usize, String)>)
        ensures
            match r {
                Some(p) => from <= p.0 < self.tokens@.len() && self.tokens@[p.0 as int]@.expansion
                    is Subshell && p.1@ == self.tokens@[p.0 as int]@.text && (forall|j: int|
                    from <= j < p.0 ==> !((#[trigger] self.tokens@[j])@.expansion is Subshell)),
                None => forall|j: int|
                    from <= j < self.tokens@.len() ==> !((#[trigger] self.tokens@[j])@.expansion
                        is Subshell),
            },
    {
        let n = self.tokens.len();
        let mut i: usize = from;
        if i > n {
            return Option::None;
        }
        while i < n
            invariant
                from <= i <= n,
                n == self.tokens@.len(),
                forall|j: int|
                    from <= j < i ==> !((#[trigger] self.tokens@[j])@.expansion is Subshell),
            decreases n - i,
        {
            let is_subshell = match self.tokens[i].expansion {
                crate::expansion::Expansion::Subshell => true,
                _ => false,
            };
            if is_subshell {
                return Option::Some((i, self.tokens[i].text.clone()));
            }
            i = i + 1;
        }
        Option::None
    }

    /// Hands a command substitution's captured output to its token: the
    /// token's text becomes the output, verbatim.  An index past the
    /// tokens does nothing.
    pub fn apply_subshell(&mut self, index: usize, output: String)
        ensures
            final(self).tokens@.len() == old(self).tokens@.len(),
            index < old(self).tokens@.len() ==> final(self).tokens@[index as int]@ == (
            crate::token::TokenView { text: output@, ..old(self).tokens@[index as int]@ }),
            forall|j: int|
                0 <= j < old(self).tokens@.len() && j != index ==> #[trigger] final(self).tokens@[j] == old(self).tokens@[j],
            final(self).raw_text == old(self).raw_text,
            final(self).line_id == old(self).line_id,
            final(self).line_type == old(self).line_type,
            final(self).indentation == old(self).indentation,
    {
        if index < self.tokens.len() {
            let mut t = self.tokens.remove(index);
            t.text = output;
            self.tokens.insert(index, t);
        }
    }

    /// Splits every token's expanded text into fields.
    pub fn separate(&mut self)
        ensures
            final(self).tokens@.len() == old(self).tokens@.len(),
            forall|i: int|
                0 <= i < old(self).tokens@.len() ==> (#[trigger] final(self).tokens@[i])@ == (
                crate::token::TokenView {
                    separated: crate::token::spec_separated(
                        old(self).tokens@[i]@.text,
                        old(self).tokens@[i]@.quote,
                    ),
                    ..old(self).tokens@[i]@
                }),
            final(self).raw_text == old(self).raw_text,
            final(self).line_id == old(self).line_id,
            final(self).line_type == old(self).line_type,
            final(self).indentation == old(self).indentation,
    {
        let n = self.tokens.len();
        let mut i: usize = 0;
        while i < n
            invariant
                n == self.tokens@.len(),
                n == old(self).tokens@.len(),
                i <= n,
                forall|j: int|
                    i <= j < n ==> #[trigger] self.tokens@[j] == old(self).tokens@[j],
                forall|j: int|
                    0 <= j < i ==> (#[trigger] self.tokens@[j])@ == (crate::token::TokenView {
                        separated: crate::token::spec_separated(
                            old(self).tokens@[j]@.text,
                            old(self).tokens@[j]@.quote,
                        ),
                        ..old(self).tokens@[j]@
                    }),
                self.raw_text == old(self).raw_text,
                self.line_id == old(self).line_id,
                self.line_type == old(self).line_type,
                self.indentation == old(self).indentation,
            decreases n - i,
        {
            let mut t = self.tokens.remove(i);
            t.separate();
            self.tokens.insert(i, t);
            i = i + 1;
        }
    }

    /// Applies every token's selection to its separated text.
    pub fn select(&mut self) -> (r: Result<(), ShellError>)
        ensures
            r is Ok,
            final(self).tokens@.len() == old(self).tokens@.len(),
            forall|i: int|
                0 <= i < old(self).tokens@.len() ==> (#[trigger] final(self).tokens@[i])@ == (
                crate::token::TokenView {
                    selected: crate::token::spec_selected(
                        old(self).tokens@[i]@.separated,
                        old(self).tokens@[i]@.selection,
                    ),
                    ..old(self).tokens@[i]@
                }),
            final(self).raw_text == old(self).raw_text,
            final(self).line_id == old(self).line_id,
            final(self).line_type == old(self).line_type,
            final(self).indentation == old(self).indentation,
    {
        let n = self.tokens.len();
        let mut i: usize = 0;
        while i < n
            invariant
                n == self.tokens@.len(),
                n == old(self).tokens@.len(),
                i <= n,
                forall|j: int|
                    i <= j < n ==> #[trigger] self.tokens@[j] == old(self).tokens@[j],
                forall|j: int|
                    0 <= j < i ==> (#[trigger] self.tokens@[j])@ == (crate::token::TokenView {
                        selected: crate::token::spec_selected(
                            old(self).tokens@[j]@.separated,
                            old(self).tokens@[j]@.selection,
                        ),
                        ..old(self).tokens@[j]@
                    }),
                self.raw_text == old(self).raw_text,
                self.line_id == old(self).line_id,
                self.line_type == old(self).line_type,
                self.indentation == old(self).indentation,
            decreases n - i,
        {
            let mut t = self.tokens.remove(i);
            let _ = t.select();
            self.tokens.insert(i, t);
            i = i + 1;
        }
        Result::Ok(())
    }

    /// Copies this line, keeping its whole state.
    pub fn duplicate(&self) -> (r: Line)
        ensures
            r@ == self@,
    {
        let mut tokens = Vec::<Token>::new();
        let ghost ts = self.tokens.deep_view();
        proof {
            assert(tokens.deep_view() =~= ts.take(0int));
        }
        let mut i: usize = 0;
        while i < self.tokens.len()
            invariant
                ts == self.tokens.deep_view(),
                i <= self.tokens@.len(),
                tokens.deep_view() == ts.take(i as int),
            decreases self.tokens@.len() - i,
        {
            let ghost before = tokens.deep_view();
            tokens.push(self.tokens[i].duplicate());
            proof {
                assert(tokens.deep_view() =~= before.push(ts[i as int]));
                assert(ts.take(i as int).push(ts[i as int]) =~= ts.take(i + 1));
            }
            i = i + 1;
        }
        proof {
            assert(ts.take(self.tokens@.len() as int) =~= ts);
        }
        let r = Line {
            line_id: LineID {
                source_kind: self.line_id.source_kind.duplicate(),
                line_num: self.line_id.line_num,
            },
            raw_text: self.raw_text.clone(),
            tokens,
            line_type: self.line_type,
            indentation: self.indentation,
        };
        r
    }

    /// Renders this line for the diagnostic backtrace.
    pub fn render(&self) -> (r: String)
        ensures
            r@ == spec_render(*self),
    {
        let mut r = String::new();
        match &self.line_id.source_kind {
            SourceKind::Tty => {
                r.append("\tTTY line ");
            },
            SourceKind::Subshell => {
                r.append("\tSubshell Expansion line ");
            },
            SourceKind::UserFunction(s) => {
                r.append("\tFunction `");
                r.append(s.as_str());
                r.append("` line ");
            },
            SourceKind::Script(s) => {
                r.append("\tScript `");
                r.append(s.as_str());
                r.append("` line ");
            },
        }
        let num = crate::strutil::dec_string(self.line_id.line_num);
        r.append(num.as_str());
        r.append(": ");
        r.append(self.raw_text.as_str());
        r
    }

    /// True of an `elif` line.
    pub fn is_elif(&self) -> (r: bool)
        ensures
            r == (self.line_type == LineType::ShellConstruct(Construct::Elif)),
    {
        match self.line_type {
            LineType::ShellConstruct(Construct::Elif) => true,
            _ => false,
        }
    }

    /// True of an `else` line.
    pub fn is_else(&self) -> (r: bool)
        ensures
            r == (self.line_type == LineType::ShellConstruct(Construct::Else)),
    {
        match self.line_type {
            LineType::ShellConstruct(Construct::Else) => true,
            _ => false,
        }
    }

    /// True of an `if` line.
    pub fn is_if(&self) -> (r: bool)
        ensures
            r == (self.line_type == LineType::ShellConstruct(Construct::If)),
    {
        match self.line_type {
            LineType::ShellConstruct(Construct::If) => true,
            _ => false,
        }
    }
}

} // verus!
