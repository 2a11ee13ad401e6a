//! Sources of logical lines, and the completeness tests a front end uses
//! to decide when it has read one.  A logical line is complete when it
//! ends outside any quote, not in an escaped newline, and not in a
//! trailing pipe; a construct block is finished once a line of
//! indentation zero (a blank line) ends it.

use vstd::prelude::*;

use std::collections::VecDeque;

use crate::error::ShellError;
use crate::line::{line_obeys_new, spec_line_new_err, spec_render, Line, LineID};
use crate::strutil::{chars_of, spec_dec, str_eq};

verus! {

/// Which producer a line came from.
#[derive(Clone, PartialEq, Eq, Debug)]
pub enum SourceKind {
    /// The interactive terminal.
    Tty,
    /// A command-substitution subshell.
    Subshell,
    /// A user-defined function, by name.
    UserFunction(String),
    /// A script file, by pathname.
    Script(String),
}

/// The ghost image of a source kind.
pub ghost enum SourceKindV {
    Tty,
    Subshell,
    UserFunction(Seq<char>),
    Script(Seq<char>),
}

impl View for SourceKind {
    type V = SourceKindV;

    open spec fn view(&self) -> SourceKindV {
        match self {
            SourceKind::Tty => SourceKindV::Tty,
            SourceKind::Subshell => SourceKindV::Subshell,
            SourceKind::UserFunction(s) => SourceKindV::UserFunction(s@),
            SourceKind::Script(s) => SourceKindV::Script(s@),
        }
    }
}

impl DeepView for SourceKind {
    type V = SourceKindV;

    open spec fn deep_view(&self) -> SourceKindV {
        self@
    }
}

impl SourceKind {
    /// Copies a source kind, keeping its name text.
    pub fn duplicate(&self) -> (r: SourceKind)
        ensures
            r@ == self@,
    {
        match self {
            SourceKind::Tty => SourceKind::Tty,
            SourceKind::Subshell => SourceKind::Subshell,
            SourceKind::UserFunction(s) => SourceKind::UserFunction(s.clone()),
            SourceKind::Script(s) => SourceKind::Script(s.clone()),
        }
    }
}

/// Decides whether two source kinds are the same producer.
pub fn kind_eq(a: &SourceKind, b: &SourceKind) -> (r: bool)
    ensures
        r == (a@ == b@),
{
    match (a, b) {
        (SourceKind::Tty, SourceKind::Tty) => true,
        (SourceKind::Subshell, SourceKind::Subshell) => true,
        (SourceKind::UserFunction(x), SourceKind::UserFunction(y)) => str_eq(
            x.as_str(),
            y.as_str(),
        ),
        (SourceKind::Script(x), SourceKind::Script(y)) => str_eq(x.as_str(), y.as_str()),
        _ => false,
    }
}

/// The completeness scanner's position in the text.
#[derive(Clone, Copy, PartialEq, Eq, Debug)]
pub enum CompMode {
    Unquoted,
    SingleQuoted,
    DoubleQuoted,
    Escaped,
    FoundPipe,
}

/// The completeness scanner's state: the mode, the mode an escape
/// returns to, and whether the last character was an escaped newline.
pub ghost struct CompState {
    pub mode: CompMode,
    pub esc_from: CompMode,
    pub esc_nl: bool,
}

/// The completeness scanner's starting state.
pub open spec fn comp_init() -> CompState {
    CompState { mode: CompMode::Unquoted, esc_from: CompMode::Unquoted, esc_nl: false }
}

/// One completeness step.
pub open spec fn comp_step(st: CompState, c: char) -> CompState {
    match st.mode {
        CompMode::Unquoted => {
            if c == '\'' {
                CompState { mode: CompMode::SingleQuoted, esc_from: st.esc_from, esc_nl: false }
            } else if c == '"' {
                CompState { mode: CompMode::DoubleQuoted, esc_from: st.esc_from, esc_nl: false }
            } else if c == '\\' {
                CompState { mode: CompMode::Escaped, esc_from: CompMode::Unquoted, esc_nl: false }
            } else if c == '|' {
                CompState { mode: CompMode::FoundPipe, esc_from: st.esc_from, esc_nl: false }
            } else {
                CompState { mode: st.mode, esc_from: st.esc_from, esc_nl: false }
            }
        },
        CompMode::SingleQuoted => {
            if c == '\'' {
                CompState { mode: CompMode::Unquoted, esc_from: st.esc_from, esc_nl: false }
            } else {
                CompState { mode: st.mode, esc_from: st.esc_from, esc_nl: false }
            }
        },
        CompMode::DoubleQuoted => {
            if c == '"' {
                CompState { mode: CompMode::Unquoted, esc_from: st.esc_from, esc_nl: false }
            } else if c == '\\' {
                CompState {
                    mode: CompMode::Escaped,
                    esc_from: CompMode::DoubleQuoted,
                    esc_nl: false,
                }
            } else {
                CompState { mode: st.mode, esc_from: st.esc_from, esc_nl: false }
            }
        },
        CompMode::FoundPipe => {
            if c == ' ' || c == '\t' || c == '\n' {
                CompState { mode: st.mode, esc_from: st.esc_from, esc_nl: false }
            } else if c == '\'' {
                CompState { mode: CompMode::SingleQuoted, esc_from: st.esc_from, esc_nl: false }
            } else if c == '"' {
                CompState { mode: CompMode::DoubleQuoted, esc_from: st.esc_from, esc_nl: false }
            } else {
                CompState { mode: CompMode::Unquoted, esc_from: st.esc_from, esc_nl: false }
            }
        },
        CompMode::Escaped => {
            CompState { mode: st.esc_from, esc_from: st.esc_from, esc_nl: c == '\n' }
        },
    }
}

/// The completeness scanner folded over `s`.
pub open spec fn comp_fold(s: Seq<char>) -> CompState
    decreases s.len(),
{
    if s.len() == 0 {
        comp_init()
    } else {
        comp_step(comp_fold(s.drop_last()), s.last())
    }
}

/// Folding one more character is one more step.
pub proof fn lemma_comp_fold_push(s: Seq<char>, c: char)
    ensures
        comp_fold(s.push(c)) == comp_step(comp_fold(s), c),
{
    assert(s.push(c).drop_last() =~= s);
    assert(s.push(c).last() == c);
}

/// A logical line is complete when it ends unquoted, not right after a
/// pipe, and not in an escaped newline.
pub open spec fn spec_is_complete(s: Seq<char>) -> bool {
    comp_fold(s).mode is Unquoted && !comp_fold(s).esc_nl
}

/// Decides whether `text` is one complete logical line: it must end
/// outside any quote and escape, and not with a trailing pipe operator
/// or escaped newline.
pub fn is_complete(text: &str) -> (r: bool)
    ensures
        r == spec_is_complete(text@),
{
    let cs = chars_of(text);
    let ghost s = text@;
    let n = cs.len();
    let mut mode = CompMode::Unquoted;
    let mut esc_from = CompMode::Unquoted;
    let mut esc_nl = false;
    proof {
        assert(s.take(0int) =~= Seq::<char>::empty());
    }
    let mut i: usize = 0;
    while i < n
        invariant
            cs@ == s,
            n == s.len(),
            i <= n,
            comp_fold(s.take(i as int)) == (CompState { mode, esc_from, esc_nl }),
        decreases n - i,
    {
        let c = cs[i];
        proof {
            lemma_comp_fold_push(s.take(i as int), s[i as int]);
            assert(s.take(i as int).push(s[i as int]) =~= s.take(i + 1));
        }
        match mode {
            CompMode::Unquoted => {
                if c == '\'' {
                    mode = CompMode::SingleQuoted;
                } else if c == '"' {
                    mode = CompMode::DoubleQuoted;
                } else if c == '\\' {
                    esc_from = CompMode::Unquoted;
                    mode = CompMode::Escaped;
                } else if c == '|' {
                    mode = CompMode::FoundPipe;
                }
                esc_nl = false;
            },
            CompMode::SingleQuoted => {
                if c == '\'' {
                    mode = CompMode::Unquoted;
                }
                esc_nl = false;
            },
            CompMode::DoubleQuoted => {
                if c == '"' {
                    mode = CompMode::Unquoted;
                } else if c == '\\' {
                    esc_from = CompMode::DoubleQuoted;
                    mode = CompMode::Escaped;
                }
                esc_nl = false;
            },
            CompMode::FoundPipe => {
                if c == ' ' || c == '\t' || c == '\n' {
                } else if c == '\'' {
                    mode = CompMode::SingleQuoted;
                } else if c == '"' {
                    mode = CompMode::DoubleQuoted;
                } else {
                    mode = CompMode::Unquoted;
                }
                esc_nl = false;
            },
            CompMode::Escaped => {
                esc_nl = c == '\n';
                mode = esc_from;
            },
        }
        i = i + 1;
    }
    proof {
        assert(s.take(n as int) =~= s);
    }
    match mode {
        CompMode::Unquoted => !esc_nl,
        _ => false,
    }
}

/// A block is finished when it ends with a line of indentation zero: a
/// final blank line of at most three spaces.
pub open spec fn spec_finished_block(s: Seq<char>) -> bool {
    ||| s.len() >= 2 && s.skip(s.len() - 2) == seq!['\n', '\n']
    ||| s.len() >= 3 && s.skip(s.len() - 3) == seq!['\n', ' ', '\n']
    ||| s.len() >= 4 && s.skip(s.len() - 4) == seq!['\n', ' ', ' ', '\n']
    ||| s.len() >= 5 && s.skip(s.len() - 5) == seq!['\n', ' ', ' ', ' ', '\n']
}

/// Decides whether multi-line input ends with a blank line, which closes
/// an indented block.
pub fn contains_finished_block(line: &str) -> (r: bool)
    ensures
        r == spec_finished_block(line@),
{
    let cs = chars_of(line);
    let ghost s = line@;
    let n = cs.len();
    let two = n >= 2 && cs[n - 1] == '\n' && cs[n - 2] == '\n';
    let three = n >= 3 && cs[n - 1] == '\n' && cs[n - 2] == ' ' && cs[n - 3] == '\n';
    let four = n >= 4 && cs[n - 1] == '\n' && cs[n - 2] == ' ' && cs[n - 3] == ' ' && cs[n - 4]
        == '\n';
    let five = n >= 5 && cs[n - 1] == '\n' && cs[n - 2] == ' ' && cs[n - 3] == ' ' && cs[n - 4]
        == ' ' && cs[n - 5] == '\n';
    proof {
        if n >= 2 {
            assert(s.skip(s.len() - 2) =~= seq![s[s.len() - 2], s[s.len() - 1]]);
        }
        if n >= 3 {
            assert(s.skip(s.len() - 3) =~= seq![s[s.len() - 3], s[s.len() - 2], s[s.len() - 1]]);
        }
        if n >= 4 {
            assert(s.skip(s.len() - 4) =~= seq![
                s[s.len() - 4],
                s[s.len() - 3],
                s[s.len() - 2],
                s[s.len() - 1],
            ]);
        }
        if n >= 5 {
            assert(s.skip(s.len() - 5) =~= seq![
                s[s.len() - 5],
                s[s.len() - 4],
                s[s.len() - 3],
                s[s.len() - 2],
                s[s.len() - 1],
            ]);
        }
    }
    two || three || four || five
}

/// The keywords whose lines open an indented block at the prompt.
pub open spec fn spec_shell_construct_prefix(s: Seq<char>) -> bool {
    ||| s.len() >= 2 && s.take(2) == seq!['i', 'f']
    ||| s.len() >= 3 && s.take(3) == seq!['f', 'o', 'r']
    ||| s.len() >= 5 && s.take(5) == seq!['w', 'h', 'i', 'l', 'e']
    ||| s.len() >= 4 && s.take(4) == seq!['c', 'a', 's', 'e']
    ||| s.len() >= 2 && s.take(2) == seq!['f', 'n']
}

/// Decides whether input starts like a block-opening construct, so the
/// front end keeps reading until the block is finished.
pub fn is_shell_construct(line: &str) -> (r: bool)
    ensures
        r == spec_shell_construct_prefix(line@),
{
    let cs = chars_of(line);
    let ghost s = line@;
    let n = cs.len();
    let p_if = n >= 2 && cs[0] == 'i' && cs[1] == 'f';
    let p_for = n >= 3 && cs[0] == 'f' && cs[1] == 'o' && cs[2] == 'r';
    let p_while = n >= 5 && cs[0] == 'w' && cs[1] == 'h' && cs[2] == 'i' && cs[3] == 'l' && cs[4]
        == 'e';
    let p_case = n >= 4 && cs[0] == 'c' && cs[1] == 'a' && cs[2] == 's' && cs[3] == 'e';
    let p_fn = n >= 2 && cs[0] == 'f' && cs[1] == 'n';
    proof {
        if n >= 2 {
            assert(s.take(2) =~= seq![s[0], s[1]]);
        }
        if n >= 3 {
            assert(s.take(3) =~= seq![s[0], s[1], s[2]]);
        }
        if n >= 4 {
            assert(s.take(4) =~= seq![s[0], s[1], s[2], s[3]]);
        }
        if n >= 5 {
            assert(s.take(5) =~= seq![s[0], s[1], s[2], s[3], s[4]]);
        }
    }
    p_if || p_for || p_while || p_case || p_fn
}

/// Judges what a line-editing front end has read so far: a logical
/// line must be complete, and a block-opening construct must have its
/// whole block.
pub struct SmshLineValidator;

impl SmshLineValidator {
    /// True once the input can be handed to the interpreter.
    pub fn validate(&self, line: &str) -> (r: bool)
        ensures
            r == (spec_is_complete(line@) && (spec_shell_construct_prefix(line@)
                ==> spec_finished_block(line@))),
    {
        if !is_complete(line) {
            false
        } else if is_shell_construct(line) {
            contains_finished_block(line)
        } else {
            true
        }
    }
}


/// A script file: its pathname, its physical lines, and a monotonic
/// cursor.  EOF once the lines are exhausted; no rewind.
pub struct Script {
    pub path: String,
    pub body: Vec<String>,
    pub line_num: usize,
    pub last_line: Option<Line>,
}

/// How one `Script::get_line` call relates the states and the result.
pub open spec fn script_step(pre: Script, post: Script, r: Result<Option<Line>, ShellError>) -> bool {
    if pre.line_num >= pre.body@.len() {
        r == Result::<Option<Line>, ShellError>::Ok(Option::<Line>::None) && post == pre
    } else {
        &&& post.path == pre.path
        &&& post.body == pre.body
        &&& post.line_num == pre.line_num + 1
        &&& match r {
            Result::Ok(opt) => match opt {
                Option::Some(l) => line_obeys_new(
                    l,
                    pre.body@[pre.line_num as int]@,
                    (pre.line_num + 1) as usize,
                    SourceKindV::Script(pre.path@),
                ) && (match post.last_line {
                    Option::Some(ll) => ll@ == l@,
                    Option::None => false,
                }),
                Option::None => false,
            },
            Result::Err(e) => post.last_line == pre.last_line && spec_line_new_err(
                pre.body@[pre.line_num as int]@,
                e,
            ),
        }
    }
}

impl Script {
    /// Builds a script source over lines already read from `path`.
    pub fn new(path: String, body: Vec<String>) -> (r: Script)
        ensures
            r.path == path,
            r.body == body,
            r.line_num == 0,
            r.last_line is None,
    {
        Script { path, body, line_num: 0, last_line: Option::None }
    }

    /// Wraps this script as a source.
    pub fn build_source(self) -> (r: Source)
        ensures
            r == Source::Script(self),
    {
        Source::Script(self)
    }

    /// The script's pathname.
    pub fn file_name(&self) -> (r: String)
        ensures
            r@ == self.path@,
    {
        self.path.clone()
    }

    /// Produces the script's next line, or EOF.
    fn get_line(&mut self) -> (r: Result<Option<Line>, ShellError>)
        ensures
            script_step(*old(self), *final(self), r),
    {
        if self.line_num >= self.body.len() {
            return Result::Ok(Option::None);
        }
        let text = self.body[self.line_num].clone();
        self.line_num = self.line_num + 1;
        let kind = SourceKind::Script(self.path.clone());
        match Line::new(text, self.line_num, kind) {
            Result::Ok(line) => {
                self.last_line = Option::Some(line.duplicate());
                Result::Ok(Option::Some(line))
            },
            Result::Err(e) => Result::Err(e),
        }
    }
}

/// A stored user function: its name and its body's raw lines.  Each
/// invocation instantiates a fresh source over a copy.
pub struct UserFunction {
    pub fn_name: String,
    pub fn_body: Vec<String>,
    pub line_num: usize,
}

/// How one `UserFunction::get_line` call relates the states and the
/// result.
pub open spec fn ufunc_step(pre: UserFunction, post: UserFunction, r: Result<
    Option<Line>,
    ShellError,
>) -> bool {
    if pre.line_num >= pre.fn_body@.len() {
        r == Result::<Option<Line>, ShellError>::Ok(Option::<Line>::None) && post == pre
    } else {
        &&& post.fn_name == pre.fn_name
        &&& post.fn_body == pre.fn_body
        &&& post.line_num == pre.line_num + 1
        &&& match r {
            Result::Ok(opt) => match opt {
                Option::Some(l) => line_obeys_new(
                    l,
                    pre.fn_body@[pre.line_num as int]@,
                    (pre.line_num + 1) as usize,
                    SourceKindV::UserFunction(pre.fn_name@),
                ),
                Option::None => false,
            },
            Result::Err(e) => spec_line_new_err(pre.fn_body@[pre.line_num as int]@, e),
        }
    }
}

impl UserFunction {
    /// Stores a function under its name.
    pub fn new(fn_name: String, fn_body: Vec<String>) -> (r: UserFunction)
        ensures
            r.fn_name == fn_name,
            r.fn_body == fn_body,
            r.line_num == 0,
    {
        UserFunction { fn_name, fn_body, line_num: 0 }
    }

    /// Wraps this invocation as a source with a fresh cursor.
    pub fn build_source(self) -> (r: Source)
        ensures
            r == Source::UserFunction(self),
    {
        Source::UserFunction(self)
    }

    /// The function's name.
    pub fn name(&self) -> (r: &str)
        ensures
            r@ == self.fn_name@,
    {
        self.fn_name.as_str()
    }

    /// Copies this function, keeping name, body and cursor.
    pub fn duplicate(&self) -> (r: UserFunction)
        ensures
            r.fn_name@ == self.fn_name@,
            r.fn_body@ == self.fn_body@,
            r.line_num == self.line_num,
    {
        UserFunction {
            fn_name: self.fn_name.clone(),
            fn_body: crate::strutil::clone_string_vec(&self.fn_body),
            line_num: self.line_num,
        }
    }

    /// Produces the function body's next line, or EOF.
    fn get_line(&mut self) -> (r: Result<Option<Line>, ShellError>)
        ensures
            ufunc_step(*old(self), *final(self), r),
    {
        if self.line_num >= self.fn_body.len() {
            return Result::Ok(Option::None);
        }
        let text = self.fn_body[self.line_num].clone();
        self.line_num = self.line_num + 1;
        let kind = SourceKind::UserFunction(self.fn_name.clone());
        match Line::new(text, self.line_num, kind) {
            Result::Ok(line) => Result::Ok(Option::Some(line)),
            Result::Err(e) => Result::Err(e),
        }
    }
}

/// Lines pushed back for re-execution as their own source: single use,
/// already parsed.
pub struct SubshellSource {
    pub lines: Vec<Line>,
    pub line_num: usize,
}

/// How one `SubshellSource::get_line` call relates the states and the
/// result.
pub open spec fn subshell_step(pre: SubshellSource, post: SubshellSource, r: Result<
    Option<Line>,
    ShellError,
>) -> bool {
    if pre.line_num >= pre.lines@.len() {
        r == Result::<Option<Line>, ShellError>::Ok(Option::<Line>::None) && post == pre
    } else {
        &&& post.lines == pre.lines
        &&& post.line_num == pre.line_num + 1
        &&& r matches Result::Ok(opt) && opt matches Option::Some(l) && l@ == pre.lines@[
            pre.line_num as int
        ]@
    }
}

impl SubshellSource {
    /// Wraps already-parsed lines as a source.
    pub fn build_source(lines: Vec<Line>) -> (r: Source)
        ensures
            r matches Source::Subshell(s) && s.lines == lines && s.line_num == 0,
    {
        Source::Subshell(SubshellSource { lines, line_num: 0 })
    }

    /// Produces the next stored line, or EOF.
    fn get_line(&mut self) -> (r: Result<Option<Line>, ShellError>)
        ensures
            subshell_step(*old(self), *final(self), r),
    {
        if self.line_num >= self.lines.len() {
            return Result::Ok(Option::None);
        }
        let line = self.lines[self.line_num].duplicate();
        self.line_num = self.line_num + 1;
        Result::Ok(Option::Some(line))
    }
}

/// The raw text of the synthetic binding a `for` loop emits before each
/// body replay.
pub open spec fn spec_let_line(key: Seq<char>, val: Seq<char>) -> Seq<char> {
    "let "@ + key + " = "@ + val
}

/// A `for` loop: alternates between emitting a synthetic `let` for the
/// next value and replaying the stored body, until the values are
/// exhausted.
pub struct For {
    pub iterator_key: String,
    pub iterator_values: Vec<String>,
    pub body: Vec<Line>,
    pub line_num: usize,
    pub iter_idx: usize,
    pub for_line_identifier: LineID,
}

/// How one `For::get_line` call relates the states and the result.
pub open spec fn for_step(pre: For, post: For, r: Result<Option<Line>, ShellError>) -> bool {
    &&& post.iterator_key == pre.iterator_key
    &&& post.iterator_values == pre.iterator_values
    &&& post.body == pre.body
    &&& post.for_line_identifier == pre.for_line_identifier
    &&& if pre.line_num == 0 {
        if pre.iter_idx >= pre.iterator_values@.len() {
            r == Result::<Option<Line>, ShellError>::Ok(Option::<Line>::None) && post == pre
        } else {
            &&& post.iter_idx == pre.iter_idx + 1
            &&& match r {
                Result::Ok(opt) => match opt {
                    Option::Some(l) => line_obeys_new(
                        l,
                        spec_let_line(
                            pre.iterator_key@,
                            pre.iterator_values@[pre.iter_idx as int]@,
                        ),
                        pre.for_line_identifier.line_num,
                        pre.for_line_identifier.source_kind@,
                    ) && post.line_num == 1,
                    Option::None => false,
                },
                Result::Err(e) => post.line_num == pre.line_num && spec_line_new_err(
                    spec_let_line(pre.iterator_key@, pre.iterator_values@[pre.iter_idx as int]@),
                    e,
                ),
            }
        }
    } else {
        if pre.body@.len() == 0 || pre.line_num > pre.body@.len() {
            r == Result::<Option<Line>, ShellError>::Ok(Option::<Line>::None) && post == pre
        } else {
            &&& post.iter_idx == pre.iter_idx
            &&& (if pre.line_num == pre.body@.len() {
                post.line_num == 0
            } else {
                post.line_num == pre.line_num + 1
            })
            &&& r matches Result::Ok(opt) && opt matches Option::Some(l) && l@ == pre.body@[
                pre.line_num - 1
            ]@
        }
    }
}

impl For {
    /// Builds a `for` loop source over a value list and a stored body.
    pub fn new(
        iterator_key: String,
        iterator_values: Vec<String>,
        body: Vec<Line>,
        for_line_identifier: LineID,
    ) -> (r: For)
        ensures
            r.iterator_key == iterator_key,
            r.iterator_values == iterator_values,
            r.body == body,
            r.line_num == 0,
            r.iter_idx == 0,
            r.for_line_identifier == for_line_identifier,
    {
        For { iterator_key, iterator_values, body, line_num: 0, iter_idx: 0, for_line_identifier }
    }

    /// Wraps this loop as a source.
    pub fn build_source(self) -> (r: Source)
        ensures
            r == Source::For(self),
    {
        Source::For(self)
    }

    /// Produces the loop's next line: a synthetic `let` binding the next
    /// value, or the next stored body line, or EOF once the last value's
    /// body replay is done.
    fn get_line(&mut self) -> (r: Result<Option<Line>, ShellError>)
        ensures
            for_step(*old(self), *final(self), r),
    {
        if self.line_num == 0 {
            if self.iter_idx >= self.iterator_values.len() {
                return Result::Ok(Option::None);
            }
            let mut raw = String::new();
            raw.append("let ");
            raw.append(self.iterator_key.as_str());
            raw.append(" = ");
            raw.append(self.iterator_values[self.iter_idx].as_str());
            self.iter_idx = self.iter_idx + 1;
            let kind = self.for_line_identifier.source_kind.duplicate();
            let ghost kv = kind@;
            match Line::new(raw, self.for_line_identifier.line_num, kind) {
                Result::Ok(line) => {
                    self.line_num = 1;
                    Result::Ok(Option::Some(line))
                },
                Result::Err(e) => Result::Err(e),
            }
        } else {
            if self.body.len() == 0 || self.line_num > self.body.len() {
                return Result::Ok(Option::None);
            }
            let line = self.body[self.line_num - 1].duplicate();
            if self.line_num == self.body.len() {
                self.line_num = 0;
            } else {
                self.line_num = self.line_num + 1;
            }
            Result::Ok(Option::Some(line))
        }
    }
}

/// Any producer of logical lines the stack can hold.
pub enum Source {
    Script(Script),
    UserFunction(UserFunction),
    Subshell(SubshellSource),
    For(For),
}

/// How one `Source::get_line` call relates the states and the result:
/// the variant is kept and its own step relation holds.
pub open spec fn source_step(pre: Source, post: Source, r: Result<Option<Line>, ShellError>) -> bool {
    match (pre, post) {
        (Source::Script(a), Source::Script(b)) => script_step(a, b, r),
        (Source::UserFunction(a), Source::UserFunction(b)) => ufunc_step(a, b, r),
        (Source::Subshell(a), Source::Subshell(b)) => subshell_step(a, b, r),
        (Source::For(a), Source::For(b)) => for_step(a, b, r),
        _ => false,
    }
}

/// The diagnostic frame a source contributes to a backtrace: its last
/// line, rendered; nothing for sources that track no last line.
pub open spec fn source_frame(s: Source) -> Option<Seq<char>> {
    match s {
        Source::Script(sc) => match sc.last_line {
            Option::Some(l) => Option::Some(spec_render(l)),
            Option::None => Option::None,
        },
        Source::UserFunction(f) => if 1 <= f.line_num <= f.fn_body@.len() {
            Option::Some(
                "\tFunction `"@ + f.fn_name@ + "` line "@ + spec_dec(f.line_num as nat) + ": "@
                    + f.fn_body@[f.line_num - 1]@,
            )
        } else {
            Option::None
        },
        Source::Subshell(_) => Option::None,
        Source::For(_) => Option::None,
    }
}

/// How many lines a source can still produce: its termination measure.
pub open spec fn source_remaining(s: Source) -> nat {
    match s {
        Source::Script(sc) => if sc.line_num < sc.body@.len() {
            (sc.body@.len() - sc.line_num) as nat
        } else {
            0
        },
        Source::UserFunction(f) => if f.line_num < f.fn_body@.len() {
            (f.fn_body@.len() - f.line_num) as nat
        } else {
            0
        },
        Source::Subshell(ss) => if ss.line_num < ss.lines@.len() {
            (ss.lines@.len() - ss.line_num) as nat
        } else {
            0
        },
        Source::For(f) => {
            let cycle = (f.body@.len() + 1) as nat;
            let later = if f.iter_idx < f.iterator_values@.len() {
                ((f.iterator_values@.len() - f.iter_idx) * cycle) as nat
            } else {
                0
            };
            if f.line_num == 0 {
                later
            } else if f.line_num <= f.body@.len() {
                ((f.body@.len() + 1 - f.line_num) + later) as nat
            } else {
                later
            }
        },
    }
}

/// A source that yields a line has fewer lines left.
pub proof fn lemma_source_step_decreases(pre: Source, post: Source, r: Result<
    Option<Line>,
    ShellError,
>)
    requires
        source_step(pre, post, r),
        r matches Result::Ok(opt) && opt is Some,
    ensures
        source_remaining(post) < source_remaining(pre),
{
    match (pre, post) {
        (Source::Script(a), Source::Script(b)) => {
            assert(source_remaining(post) < source_remaining(pre));
        },
        (Source::UserFunction(a), Source::UserFunction(b)) => {
            assert(source_remaining(post) < source_remaining(pre));
        },
        (Source::Subshell(a), Source::Subshell(b)) => {
            assert(source_remaining(post) < source_remaining(pre));
        },
        (Source::For(a), Source::For(b)) => {
            let cycle = (a.body@.len() + 1) as int;
            if a.line_num == 0 {
                assert(a.iter_idx < a.iterator_values@.len());
                let left = a.iterator_values@.len() - a.iter_idx;
                assert(left * cycle == (left - 1) * cycle + cycle) by (nonlinear_arith);
                assert((left - 1) * cycle >= 0) by (nonlinear_arith)
                    requires
                        left >= 1,
                        cycle >= 1,
                ;
                assert(source_remaining(pre) == left * cycle);
                if b.iter_idx < b.iterator_values@.len() {
                    assert(source_remaining(post) <= a.body@.len() + (left - 1) * cycle);
                } else {
                    assert(left == 1);
                    assert((left - 1) * cycle == 0) by (nonlinear_arith)
                        requires
                            left == 1,
                    ;
                    assert(source_remaining(post) <= a.body@.len());
                }
                assert(source_remaining(post) < source_remaining(pre)) by (nonlinear_arith)
                    requires
                        source_remaining(pre) == left * cycle,
                        source_remaining(post) <= a.body@.len() + (left - 1) * cycle,
                        cycle == a.body@.len() + 1,
                        left >= 1,
                ;
            } else {
                assert(1 <= a.line_num <= a.body@.len());
                assert(b.iterator_values == a.iterator_values);
                assert(b.iter_idx == a.iter_idx);
                assert(b.body == a.body);
                let later: nat = if a.iter_idx < a.iterator_values@.len() {
                    ((a.iterator_values@.len() - a.iter_idx) * ((a.body@.len() + 1) as nat)) as nat
                } else {
                    0
                };
                assert(source_remaining(pre) == ((a.body@.len() + 1 - a.line_num) + later) as nat);
                assert(b.line_num == 0 || b.line_num == a.line_num + 1);
                if b.line_num == 0 {
                    assert(source_remaining(post) == later);
                } else {
                    assert(source_remaining(post) == ((a.body@.len() + 1 - b.line_num)
                        + later) as nat);
                }
                assert(source_remaining(post) < source_remaining(pre));
            }
        },
        _ => {
            assert(false);
        },
    }
}

/// A source never grows: any step keeps or shrinks its measure.
pub proof fn lemma_source_step_nonincrease(pre: Source, post: Source, r: Result<
    Option<Line>,
    ShellError,
>)
    requires
        source_step(pre, post, r),
    ensures
        source_remaining(post) <= source_remaining(pre),
{
    match r {
        Result::Ok(opt) => match opt {
            Option::Some(_) => {
                lemma_source_step_decreases(pre, post, r);
            },
            Option::None => {
                match (pre, post) {
                    (Source::For(a), Source::For(b)) => {},
                    _ => {},
                }
            },
        },
        Result::Err(_) => {
            match (pre, post) {
                (Source::For(a), Source::For(b)) => {
                    if a.line_num == 0 && a.iter_idx < a.iterator_values@.len() {
                        let cycle = (a.body@.len() + 1) as int;
                        let left = a.iterator_values@.len() - a.iter_idx;
                        assert(left * cycle == (left - 1) * cycle + cycle) by (nonlinear_arith);
                        assert((left - 1) * cycle >= 0) by (nonlinear_arith)
                            requires
                                left >= 1,
                                cycle >= 1,
                        ;
                    }
                },
                _ => {},
            }
        },
    }
}

/// The lines a whole stack can still produce.
pub open spec fn stack_remaining(ss: Seq<Source>) -> nat
    decreases ss.len(),
{
    if ss.len() == 0 {
        0
    } else {
        stack_remaining(ss.drop_last()) + source_remaining(ss.last())
    }
}

/// One more source adds its own measure.
pub proof fn lemma_stack_remaining_push(ss: Seq<Source>, s: Source)
    ensures
        stack_remaining(ss.push(s)) == stack_remaining(ss) + source_remaining(s),
{
    assert(ss.push(s).drop_last() =~= ss);
    assert(ss.push(s).last() == s);
}

impl Source {
    /// Produces this source's next line, or EOF.
    pub fn get_line(&mut self) -> (r: Result<Option<Line>, ShellError>)
        ensures
            source_step(*old(self), *final(self), r),
    {
        match self {
            Source::Script(s) => s.get_line(),
            Source::UserFunction(s) => s.get_line(),
            Source::Subshell(s) => s.get_line(),
            Source::For(s) => s.get_line(),
        }
    }

    /// This source's backtrace frame, if it has one.
    pub fn error_frame(&self) -> (r: Option<String>)
        ensures
            match r {
                Some(f) => source_frame(*self) == Option::Some(f@),
                None => source_frame(*self) is None,
            },
    {
        match self {
            Source::Script(sc) => match &sc.last_line {
                Option::Some(l) => Option::Some(l.render()),
                Option::None => Option::None,
            },
            Source::UserFunction(f) => {
                if 1 <= f.line_num && f.line_num <= f.fn_body.len() {
                    let mut r = String::new();
                    r.append("\tFunction `");
                    r.append(f.fn_name.as_str());
                    r.append("` line ");
                    let num = crate::strutil::dec_string(f.line_num);
                    r.append(num.as_str());
                    r.append(": ");
                    r.append(f.fn_body[f.line_num - 1].as_str());
                    Option::Some(r)
                } else {
                    Option::None
                }
            },
            Source::Subshell(_) => Option::None,
            Source::For(_) => Option::None,
        }
    }
}

/// The frames of a stack of sources, innermost (top) first.
pub open spec fn frames_of(stack: Seq<Source>) -> Seq<Seq<char>>
    decreases stack.len(),
{
    if stack.len() == 0 {
        Seq::empty()
    } else {
        frames_of(stack.drop_first()) + (match source_frame(stack[0]) {
            Option::Some(f) => seq![f],
            Option::None => Seq::<Seq<char>>::empty(),
        })
    }
}

/// How many lines at the front of `buf` come from `kind` at exactly
/// `indent`.
pub open spec fn match_prefix(buf: Seq<Line>, kind: SourceKindV, indent: usize) -> nat
    decreases buf.len(),
{
    if buf.len() == 0 || !(buf[0]@.kind == kind && buf[0]@.indentation == indent) {
        0
    } else {
        1 + match_prefix(buf.drop_first(), kind, indent)
    }
}

/// How much input the whole structure can still hand out: the pushback
/// lines, the stack's remaining lines, and one unit per stacked source.
pub open spec fn sources_measure(s: Sources) -> nat {
    s.buffer@.len() + stack_remaining(s.sources@) + s.sources@.len()
}

/// A whole block is reachable without new outside input: the first
/// non-matching line already sits in the pushback buffer, or the
/// source stack is empty, so collection ends at EOF.
pub open spec fn block_available(s: Sources, kind: SourceKindV, indent: usize) -> bool {
    match_prefix(s.buffer@, kind, indent) < s.buffer@.len() || s.sources@.len() == 0
}

/// The shell's input: a LIFO stack of sources under a pushback buffer.
/// The buffer is drained before the stack is consulted; an exhausted
/// source is popped and retrieval retried; an empty stack is EOF.
pub struct Sources {
    pub sources: Vec<Source>,
    pub buffer: VecDeque<Line>,
}

impl Sources {
    /// An empty stack with an empty pushback buffer.
    pub fn new() -> (r: Sources)
        ensures
            r.sources@.len() == 0,
            r.buffer@.len() == 0,
    {
        Sources { sources: Vec::new(), buffer: VecDeque::new() }
    }

    /// Produces the next line: the oldest pushback line if any, else the
    /// top source's next line, popping exhausted sources; an empty stack
    /// is EOF, not an error.
    pub fn get_line(&mut self) -> (r: Result<Option<Line>, ShellError>)
        ensures
            old(self).buffer@.len() > 0 ==> (r matches Result::Ok(opt) && opt
                matches Option::Some(l) && l == old(self).buffer@[0] && final(self).buffer@ == old(self).buffer@.drop_first() && final(self).sources == old(self).sources),
            old(self).buffer@.len() == 0 ==> {
                &&& final(self).buffer@ == old(self).buffer@
                &&& final(self).sources@.len() <= old(self).sources@.len()
                &&& (forall|i: int|
                    0 <= i < final(self).sources@.len() - 1 ==> final(self).sources@[i] == old(self).sources@[i])
                &&& (final(self).sources@.len() > 0 ==> source_step(
                    old(self).sources@[final(self).sources@.len() - 1],
                    final(self).sources@[final(self).sources@.len() - 1],
                    r,
                ))
                &&& (final(self).sources@.len() == 0 && old(self).sources@.len() > 0 ==> r
                    == Result::<Option<Line>, ShellError>::Ok(Option::<Line>::None))
                &&& (old(self).sources@.len() == 0 ==> final(self).sources@.len() == 0 && r
                    == Result::<Option<Line>, ShellError>::Ok(Option::<Line>::None))
            },
            sources_measure(*final(self)) <= sources_measure(*old(self)),
            r is Ok && r->Ok_0 is Some ==> sources_measure(*final(self)) < sources_measure(
                *old(self),
            ),
            r == Result::<Option<Line>, ShellError>::Ok(Option::<Line>::None) ==> final(self).sources@.len() == 0 && final(self).buffer@.len() == 0 && old(self).buffer@.len()
                == 0,
            old(self).buffer@.len() == 0 && old(self).sources@.len() == 0 ==> final(self).sources
                == old(self).sources && r == Result::<Option<Line>, ShellError>::Ok(
                Option::<Line>::None,
            ),
    {
        if let Option::Some(line) = self.buffer.pop_front() {
            return Result::Ok(Option::Some(line));
        }
        proof {
            assert(self.sources@ =~= old(self).sources@.take(self.sources@.len() as int));
        }
        while self.sources.len() > 0
            invariant
                self.buffer@ == old(self).buffer@,
                old(self).buffer@.len() == 0,
                self.sources@.len() <= old(self).sources@.len(),
                self.sources@ == old(self).sources@.take(self.sources@.len() as int),
                old(self).sources@.len() == 0 ==> self.sources == old(self).sources,
                sources_measure(*self) <= sources_measure(*old(self)),
            decreases self.sources@.len(),
        {
            let ghost pre_len = self.sources@.len() as int;
            let ghost pre_measure = sources_measure(*self);
            let idx = self.sources.len() - 1;
            let mut src = self.sources.remove(idx);
            let ghost popped = src;
            proof {
                assert(src == old(self).sources@[pre_len - 1]);
                assert(self.sources@ =~= old(self).sources@.take(pre_len - 1));
                assert(old(self).sources@.take(pre_len).drop_last() =~= old(self).sources@.take(
                    pre_len - 1,
                ));
                assert(old(self).sources@.take(pre_len).last() == old(self).sources@[pre_len - 1]);
            }
            let res = src.get_line();
            proof {
                lemma_source_step_nonincrease(popped, src, res);
            }
            match res {
                Result::Ok(opt) => match opt {
                    Option::Some(line) => {
                        proof {
                            lemma_source_step_decreases(popped, src, res);
                        }
                        self.sources.push(src);
                        proof {
                            lemma_stack_remaining_push(
                                old(self).sources@.take(pre_len - 1),
                                src,
                            );
                            assert(forall|i: int|
                                0 <= i < pre_len - 1 ==> self.sources@[i] == old(self).sources@[i]);
                        }
                        return Result::Ok(Option::Some(line));
                    },
                    Option::None => {
                    },
                },
                Result::Err(e) => {
                    self.sources.push(src);
                    proof {
                        lemma_stack_remaining_push(old(self).sources@.take(pre_len - 1), src);
                        assert(forall|i: int|
                            0 <= i < pre_len - 1 ==> self.sources@[i] == old(self).sources@[i]);
                    }
                    return Result::Err(e);
                },
            }
        }
        Result::Ok(Option::None)
    }

    /// Collects one block: lines from `source_kind` at exactly `indent`,
    /// stopping at the first other line, which goes back in front of the
    /// next `get_line`.
    pub fn get_block(&mut self, source_kind: &SourceKind, indent: usize) -> (r: Result<
        Vec<Line>,
        ShellError,
    >)
        ensures
            block_available(*old(self), source_kind@, indent) ==> match r {
                Ok(lines) => lines@ == old(self).buffer@.take(
                    match_prefix(old(self).buffer@, source_kind@, indent) as int,
                ) && final(self).buffer@ == old(self).buffer@.skip(
                    match_prefix(old(self).buffer@, source_kind@, indent) as int,
                ) && final(self).sources == old(self).sources,
                Err(_) => false,
            },
            sources_measure(*final(self)) <= sources_measure(*old(self)),
    {
        let ghost mp = match_prefix(old(self).buffer@, source_kind@, indent);
        let ghost buf0 = old(self).buffer@;
        proof {
            lemma_match_prefix_bound(buf0, source_kind@, indent);
        }
        let mut lines = Vec::<Line>::new();
        let ghost avail = block_available(*old(self), source_kind@, indent);
        loop
            invariant
                mp == match_prefix(buf0, source_kind@, indent),
                buf0 == old(self).buffer@,
                avail == block_available(*old(self), source_kind@, indent),
                mp <= buf0.len(),
                avail ==> {
                    &&& lines@.len() <= mp
                    &&& lines@ == buf0.take(lines@.len() as int)
                    &&& self.buffer@ == buf0.skip(lines@.len() as int)
                    &&& self.sources == old(self).sources
                },
                sources_measure(*self) <= sources_measure(*old(self)),
            decreases sources_measure(*self),
        {
            let ghost k = lines@.len() as int;
            proof {
                if avail && k < buf0.len() {
                    lemma_match_prefix_index(buf0, source_kind@, indent, k);
                }
            }
            let got = self.get_line();
            match got {
                Result::Ok(opt) => match opt {
                    Option::Some(line) => {
                        let matches = kind_eq(line.source(), source_kind) && line.indentation()
                            == indent;
                        if matches {
                            lines.push(line);
                            proof {
                                if avail {
                                    assert(lines@ =~= buf0.take(k + 1int));
                                }
                            }
                        } else {
                            self.push_line(line);
                            proof {
                                if avail {
                                    assert(k == mp);
                                    assert(self.buffer@ =~= buf0.skip(k));
                                }
                            }
                            return Result::Ok(lines);
                        }
                    },
                    Option::None => {
                        proof {
                            if avail {
                                assert(k == buf0.len());
                                assert(k == mp);
                                assert(lines@ =~= buf0.take(mp as int));
                                assert(self.buffer@ =~= buf0.skip(mp as int));
                            }
                        }
                        return Result::Ok(lines);
                    },
                },
                Result::Err(e) => {
                    return Result::Err(e);
                },
            }
        }
    }

    /// Reinserts a block of lines ahead of the next `get_line`,
    /// preserving their order.
    pub fn push_block(&mut self, lines: Vec<Line>)
        ensures
            final(self).buffer@ == lines@ + old(self).buffer@,
            final(self).sources == old(self).sources,
    {
        let mut lines = lines;
        let ghost ls = lines@;
        proof {
            assert(lines@ =~= ls.take(lines@.len() as int));
            assert(self.buffer@ =~= ls.skip(lines@.len() as int) + old(self).buffer@);
        }
        while lines.len() > 0
            invariant
                lines@.len() <= ls.len(),
                lines@ == ls.take(lines@.len() as int),
                self.buffer@ == ls.skip(lines@.len() as int) + old(self).buffer@,
                self.sources == old(self).sources,
            decreases lines@.len(),
        {
            let ghost k = lines@.len() as int;
            let line = lines.pop().unwrap();
            proof {
                assert(line == ls[k - 1]);
            }
            self.buffer.push_front(line);
            proof {
                assert(self.buffer@ =~= ls.skip(k - 1) + old(self).buffer@);
                assert(lines@ =~= ls.take(k - 1));
            }
        }
        proof {
            assert(self.buffer@ =~= ls + old(self).buffer@);
        }
    }

    /// Reinserts one line ahead of the next `get_line`.
    pub fn push_line(&mut self, line: Line)
        ensures
            final(self).buffer@ == seq![line] + old(self).buffer@,
            final(self).sources == old(self).sources,
    {
        self.buffer.push_front(line);
        proof {
            assert(self.buffer@ =~= seq![line] + old(self).buffer@);
        }
    }

    /// Pushes a new source on top of the stack.
    pub fn push_source(&mut self, source: Source)
        ensures
            final(self).sources@ == old(self).sources@.push(source),
            final(self).buffer == old(self).buffer,
    {
        self.sources.push(source)
    }

    /// Discards every pending source.  The pushback buffer is kept.
    pub fn clear(&mut self)
        ensures
            final(self).sources@.len() == 0,
            final(self).buffer == old(self).buffer,
    {
        self.sources.clear();
    }

    /// Pops every source, collecting the diagnostic frames of those that
    /// track a last line, innermost first.
    pub fn backtrace(&mut self) -> (r: Vec<String>)
        ensures
            final(self).sources@.len() == 0,
            final(self).buffer == old(self).buffer,
            r.deep_view() == frames_of(old(self).sources@),
    {
        let mut frames = Vec::<String>::new();
        proof {
            assert(old(self).sources@.skip(old(self).sources@.len() as int)
                =~= Seq::<Source>::empty());
            assert(frames.deep_view() =~= frames_of(
                old(self).sources@.skip(old(self).sources@.len() as int),
            ));
        }
        proof {
            assert(self.sources@ =~= old(self).sources@.take(self.sources@.len() as int));
        }
        while self.sources.len() > 0
            invariant
                self.buffer == old(self).buffer,
                self.sources@.len() <= old(self).sources@.len(),
                self.sources@ == old(self).sources@.take(self.sources@.len() as int),
                frames.deep_view() == frames_of(old(self).sources@.skip(self.sources@.len() as int)),
            decreases self.sources@.len(),
        {
            let ghost cur = self.sources@.len() as int;
            let idx = self.sources.len() - 1;
            let src = self.sources.remove(idx);
            proof {
                assert(src == old(self).sources@[cur - 1]);
                assert(self.sources@ =~= old(self).sources@.take(cur - 1));
                assert(old(self).sources@.skip(cur - 1).drop_first() =~= old(self).sources@.skip(
                    cur,
                ));
                assert(old(self).sources@.skip(cur - 1)[0] == old(self).sources@[cur - 1]);
            }
            let ghost before = frames.deep_view();
            match src.error_frame() {
                Option::Some(f) => {
                    frames.push(f);
                    proof {
                        assert(frames.deep_view() =~= frames_of(old(self).sources@.skip(cur - 1)));
                    }
                },
                Option::None => {
                    proof {
                        assert(frames.deep_view() =~= frames_of(old(self).sources@.skip(cur - 1)));
                    }
                },
            }
        }
        proof {
            assert(old(self).sources@.skip(0int) =~= old(self).sources@);
        }
        frames
    }
}

/// The matching prefix is no longer than the buffer.
pub proof fn lemma_match_prefix_bound(buf: Seq<Line>, kind: SourceKindV, indent: usize)
    ensures
        match_prefix(buf, kind, indent) <= buf.len(),
    decreases buf.len(),
{
    if buf.len() > 0 && buf[0]@.kind == kind && buf[0]@.indentation == indent {
        lemma_match_prefix_bound(buf.drop_first(), kind, indent);
    }
}

/// Inside the matching prefix, every line matches.
proof fn lemma_match_prefix_index(buf: Seq<Line>, kind: SourceKindV, indent: usize, k: int)
    requires
        0 <= k <= match_prefix(buf, kind, indent),
        match_prefix(buf, kind, indent) <= buf.len(),
    ensures
        k < match_prefix(buf, kind, indent) ==> buf[k]@.kind == kind && buf[k]@.indentation
            == indent,
        k == match_prefix(buf, kind, indent) && k < buf.len() ==> !(buf[k]@.kind == kind
            && buf[k]@.indentation == indent),
    decreases buf.len(),
{
    if buf.len() == 0 {
    } else if k == 0 {
    } else {
        lemma_match_prefix_index(buf.drop_first(), kind, indent, k - 1);
        if k < buf.len() {
            assert(buf.drop_first()[k - 1] == buf[k]);
        }
    }
}

} // verus!
