//! Pipelines.  A line's tokens are split on the pipe operator into
//! elements; each element's command resolves — once, at construction —
//! to a user function, a builtin, or an external command.  Wiring the
//! elements with pipes and forked children is the front end's work;
//! this module builds the plan and runs the parts that stay inside the
//! interpreter.

use vstd::prelude::*;

use crate::error::ShellError;
use crate::line::{nonempty_fields, Line};
use crate::modules::{run_builtin, Builtin, BuiltinAction};
use crate::shell::{lookup_builtin, lookup_function, Shell};
use crate::sources::{Source, UserFunction};
use crate::token::{is_pipe_selected, TokenView};

verus! {

/// What one pipeline element's command resolved to.
pub enum CommandKind {
    /// A stored user function (a private copy, resolved at
    /// construction: later redefinitions do not retroact).
    UserFunction(UserFunction),
    /// A registered builtin.
    Builtin(Builtin),
    /// Anything else: a command for the operating system, by name.
    ExternalCommand(String),
}

/// One stage of a pipeline: its argument vector and its resolved
/// command.
pub struct PipeElement {
    pub argv: Vec<String>,
    pub cmd_kind: CommandKind,
}

/// A line's command plan: its stages, in order.
pub struct Pipeline {
    pub elements: Vec<PipeElement>,
}

/// What the front end must do to finish one pipeline element.
pub enum ElementAction {
    /// Nothing: the element completed inside the library.
    Completed,
    /// Change directory (`cd` ran as the unforked final stage).
    ChangeDir(Option<String>),
    /// Exit the shell process with this status.
    ExitShell(i32),
    /// Execute this argument vector as an external command.
    Exec(Vec<String>),
}

/// The resolution rule: user functions shadow builtins, which shadow
/// external commands.
pub open spec fn kind_obeys_resolution(kind: CommandKind, smsh: Shell, name: Seq<char>) -> bool {
    match kind {
        CommandKind::UserFunction(f) => match lookup_function(smsh.user_functions@, name) {
            Option::Some(g) => f.fn_name@ == g.fn_name@ && f.fn_body@ == g.fn_body@ && f.line_num
                == g.line_num,
            Option::None => false,
        },
        CommandKind::Builtin(b) => lookup_function(smsh.user_functions@, name) is None
            && lookup_builtin(smsh.builtins@, name) == Option::Some(b),
        CommandKind::ExternalCommand(c) => lookup_function(smsh.user_functions@, name) is None
            && lookup_builtin(smsh.builtins@, name) is None && c@ == name,
    }
}

impl PipeElement {
    /// Builds one pipeline stage: resolves its first word against the
    /// function table, then the builtin table, else as an external
    /// command.  An empty argument vector is an error.
    pub fn new(argv: Vec<String>, smsh: &Shell) -> (r: Result<PipeElement, ShellError>)
        ensures
            match r {
                Ok(e) => argv@.len() > 0 && e.argv == argv && kind_obeys_resolution(
                    e.cmd_kind,
                    *smsh,
                    argv@[0]@,
                ),
                Err(err) => argv@.len() == 0 && err == ShellError::EmptyPipeElement,
            },
    {
        if argv.len() == 0 {
            return Result::Err(ShellError::EmptyPipeElement);
        }
        let cmd_kind = match smsh.get_user_function(argv[0].as_str()) {
            Option::Some(f) => CommandKind::UserFunction(f),
            Option::None => match smsh.get_builtin(argv[0].as_str()) {
                Option::Some(b) => CommandKind::Builtin(b),
                Option::None => CommandKind::ExternalCommand(argv[0].clone()),
            },
        };
        Result::Ok(PipeElement { argv, cmd_kind })
    }

    /// The element's argument vector, with empty arguments dropped.
    pub fn argv(&self) -> (r: Vec<String>)
        ensures
            r.deep_view() == nonempty_fields(self.argv.deep_view()),
    {
        let ghost fs = self.argv.deep_view();
        let mut r = Vec::<String>::new();
        proof {
            assert(nonempty_fields(fs.take(0int)) =~= Seq::<Seq<char>>::empty());
            assert(r.deep_view() =~= nonempty_fields(fs.take(0int)));
        }
        let mut j: usize = 0;
        while j < self.argv.len()
            invariant
                fs == self.argv.deep_view(),
                j <= self.argv@.len(),
                r.deep_view() == nonempty_fields(fs.take(j as int)),
            decreases self.argv@.len() - j,
        {
            let ghost before = r.deep_view();
            proof {
                crate::line::lemma_nonempty_fields_push(fs.take(j as int), fs[j as int]);
                assert(fs.take(j as int).push(fs[j as int]) =~= fs.take(j + 1));
                assert(fs[j as int] == self.argv@[j as int]@);
            }
            if !self.argv[j].as_str().is_empty() {
                r.push(self.argv[j].clone());
                proof {
                    assert(r.deep_view() =~= before.push(fs[j as int]));
                    assert(before.push(fs[j as int]) =~= nonempty_fields(fs.take(j + 1)));
                }
            } else {
                proof {
                    assert(nonempty_fields(fs.take(j + 1)) =~= nonempty_fields(fs.take(j as int)));
                }
            }
            j = j + 1;
        }
        proof {
            assert(fs.take(self.argv@.len() as int) =~= fs);
        }
        r
    }

    /// True of an element that must be handed to the operating system.
    pub fn is_external_command(&self) -> (r: bool)
        ensures
            r == (self.cmd_kind is ExternalCommand),
    {
        match &self.cmd_kind {
            CommandKind::ExternalCommand(_) => true,
            _ => false,
        }
    }

    /// Runs this element in the current shell: a user function becomes
    /// a fresh source on the stack, a builtin runs over the filtered
    /// arguments, and an external command comes back for the front end
    /// to execute.
    pub fn execute(&self, smsh: &mut Shell) -> (r: Result<ElementAction, ShellError>)
        ensures
            self.cmd_kind matches CommandKind::UserFunction(f) ==> r == Result::<
                ElementAction,
                ShellError,
            >::Ok(ElementAction::Completed) && (final(smsh).sources.sources@ == old(smsh).sources.sources@.push(final(smsh).sources.sources@.last())) && (match final(smsh).sources.sources@.last() {
                Source::UserFunction(g) => g.fn_name@ == f.fn_name@ && g.fn_body@ == f.fn_body@
                    && g.line_num == f.line_num,
                _ => false,
            }) && final(smsh).sources.buffer == old(smsh).sources.buffer && final(smsh).state
                == old(smsh).state && final(smsh).user_variables == old(smsh).user_variables
                && final(smsh).user_functions == old(smsh).user_functions,
            self.cmd_kind matches CommandKind::Builtin(b) ==> ({
                let args = nonempty_fields(self.argv.deep_view());
                match r {
                    Result::Ok(a) => match b {
                        Builtin::Chdir => (args.len() <= 1 && a == ElementAction::ChangeDir(
                            Option::<String>::None,
                        )) || (args.len() == 2 && (match a {
                            ElementAction::ChangeDir(p) => match p {
                                Option::Some(q) => q@ == args[1],
                                Option::None => false,
                            },
                            _ => false,
                        })),
                        Builtin::Exit => a == ElementAction::ExitShell(0) && final(smsh).state.rv == 0,
                        Builtin::LoadModule => a == ElementAction::Completed && args.len() == 2
                            && args[1] == crate::modules::kw_core() && final(smsh).state.rv == 0,
                        Builtin::UnloadModule => false,
                    },
                    Result::Err(e) => match b {
                        Builtin::Chdir => e == ShellError::TooManyArguments && args.len() > 2
                            && final(smsh).state.rv == 0,
                        Builtin::Exit => false,
                        Builtin::LoadModule => (args.len() == 2 && args[1]
                            != crate::modules::kw_core() && e == ShellError::UnknownModule
                            && final(smsh).state.rv == 1) || (args.len() != 2 && e
                            == ShellError::MalformedModuleInvocation && final(smsh).state.rv
                            == 2),
                        Builtin::UnloadModule => (args.len() == 2 && args[1]
                            == crate::modules::kw_core() && e == ShellError::CannotUnloadCore) || (
                        args.len() == 2 && args[1] != crate::modules::kw_core() && e
                            == ShellError::UnknownModule && final(smsh).state.rv == 2) || (
                        args.len() != 2 && e == ShellError::MalformedModuleInvocation && final(smsh).state.rv == 1),
                    },
                }
            }),
            self.cmd_kind matches CommandKind::ExternalCommand(c) ==> (*final(smsh) == *old(smsh) && (match r {
                Result::Ok(a) => match a {
                    ElementAction::Exec(args) => args.deep_view() == nonempty_fields(
                        self.argv.deep_view(),
                    ),
                    _ => false,
                },
                Result::Err(_) => false,
            })),
    {
        match &self.cmd_kind {
            CommandKind::UserFunction(f) => {
                smsh.push_source(f.duplicate().build_source());
                Result::Ok(ElementAction::Completed)
            },
            CommandKind::Builtin(b) => {
                let args = self.argv();
                proof {
                    let fs = nonempty_fields(self.argv.deep_view());
                    assert(args.deep_view() == fs);
                    assert(args@.len() == fs.len());
                    if fs.len() >= 2 {
                        assert(args@[1]@ == fs[1]);
                    }
                }
                match run_builtin(smsh, *b, args) {
                    Result::Ok(a) => Result::Ok(
                        match a {
                            BuiltinAction::Completed => ElementAction::Completed,
                            BuiltinAction::ChangeDir(p) => ElementAction::ChangeDir(p),
                            BuiltinAction::ExitShell(code) => ElementAction::ExitShell(code),
                        },
                    ),
                    Result::Err(e) => Result::Err(e),
                }
            },
            CommandKind::ExternalCommand(_) => {
                Result::Ok(ElementAction::Exec(self.argv()))
            },
        }
    }
}

/// The grouping fold: walking a line's tokens, a pipe operator closes
/// the argument group being built; other tokens extend it with their
/// non-empty selected fields.  `ok` goes false if a pipe closes an
/// empty group.
pub ghost struct PipeGroups {
    pub groups: Seq<Seq<Seq<char>>>,
    pub cur: Seq<Seq<char>>,
    pub ok: bool,
}

/// One grouping step.
pub open spec fn pgroup_step(st: PipeGroups, t: TokenView) -> PipeGroups {
    if is_pipe_selected(t.selected) {
        PipeGroups {
            groups: st.groups.push(st.cur),
            cur: Seq::empty(),
            ok: st.ok && st.cur.len() > 0,
        }
    } else {
        PipeGroups { groups: st.groups, cur: st.cur + nonempty_fields(t.selected), ok: st.ok }
    }
}

/// The grouping fold over a token sequence.
pub open spec fn pgroup_fold(tokens: Seq<TokenView>) -> PipeGroups
    decreases tokens.len(),
{
    if tokens.len() == 0 {
        PipeGroups { groups: Seq::empty(), cur: Seq::empty(), ok: true }
    } else {
        pgroup_step(pgroup_fold(tokens.drop_last()), tokens.last())
    }
}

/// Folding one more token is one more step.
pub proof fn lemma_pgroup_fold_push(tokens: Seq<TokenView>, t: TokenView)
    ensures
        pgroup_fold(tokens.push(t)) == pgroup_step(pgroup_fold(tokens), t),
{
    assert(tokens.push(t).drop_last() =~= tokens);
    assert(tokens.push(t).last() == t);
}

/// A line's argument groups: the closed groups, plus the trailing one
/// if it is not empty.
pub open spec fn spec_pipeline_groups(tokens: Seq<TokenView>) -> Seq<Seq<Seq<char>>> {
    let st = pgroup_fold(tokens);
    if st.cur.len() > 0 {
        st.groups.push(st.cur)
    } else {
        st.groups
    }
}

/// No pipe operator closed an empty group.
pub open spec fn spec_pipeline_ok(tokens: Seq<TokenView>) -> bool {
    pgroup_fold(tokens).ok
}

/// Every element holds its group's arguments and resolves its first
/// word by the resolution rule.
pub open spec fn elements_obey_groups(
    elements: Seq<PipeElement>,
    groups: Seq<Seq<Seq<char>>>,
    smsh: Shell,
) -> bool {
    &&& elements.len() == groups.len()
    &&& forall|i: int|
        0 <= i < groups.len() ==> {
            &&& (#[trigger] elements[i]).argv.deep_view() == groups[i]
            &&& groups[i].len() > 0
            &&& kind_obeys_resolution(elements[i].cmd_kind, smsh, groups[i][0])
        }
}

impl Pipeline {
    /// Builds a line's pipeline: splits its tokens' selected fields on
    /// the pipe operator into elements, resolving each element's
    /// command once.  A pipe with no command before it is an error.
    pub fn new(line: &Line, smsh: &Shell) -> (r: Result<Pipeline, ShellError>)
        ensures
            match r {
                Ok(p) => spec_pipeline_ok(line.tokens.deep_view()) && elements_obey_groups(
                    p.elements@,
                    spec_pipeline_groups(line.tokens.deep_view()),
                    *smsh,
                ),
                Err(e) => !spec_pipeline_ok(line.tokens.deep_view()) && e
                    == ShellError::EmptyPipeElement,
            },
    {
        let ghost ts = line.tokens.deep_view();
        let mut args = Vec::<String>::new();
        let mut elements = Vec::<PipeElement>::new();
        proof {
            assert(ts.take(0int) =~= Seq::<TokenView>::empty());
            assert(args.deep_view() =~= pgroup_fold(ts.take(0int)).cur);
            assert(elements@.len() == pgroup_fold(ts.take(0int)).groups.len());
        }
        let n = line.tokens.len();
        let mut i: usize = 0;
        while i < n
            invariant
                ts == line.tokens.deep_view(),
                n == line.tokens@.len(),
                i <= n,
                pgroup_fold(ts.take(i as int)).ok,
                args.deep_view() == pgroup_fold(ts.take(i as int)).cur,
                elements_obey_groups(elements@, pgroup_fold(ts.take(i as int)).groups, *smsh),
            decreases n - i,
        {
            let token = &line.tokens[i];
            proof {
                lemma_pgroup_fold_push(ts.take(i as int), ts[i as int]);
                assert(ts.take(i as int).push(ts[i as int]) =~= ts.take(i + 1));
                assert(token@ == ts[i as int]);
            }
            if token.is_pipe_operator() {
                let ghost groups_before = pgroup_fold(ts.take(i as int)).groups;
                let elem = match PipeElement::new(args, smsh) {
                    Result::Ok(elem) => elem,
                    Result::Err(e) => {
                        proof {
                            assert(!pgroup_fold(ts.take(i + 1)).ok);
                            lemma_pgroup_ok_prefix(ts, i + 1);
                        }
                        return Result::Err(e);
                    },
                };
                args = Vec::<String>::new();
                elements.push(elem);
                proof {
                    assert(args.deep_view() =~= pgroup_fold(ts.take(i + 1)).cur);
                    assert(elements_obey_groups(
                        elements@,
                        pgroup_fold(ts.take(i + 1)).groups,
                        *smsh,
                    ));
                }
            } else {
                let ghost args_before = args.deep_view();
                let ghost fs = ts[i as int].selected;
                proof {
                    assert(nonempty_fields(fs.take(0int)) =~= Seq::<Seq<char>>::empty());
                    assert(args.deep_view() =~= args_before + nonempty_fields(fs.take(0int)));
                }
                let mut j: usize = 0;
                while j < token.selected_text.len()
                    invariant
                        fs == ts[i as int].selected,
                        ts == line.tokens.deep_view(),
                        i < line.tokens@.len(),
                        token == &line.tokens[i as int],
                        j <= token.selected_text@.len(),
                        args.deep_view() == args_before + nonempty_fields(fs.take(j as int)),
                    decreases token.selected_text@.len() - j,
                {
                    let ghost before = args.deep_view();
                    let field = &token.selected_text[j];
                    proof {
                        crate::line::lemma_nonempty_fields_push(fs.take(j as int), fs[j as int]);
                        assert(fs.take(j as int).push(fs[j as int]) =~= fs.take(j + 1));
                        assert(fs[j as int] == token.selected_text@[j as int]@);
                    }
                    if !field.as_str().is_empty() {
                        args.push(field.clone());
                        proof {
                            assert(args.deep_view() =~= before.push(fs[j as int]));
                            assert(before.push(fs[j as int]) =~= args_before + nonempty_fields(
                                fs.take(j + 1),
                            ));
                        }
                    } else {
                        proof {
                            assert(nonempty_fields(fs.take(j + 1)) =~= nonempty_fields(
                                fs.take(j as int),
                            ));
                        }
                    }
                    j = j + 1;
                }
                proof {
                    assert(fs.take(token.selected_text@.len() as int) =~= fs);
                }
            }
            i = i + 1;
        }
        proof {
            assert(ts.take(n as int) =~= ts);
        }
        if args.len() > 0 {
            let elem = match PipeElement::new(args, smsh) {
                Result::Ok(elem) => elem,
                Result::Err(_) => {
                    proof {
                        assert(false);
                    }
                    return Result::Err(ShellError::EmptyPipeElement);
                },
            };
            elements.push(elem);
        }
        Result::Ok(Pipeline { elements })
    }
}

/// Once the fold goes bad on a prefix, it stays bad.
proof fn lemma_pgroup_ok_prefix(tokens: Seq<TokenView>, i: int)
    requires
        0 <= i <= tokens.len(),
        !pgroup_fold(tokens.take(i)).ok,
    ensures
        !pgroup_fold(tokens).ok,
    decreases tokens.len() - i,
{
    if i == tokens.len() {
        assert(tokens.take(i) =~= tokens);
    } else {
        lemma_pgroup_fold_push(tokens.take(i), tokens[i]);
        assert(tokens.take(i).push(tokens[i]) =~= tokens.take(i + 1));
        lemma_pgroup_ok_prefix(tokens, i + 1);
    }
}

} // verus!
