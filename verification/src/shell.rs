//! The shell aggregate: the source stack, the builtin, variable and
//! function tables, and the per-process state.  Every construct and
//! pipeline call takes the one `Shell` by reference; forked children get
//! a private copy, so state changed in a subshell never leaks back.

use vstd::prelude::*;

use crate::error::ShellError;
use crate::line::Line;
use crate::modules::{load_module, Builtin, Module};
use crate::sources::{
    block_available, frames_of, match_prefix, sources_measure, SourceKind, Source, Sources,
    UserFunction,
};
use crate::state::State;
use crate::strutil::str_eq;

verus! {

/// The value stored under `key`, where the latest insertion wins.
pub open spec fn lookup_var(entries: Seq<(String, String)>, key: Seq<char>) -> Option<Seq<char>>
    decreases entries.len(),
{
    if entries.len() == 0 {
        Option::None
    } else if entries.last().0@ == key {
        Option::Some(entries.last().1@)
    } else {
        lookup_var(entries.drop_last(), key)
    }
}

/// A variable's text: its stored value, or empty if unset.
pub open spec fn spec_var_value(entries: Seq<(String, String)>, key: Seq<char>) -> Seq<char> {
    match lookup_var(entries, key) {
        Option::Some(v) => v,
        Option::None => Seq::empty(),
    }
}

/// The builtin registered under `key`, where the latest insertion wins.
pub open spec fn lookup_builtin(entries: Seq<(String, Builtin)>, key: Seq<char>) -> Option<Builtin>
    decreases entries.len(),
{
    if entries.len() == 0 {
        Option::None
    } else if entries.last().0@ == key {
        Option::Some(entries.last().1)
    } else {
        lookup_builtin(entries.drop_last(), key)
    }
}

/// The function stored under `name`, where the latest definition wins.
pub open spec fn lookup_function(entries: Seq<UserFunction>, name: Seq<char>) -> Option<
    UserFunction,
>
    decreases entries.len(),
{
    if entries.len() == 0 {
        Option::None
    } else if entries.last().fn_name@ == name {
        Option::Some(entries.last())
    } else {
        lookup_function(entries.drop_last(), name)
    }
}

/// One more variable binding: the new key wins, others are unchanged.
pub proof fn lemma_lookup_var_push(entries: Seq<(String, String)>, kv: (String, String))
    ensures
        forall|key: Seq<char>|
            #[trigger] lookup_var(entries.push(kv), key) == if kv.0@ == key {
                Option::Some(kv.1@)
            } else {
                lookup_var(entries, key)
            },
{
    assert forall|key: Seq<char>|
        #[trigger] lookup_var(entries.push(kv), key) == if kv.0@ == key {
            Option::Some(kv.1@)
        } else {
            lookup_var(entries, key)
        } by {
        assert(entries.push(kv).drop_last() =~= entries);
        assert(entries.push(kv).last() == kv);
    }
}

/// One more builtin registration: the new name wins, others are
/// unchanged.
pub proof fn lemma_lookup_builtin_push(entries: Seq<(String, Builtin)>, kv: (String, Builtin))
    ensures
        forall|key: Seq<char>|
            #[trigger] lookup_builtin(entries.push(kv), key) == if kv.0@ == key {
                Option::Some(kv.1)
            } else {
                lookup_builtin(entries, key)
            },
{
    assert forall|key: Seq<char>|
        #[trigger] lookup_builtin(entries.push(kv), key) == if kv.0@ == key {
            Option::Some(kv.1)
        } else {
            lookup_builtin(entries, key)
        } by {
        assert(entries.push(kv).drop_last() =~= entries);
        assert(entries.push(kv).last() == kv);
    }
}

/// One more function definition: the new name wins, others are
/// unchanged.
pub proof fn lemma_lookup_function_push(entries: Seq<UserFunction>, f: UserFunction)
    ensures
        forall|name: Seq<char>|
            #[trigger] lookup_function(entries.push(f), name) == if f.fn_name@ == name {
                Option::Some(f)
            } else {
                lookup_function(entries, name)
            },
{
    assert forall|name: Seq<char>|
        #[trigger] lookup_function(entries.push(f), name) == if f.fn_name@ == name {
            Option::Some(f)
        } else {
            lookup_function(entries, name)
        } by {
        assert(entries.push(f).drop_last() =~= entries);
        assert(entries.push(f).last() == f);
    }
}

/// What the front end must do before the next `run` call: everything
/// the interpreter itself cannot, because it needs the operating
/// system.
pub enum Work {
    /// Every source is exhausted.
    Eof,
    /// The line was handled entirely inside the library.
    Completed,
    /// Run this pipeline: wire its elements with pipes and forked
    /// children, then record the exit status.
    RunPipeline(crate::pipeline::Pipeline),
    /// Evaluate the chain's conditionals in forked subshells, in order,
    /// stopping at the first success, then call `resolve_if`.
    EvaluateIf(crate::constructs::IfChain),
    /// Evaluate the clause's conditional in a forked subshell, then
    /// call `resolve_while`.
    EvaluateWhile(crate::constructs::WhileClause),
    /// Run `command` in a forked subshell with stdout captured, then
    /// hand the output to `resume_subshell`.
    ExpandSubshell { line: Line, index: usize, command: String },
}

/// How executing one classified line leaves the shell, by line type,
/// over the token views the execution saw: an empty line does nothing;
/// a normal line becomes a pipeline plan exactly when no pipe operator
/// closes an empty stage; each construct behaves as its own
/// post-relation says.
pub open spec fn dispatch_post(
    pre: Shell,
    post: Shell,
    line: Line,
    tokens: Seq<crate::token::TokenView>,
    r: Result<Work, ShellError>,
) -> bool {
    match line.line_type {
        crate::line::LineType::Empty => r == Result::<Work, ShellError>::Ok(Work::Completed)
            && post == pre,
        crate::line::LineType::Normal => match r {
            Result::Ok(w) => post == pre && (w matches Work::RunPipeline(p)
                && crate::pipeline::spec_pipeline_ok(tokens)
                && crate::pipeline::elements_obey_groups(
                p.elements@,
                crate::pipeline::spec_pipeline_groups(tokens),
                pre,
            )),
            Result::Err(e) => e == ShellError::EmptyPipeElement
                && !crate::pipeline::spec_pipeline_ok(tokens) && post == pre,
        },
        crate::line::LineType::ShellConstruct(c) => match c {
            crate::line::Construct::If | crate::line::Construct::Elif
                | crate::line::Construct::Else => match r {
                Result::Ok(w) => (w matches Work::EvaluateIf(chain)
                    && crate::constructs::if_collect_post(pre, post, line, Result::Ok(chain))),
                Result::Err(e) => crate::constructs::if_collect_post(
                    pre,
                    post,
                    line,
                    Result::Err(e),
                ),
            },
            crate::line::Construct::While => match r {
                Result::Ok(w) => (w matches Work::EvaluateWhile(clause)
                    && crate::constructs::while_collect_post(
                    pre,
                    post,
                    line,
                    tokens,
                    Result::Ok(clause),
                )),
                Result::Err(e) => crate::constructs::while_collect_post(
                    pre,
                    post,
                    line,
                    tokens,
                    Result::Err(e),
                ),
            },
            crate::line::Construct::For => match r {
                Result::Ok(w) => w is Completed && crate::constructs::for_post(
                    pre,
                    post,
                    line,
                    tokens,
                    Result::Ok(()),
                ),
                Result::Err(e) => crate::constructs::for_post(
                    pre,
                    post,
                    line,
                    tokens,
                    Result::Err(e),
                ),
            },
            crate::line::Construct::Let => match r {
                Result::Ok(w) => w is Completed && crate::constructs::let_post(
                    pre,
                    post,
                    tokens,
                    Result::Ok(()),
                ),
                Result::Err(e) => crate::constructs::let_post(pre, post, tokens, Result::Err(e)),
            },
            crate::line::Construct::FunctionDefinition => match r {
                Result::Ok(w) => w is Completed && crate::constructs::fn_post(
                    pre,
                    post,
                    line,
                    tokens,
                    Result::Ok(()),
                ),
                Result::Err(e) => crate::constructs::fn_post(
                    pre,
                    post,
                    line,
                    tokens,
                    Result::Err(e),
                ),
            },
        },
    }
}

/// The whole interpreter: input sources, tables and state.
pub struct Shell {
    pub state: State,
    pub sources: Sources,
    pub builtins: Vec<(String, Builtin)>,
    pub user_variables: Vec<(String, String)>,
    pub env_variables: Vec<(String, String)>,
    pub user_functions: Vec<UserFunction>,
}

impl Shell {
    /// A fresh shell: empty sources and tables, with the core module's
    /// builtins registered.  This never fails, so a session always
    /// reaches its main loop.
    pub fn new() -> (r: Shell)
        ensures
            r.state.interactive == true,
            r.state.rv == 0,
            r.sources.sources@.len() == 0,
            r.sources.buffer@.len() == 0,
            r.user_variables@.len() == 0,
            r.env_variables@.len() == 0,
            r.user_functions@.len() == 0,
            lookup_builtin(r.builtins@, crate::modules::kw_cd()) == Option::Some(Builtin::Chdir),
            lookup_builtin(r.builtins@, crate::modules::kw_exit()) == Option::Some(Builtin::Exit),
            lookup_builtin(r.builtins@, crate::modules::kw_load_module()) == Option::Some(
                Builtin::LoadModule,
            ),
            lookup_builtin(r.builtins@, crate::modules::kw_unload_module()) == Option::Some(
                Builtin::UnloadModule,
            ),
    {
        let mut smsh = Shell {
            state: State::new(),
            sources: Sources::new(),
            builtins: Vec::new(),
            user_variables: Vec::new(),
            env_variables: Vec::new(),
            user_functions: Vec::new(),
        };
        load_module(&mut smsh, Module::Core);
        smsh
    }

    /// Registers one builtin under a name; the latest registration wins.
    pub fn insert_builtin(&mut self, name: String, b: Builtin)
        ensures
            final(self).builtins@ == old(self).builtins@.push((name, b)),
            final(self).state == old(self).state,
            final(self).sources == old(self).sources,
            final(self).user_variables == old(self).user_variables,
            final(self).env_variables == old(self).env_variables,
            final(self).user_functions == old(self).user_functions,
    {
        self.builtins.push((name, b));
    }

    /// Binds a user variable, overwriting any prior value.
    pub fn insert_user_variable(&mut self, key: String, val: String)
        ensures
            final(self).user_variables@ == old(self).user_variables@.push((key, val)),
            final(self).state == old(self).state,
            final(self).sources == old(self).sources,
            final(self).builtins == old(self).builtins,
            final(self).env_variables == old(self).env_variables,
            final(self).user_functions == old(self).user_functions,
    {
        self.user_variables.push((key, val));
    }

    /// Records one environment variable, as handed in by the front end
    /// at startup.
    pub fn insert_env_variable(&mut self, key: String, val: String)
        ensures
            final(self).env_variables@ == old(self).env_variables@.push((key, val)),
            final(self).state == old(self).state,
            final(self).sources == old(self).sources,
            final(self).builtins == old(self).builtins,
            final(self).user_variables == old(self).user_variables,
            final(self).user_functions == old(self).user_functions,
    {
        self.env_variables.push((key, val));
    }

    /// Stores a user function, replacing any prior one of the same name
    /// for future lookups.
    pub fn insert_user_function(&mut self, func: UserFunction)
        ensures
            final(self).user_functions@ == old(self).user_functions@.push(func),
            final(self).state == old(self).state,
            final(self).sources == old(self).sources,
            final(self).builtins == old(self).builtins,
            final(self).user_variables == old(self).user_variables,
            final(self).env_variables == old(self).env_variables,
    {
        self.user_functions.push(func);
    }

    /// The value bound to a user variable, if any.
    pub fn get_user_variable(&self, key: &str) -> (r: Option<String>)
        ensures
            match r {
                Some(v) => lookup_var(self.user_variables@, key@) == Option::Some(v@),
                None => lookup_var(self.user_variables@, key@) is None,
            },
    {
        let mut i: usize = self.user_variables.len();
        proof {
            assert(self.user_variables@.take(i as int) =~= self.user_variables@);
        }
        while i > 0
            invariant
                i <= self.user_variables@.len(),
                lookup_var(self.user_variables@, key@) == lookup_var(
                    self.user_variables@.take(i as int),
                    key@,
                ),
            decreases i,
        {
            proof {
                assert(self.user_variables@.take(i as int).last() == self.user_variables@[i - 1]);
                assert(self.user_variables@.take(i as int).drop_last()
                    =~= self.user_variables@.take(i - 1));
            }
            i = i - 1;
            if str_eq(self.user_variables[i].0.as_str(), key) {
                return Option::Some(self.user_variables[i].1.clone());
            }
        }
        Option::None
    }

    /// The value of an environment variable, if the front end recorded
    /// one.
    pub fn get_env_variable(&self, key: &str) -> (r: Option<String>)
        ensures
            match r {
                Some(v) => lookup_var(self.env_variables@, key@) == Option::Some(v@),
                None => lookup_var(self.env_variables@, key@) is None,
            },
    {
        let mut i: usize = self.env_variables.len();
        proof {
            assert(self.env_variables@.take(i as int) =~= self.env_variables@);
        }
        while i > 0
            invariant
                i <= self.env_variables@.len(),
                lookup_var(self.env_variables@, key@) == lookup_var(
                    self.env_variables@.take(i as int),
                    key@,
                ),
            decreases i,
        {
            proof {
                assert(self.env_variables@.take(i as int).last() == self.env_variables@[i - 1]);
                assert(self.env_variables@.take(i as int).drop_last() =~= self.env_variables@.take(
                    i - 1,
                ));
            }
            i = i - 1;
            if str_eq(self.env_variables[i].0.as_str(), key) {
                return Option::Some(self.env_variables[i].1.clone());
            }
        }
        Option::None
    }

    /// The builtin registered under a command name, if any.
    pub fn get_builtin(&self, command: &str) -> (r: Option<Builtin>)
        ensures
            r == lookup_builtin(self.builtins@, command@),
    {
        let mut i: usize = self.builtins.len();
        proof {
            assert(self.builtins@.take(i as int) =~= self.builtins@);
        }
        while i > 0
            invariant
                i <= self.builtins@.len(),
                lookup_builtin(self.builtins@, command@) == lookup_builtin(
                    self.builtins@.take(i as int),
                    command@,
                ),
            decreases i,
        {
            proof {
                assert(self.builtins@.take(i as int).last() == self.builtins@[i - 1]);
                assert(self.builtins@.take(i as int).drop_last() =~= self.builtins@.take(i - 1));
            }
            i = i - 1;
            if str_eq(self.builtins[i].0.as_str(), command) {
                return Option::Some(self.builtins[i].1);
            }
        }
        Option::None
    }

    /// A private copy of the user function stored under `name`, if any.
    pub fn get_user_function(&self, name: &str) -> (r: Option<UserFunction>)
        ensures
            match r {
                Some(f) => lookup_function(self.user_functions@, name@) matches Option::Some(g)
                    && f.fn_name@ == g.fn_name@ && f.fn_body@ == g.fn_body@ && f.line_num
                    == g.line_num,
                None => lookup_function(self.user_functions@, name@) is None,
            },
    {
        let mut i: usize = self.user_functions.len();
        proof {
            assert(self.user_functions@.take(i as int) =~= self.user_functions@);
        }
        while i > 0
            invariant
                i <= self.user_functions@.len(),
                lookup_function(self.user_functions@, name@) == lookup_function(
                    self.user_functions@.take(i as int),
                    name@,
                ),
            decreases i,
        {
            proof {
                assert(self.user_functions@.take(i as int).last() == self.user_functions@[i - 1]);
                assert(self.user_functions@.take(i as int).drop_last()
                    =~= self.user_functions@.take(i - 1));
            }
            i = i - 1;
            if str_eq(self.user_functions[i].fn_name.as_str(), name) {
                return Option::Some(self.user_functions[i].duplicate());
            }
        }
        Option::None
    }

    /// The shell's state flags.
    pub fn state(&self) -> (r: &State)
        ensures
            r == &self.state,
    {
        &self.state
    }

    /// Records a command's return value.
    pub fn set_rv(&mut self, rv: i32)
        ensures
            final(self).state.rv == rv,
            final(self).state.interactive == old(self).state.interactive,
            final(self).sources == old(self).sources,
            final(self).builtins == old(self).builtins,
            final(self).user_variables == old(self).user_variables,
            final(self).env_variables == old(self).env_variables,
            final(self).user_functions == old(self).user_functions,
    {
        self.state.rv = rv;
    }

    /// The last recorded return value.
    pub fn rv(&self) -> (r: i32)
        ensures
            r == self.state.rv,
    {
        self.state.rv
    }

    /// Whether this shell talks to a terminal.
    pub fn is_interactive(&self) -> (r: bool)
        ensures
            r == self.state.interactive,
    {
        self.state.is_interactive()
    }

    /// The next logical line, from pushback or the source stack; EOF on
    /// an empty stack.
    pub fn get_line(&mut self) -> (r: Result<Option<Line>, ShellError>)
        ensures
            old(self).sources.buffer@.len() > 0 ==> (r matches Result::Ok(opt) && opt
                matches Option::Some(l) && l == old(self).sources.buffer@[0] && final(self).sources.buffer@ == old(self).sources.buffer@.drop_first() && final(self).sources.sources == old(self).sources.sources),
            old(self).sources.buffer@.len() == 0 && old(self).sources.sources@.len() == 0 ==> r
                == Result::<Option<Line>, ShellError>::Ok(Option::<Line>::None) && final(self).sources.sources@.len() == 0 && final(self).sources.buffer@.len() == 0,
            sources_measure(final(self).sources) <= sources_measure(old(self).sources),
            r is Ok && r->Ok_0 is Some ==> sources_measure(final(self).sources) < sources_measure(
                old(self).sources,
            ),
            r == Result::<Option<Line>, ShellError>::Ok(Option::<Line>::None) ==> final(self).sources.sources@.len() == 0 && final(self).sources.buffer@.len() == 0,
            old(self).sources.buffer@.len() == 0 && old(self).sources.sources@.len() == 0 ==> r
                == Result::<Option<Line>, ShellError>::Ok(Option::<Line>::None) && final(self).sources.sources == old(self).sources.sources,
            final(self).state == old(self).state,
            final(self).builtins == old(self).builtins,
            final(self).user_variables == old(self).user_variables,
            final(self).env_variables == old(self).env_variables,
            final(self).user_functions == old(self).user_functions,
    {
        self.sources.get_line()
    }

    /// Collects one block: the following lines from `source_kind` at
    /// exactly `indent`.
    pub fn get_block(&mut self, source_kind: &SourceKind, indent: usize) -> (r: Result<
        Vec<Line>,
        ShellError,
    >)
        ensures
            block_available(old(self).sources, source_kind@, indent) ==> match r {
                Ok(lines) => lines@ == old(self).sources.buffer@.take(
                    match_prefix(old(self).sources.buffer@, source_kind@, indent) as int,
                ) && final(self).sources.buffer@ == old(self).sources.buffer@.skip(
                    match_prefix(old(self).sources.buffer@, source_kind@, indent) as int,
                ) && final(self).sources.sources == old(self).sources.sources,
                Err(_) => false,
            },
            sources_measure(final(self).sources) <= sources_measure(old(self).sources),
            final(self).state == old(self).state,
            final(self).builtins == old(self).builtins,
            final(self).user_variables == old(self).user_variables,
            final(self).env_variables == old(self).env_variables,
            final(self).user_functions == old(self).user_functions,
    {
        self.sources.get_block(source_kind, indent)
    }

    /// Pushes a new source on top of the stack.
    pub fn push_source(&mut self, source: Source)
        ensures
            final(self).sources.sources@ == old(self).sources.sources@.push(source),
            final(self).sources.buffer == old(self).sources.buffer,
            final(self).state == old(self).state,
            final(self).builtins == old(self).builtins,
            final(self).user_variables == old(self).user_variables,
            final(self).env_variables == old(self).env_variables,
            final(self).user_functions == old(self).user_functions,
    {
        self.sources.push_source(source)
    }

    /// Reinserts one line ahead of the next `get_line`.
    pub fn push_line(&mut self, line: Line)
        ensures
            final(self).sources.buffer@ == seq![line] + old(self).sources.buffer@,
            final(self).sources.sources == old(self).sources.sources,
            final(self).state == old(self).state,
            final(self).builtins == old(self).builtins,
            final(self).user_variables == old(self).user_variables,
            final(self).env_variables == old(self).env_variables,
            final(self).user_functions == old(self).user_functions,
    {
        self.sources.push_line(line);
    }

    /// Reinserts a block ahead of the next `get_line`, preserving order.
    pub fn push_block(&mut self, lines: Vec<Line>)
        ensures
            final(self).sources.buffer@ == lines@ + old(self).sources.buffer@,
            final(self).sources.sources == old(self).sources.sources,
            final(self).state == old(self).state,
            final(self).builtins == old(self).builtins,
            final(self).user_variables == old(self).user_variables,
            final(self).env_variables == old(self).env_variables,
            final(self).user_functions == old(self).user_functions,
    {
        self.sources.push_block(lines);
    }

    /// Discards every pending source, as a forked child must before it
    /// runs its own line.
    pub fn clear_sources(&mut self)
        ensures
            final(self).sources.sources@.len() == 0,
            final(self).sources.buffer == old(self).sources.buffer,
            final(self).state == old(self).state,
            final(self).builtins == old(self).builtins,
            final(self).user_variables == old(self).user_variables,
            final(self).env_variables == old(self).env_variables,
            final(self).user_functions == old(self).user_functions,
    {
        self.sources.clear();
    }

    /// Processes the next logical line, stopping at the first thing
    /// only the front end can do.  `Eof` means every source is
    /// exhausted; anything else describes work to perform before
    /// calling `run` again.
    pub fn run(&mut self) -> (r: Result<Work, ShellError>)
        ensures
            r == Result::<Work, ShellError>::Ok(Work::Eof) ==> final(self).sources.sources@.len() == 0 && final(self).sources.buffer@.len() == 0,
            old(self).sources.buffer@.len() == 0 && old(self).sources.sources@.len() == 0 ==> r
                == Result::<Work, ShellError>::Ok(Work::Eof) && final(self).sources.sources
                == old(self).sources.sources && final(self).state == old(self).state && final(self).builtins == old(self).builtins && final(self).user_variables == old(self).user_variables && final(self).env_variables == old(self).env_variables && final(self).user_functions == old(self).user_functions,
            work_subshell_ok(r),
            old(self).sources.buffer@.len() > 0 ==> ({
                let head = old(self).sources.buffer@[0];
                let ts0 = head.tokens.deep_view();
                let ets = crate::token::spec_expanded_all(
                    ts0,
                    old(self).user_variables@,
                    old(self).env_variables@,
                );
                let fs = crate::token::first_subshell(ts0, 0);
                &&& (fs < ts0.len() ==> final(self).sources.buffer@ == old(self).sources.buffer@.drop_first() && final(self).sources.sources == old(self).sources.sources && final(self).state == old(self).state && final(self).builtins
                    == old(self).builtins && final(self).user_variables == old(self).user_variables && final(self).env_variables == old(self).env_variables && final(self).user_functions == old(self).user_functions && (match r {
                    Result::Ok(w) => (w matches Work::ExpandSubshell { line: l, index, command }
                        && index == fs && command@ == ts0[fs].text && l.tokens.deep_view() == ets
                        && l.raw_text@ == head.raw_text@ && l.line_type == head.line_type
                        && l.line_id == head.line_id && l.indentation == head.indentation),
                    Result::Err(_) => false,
                }))
                &&& (fs == ts0.len() ==> (match head.line_type {
                    crate::line::LineType::Empty => r == Result::<Work, ShellError>::Ok(
                        Work::Completed,
                    ) && final(self).sources.buffer@ == old(self).sources.buffer@.drop_first()
                        && final(self).sources.sources == old(self).sources.sources && final(self).state == old(self).state && final(self).user_variables == old(self).user_variables && final(self).user_functions == old(self).user_functions,
                    crate::line::LineType::Normal => (match r {
                        Result::Ok(w) => (w matches Work::RunPipeline(p)
                            && crate::pipeline::spec_pipeline_ok(
                            crate::token::spec_fielded_all(ets),
                        ) && crate::pipeline::elements_obey_groups(
                            p.elements@,
                            crate::pipeline::spec_pipeline_groups(
                                crate::token::spec_fielded_all(ets),
                            ),
                            *old(self),
                        )),
                        Result::Err(e) => e == ShellError::EmptyPipeElement,
                    }),
                    crate::line::LineType::ShellConstruct(c) => (match r {
                        Result::Ok(w) => match c {
                            crate::line::Construct::If | crate::line::Construct::Elif
                                | crate::line::Construct::Else => w is EvaluateIf,
                            crate::line::Construct::While => w is EvaluateWhile,
                            _ => w is Completed,
                        },
                        Result::Err(_) => true,
                    }),
                }))
            }),
    {
        let ghost pre = *self;
        let got = match self.get_line() {
            Result::Ok(got) => got,
            Result::Err(e) => {
                return Result::Err(e);
            },
        };
        match got {
            Option::None => Result::Ok(Work::Eof),
            Option::Some(line) => {
                let ghost mid = *self;
                let r = self.process_line(line);
                proof {
                    if pre.sources.buffer@.len() > 0 {
                        let head = pre.sources.buffer@[0];
                        let ts0 = head.tokens.deep_view();
                        let ets = crate::token::spec_expanded_all(
                            ts0,
                            pre.user_variables@,
                            pre.env_variables@,
                        );
                        let fs = crate::token::first_subshell(ts0, 0);
                        if fs == ts0.len() && head.line_type is Normal && r is Ok
                            && r->Ok_0 is RunPipeline {
                            let p = match r->Ok_0 {
                                Work::RunPipeline(p) => p,
                                _ => arbitrary(),
                            };
                            let groups = crate::pipeline::spec_pipeline_groups(
                                crate::token::spec_fielded_all(ets),
                            );
                            assert(crate::pipeline::elements_obey_groups(
                                p.elements@,
                                groups,
                                mid,
                            ));
                            assert forall|i: int| 0 <= i < groups.len() implies {
                                &&& (#[trigger] p.elements@[i]).argv.deep_view() == groups[i]
                                &&& groups[i].len() > 0
                                &&& crate::pipeline::kind_obeys_resolution(
                                    p.elements@[i].cmd_kind,
                                    pre,
                                    groups[i][0],
                                )
                            } by {
                                assert(crate::pipeline::kind_obeys_resolution(
                                    p.elements@[i].cmd_kind,
                                    mid,
                                    groups[i][0],
                                ));
                                assert(mid.user_functions == pre.user_functions);
                                assert(mid.builtins == pre.builtins);
                            }
                        }
                    }
                }
                r
            },
        }
    }

    /// Expands, separates, selects and executes one line, stopping when
    /// a command substitution needs the front end.  With a substitution
    /// pending, the request names the first such token and its command;
    /// otherwise the line runs as its type prescribes, over its
    /// expanded, separated and selected tokens.
    pub fn process_line(&mut self, line: Line) -> (r: Result<Work, ShellError>)
        ensures
            work_subshell_ok(r),
            !(r == Result::<Work, ShellError>::Ok(Work::Eof)),
            ({
                let ts0 = line.tokens.deep_view();
                let ets = crate::token::spec_expanded_all(
                    ts0,
                    old(self).user_variables@,
                    old(self).env_variables@,
                );
                let fs = crate::token::first_subshell(ts0, 0);
                &&& (fs < ts0.len() ==> *final(self) == *old(self) && (match r {
                    Result::Ok(w) => (w matches Work::ExpandSubshell { line: l, index, command }
                        && index == fs && command@ == ts0[fs].text && l.tokens.deep_view() == ets
                        && l.raw_text@ == line.raw_text@ && l.line_type == line.line_type
                        && l.line_id == line.line_id && l.indentation == line.indentation),
                    Result::Err(_) => false,
                }))
                &&& (fs == ts0.len() ==> dispatch_post(
                    *old(self),
                    *final(self),
                    line,
                    crate::token::spec_fielded_all(ets),
                    r,
                ))
            }),
    {
        let ghost ts0 = line.tokens.deep_view();
        let ghost ets = crate::token::spec_expanded_all(
            ts0,
            self.user_variables@,
            self.env_variables@,
        );
        let mut line = line;
        line.expand(self);
        proof {
            assert(line.tokens.deep_view() =~= ets);
        }
        match line.first_subshell_from(0) {
            Option::Some((index, command)) => {
                proof {
                    assert forall|j: int| 0 <= j < index implies !((#[trigger] ts0[j]).expansion
                        is Subshell) by {
                        assert(!(ets[j].expansion is Subshell));
                    }
                    assert(ts0[index as int].expansion is Subshell);
                    crate::token::lemma_first_subshell_at(ts0, 0, index as int);
                }
                Result::Ok(Work::ExpandSubshell { line, index, command })
            },
            Option::None => {
                proof {
                    assert forall|j: int| 0 <= j < ts0.len() implies !((#[trigger] ts0[j])
                        .expansion is Subshell) by {
                        assert(!(ets[j].expansion is Subshell));
                    }
                    crate::token::lemma_first_subshell_at(ts0, 0, ts0.len() as int);
                }
                self.finish_line(line)
            },
        }
    }

    /// Continues a line after one command substitution: stores the
    /// captured output in its token and proceeds to the next
    /// substitution, or finishes the line.
    pub fn resume_subshell(&mut self, line: Line, index: usize, output: String) -> (r: Result<
        Work,
        ShellError,
    >)
        ensures
            work_subshell_ok(r),
            !(r == Result::<Work, ShellError>::Ok(Work::Eof)),
            ({
                let ts0 = line.tokens.deep_view();
                let ts1 = if (index as int) < ts0.len() {
                    ts0.update(
                        index as int,
                        crate::token::TokenView { text: output@, ..ts0[index as int] },
                    )
                } else {
                    ts0
                };
                let from = if (index as int) < ts0.len() {
                    index + 1
                } else {
                    ts0.len() as int
                };
                let fs = crate::token::first_subshell(ts1, from);
                &&& (fs < ts1.len() ==> *final(self) == *old(self) && (match r {
                    Result::Ok(w) => (w matches Work::ExpandSubshell { line: l, index: i, command }
                        && i == fs && command@ == ts1[fs].text && l.tokens.deep_view() == ts1
                        && l.raw_text@ == line.raw_text@ && l.line_type == line.line_type
                        && l.line_id == line.line_id && l.indentation == line.indentation),
                    Result::Err(_) => false,
                }))
                &&& (fs == ts1.len() ==> dispatch_post(
                    *old(self),
                    *final(self),
                    line,
                    crate::token::spec_fielded_all(ts1),
                    r,
                ))
            }),
    {
        let ghost ts0 = line.tokens.deep_view();
        let mut line = line;
        line.apply_subshell(index, output);
        let ghost ts1 = line.tokens.deep_view();
        proof {
            if (index as int) < ts0.len() {
                assert(ts1 =~= ts0.update(
                    index as int,
                    crate::token::TokenView { text: output@, ..ts0[index as int] },
                ));
            } else {
                assert(ts1 =~= ts0);
            }
        }
        let from = if index >= line.tokens.len() {
            line.tokens.len()
        } else {
            index + 1
        };
        match line.first_subshell_from(from) {
            Option::Some((next, command)) => {
                proof {
                    crate::token::lemma_first_subshell_at(ts1, from as int, next as int);
                }
                Result::Ok(Work::ExpandSubshell { line, index: next, command })
            },
            Option::None => {
                proof {
                    crate::token::lemma_first_subshell_at(ts1, from as int, ts1.len() as int);
                }
                self.finish_line(line)
            },
        }
    }

    /// Separates, selects and executes a fully expanded line.
    fn finish_line(&mut self, line: Line) -> (r: Result<Work, ShellError>)
        ensures
            work_subshell_ok(r),
            !(r == Result::<Work, ShellError>::Ok(Work::Eof)),
            dispatch_post(
                *old(self),
                *final(self),
                line,
                crate::token::spec_fielded_all(line.tokens.deep_view()),
                r,
            ),
    {
        let ghost ts0 = line.tokens.deep_view();
        let mut line = line;
        line.separate();
        let _ = line.select();
        proof {
            assert(line.tokens.deep_view() =~= crate::token::spec_fielded_all(ts0));
        }
        line.execute(self)
    }

    /// Pops every source, returning one diagnostic frame per source
    /// that tracks a last line, innermost first.
    pub fn backtrace(&mut self) -> (r: Vec<String>)
        ensures
            final(self).sources.sources@.len() == 0,
            final(self).sources.buffer == old(self).sources.buffer,
            r.deep_view() == frames_of(old(self).sources.sources@),
            final(self).state == old(self).state,
            final(self).builtins == old(self).builtins,
            final(self).user_variables == old(self).user_variables,
            final(self).env_variables == old(self).env_variables,
            final(self).user_functions == old(self).user_functions,
    {
        self.sources.backtrace()
    }
}

/// A substitution request always points at a command-substitution
/// token and carries its command text.
pub open spec fn work_subshell_ok(r: Result<Work, ShellError>) -> bool {
    match r {
        Result::Ok(w) => match w {
            Work::ExpandSubshell { line, index, command } => {
                &&& (index as int) < line.tokens@.len()
                &&& line.tokens@[index as int]@.expansion is Subshell
                &&& command@ == line.tokens@[index as int]@.text
            },
            _ => true,
        },
        Result::Err(_) => true,
    }
}

} // verus!
