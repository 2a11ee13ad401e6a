//! The shell aggregate: lines, pipelines, builtins, sources and
//! diagnostics.

use smsh::error::ShellError;
use smsh::line::{determine_indentation, Line, LineType};
use smsh::modules::{lm_builtin, run_builtin, ulm_builtin, Builtin, BuiltinAction};
use smsh::pipeline::{ElementAction, Pipeline};
use smsh::shell::{Shell, Work};
use smsh::sources::{Script, SourceKind, UserFunction};

fn tty_line(text: &str, num: usize) -> Line {
    Line::new(text.to_string(), num, SourceKind::Tty).unwrap()
}

#[test]
fn indentation_levels() {
    assert_eq!(determine_indentation("echo"), 0);
    assert_eq!(determine_indentation("    echo"), 1);
    assert_eq!(determine_indentation("\techo"), 1);
    assert_eq!(determine_indentation("        echo"), 2);
    assert_eq!(determine_indentation("  \techo"), 1);
    assert_eq!(determine_indentation("   echo"), 0);
}

#[test]
fn block_header_requires_colon() {
    assert_eq!(
        Line::new("if x".to_string(), 1, SourceKind::Tty),
        Err(ShellError::MissingColon)
    );
}

#[test]
fn colon_is_stripped_before_header_tokenizing() {
    let line = tty_line("if test -f {file}:", 1);
    assert!(line.is_if());
    assert_eq!(line.get_conditional().unwrap(), "test -f {file}".to_string());
}

#[test]
fn header_without_conditional_is_an_error() {
    let line = tty_line("if:", 1);
    assert_eq!(line.get_conditional(), Err(ShellError::NoConditional));
}

#[test]
fn normal_line_keeps_trailing_colon() {
    let line = tty_line("echo here:", 1);
    assert_eq!(line.line_type, LineType::Normal);
}

#[test]
fn line_argv_flattens_selected_fields() {
    let mut line = tty_line("echo 'a b' c", 1);
    let shell = Shell::new();
    line.expand(&shell);
    line.separate();
    line.select().unwrap();
    assert_eq!(
        line.argv(),
        vec!["echo".to_string(), "a b".to_string(), "c".to_string()]
    );
}

#[test]
fn pipeline_splits_on_pipe_operator() {
    let mut shell = Shell::new();
    let mut line = tty_line("echo one | cat", 1);
    line.expand(&shell);
    line.separate();
    line.select().unwrap();
    let p = Pipeline::new(&line, &mut shell).unwrap();
    assert_eq!(p.elements.len(), 2);
    assert_eq!(p.elements[0].argv, vec!["echo".to_string(), "one".to_string()]);
    assert_eq!(p.elements[1].argv, vec!["cat".to_string()]);
    assert!(p.elements[0].is_external_command());
}

#[test]
fn pipe_with_no_command_is_an_error() {
    let mut shell = Shell::new();
    let mut line = tty_line("| cat", 1);
    line.expand(&shell);
    line.separate();
    line.select().unwrap();
    assert!(matches!(
        Pipeline::new(&line, &mut shell),
        Err(ShellError::EmptyPipeElement)
    ));
}

#[test]
fn builtins_resolve_before_external_commands() {
    let mut shell = Shell::new();
    let mut line = tty_line("cd /tmp", 1);
    line.expand(&shell);
    line.separate();
    line.select().unwrap();
    let p = Pipeline::new(&line, &mut shell).unwrap();
    assert!(!p.elements[0].is_external_command());
    match p.elements[0].execute(&mut shell).unwrap() {
        ElementAction::ChangeDir(Some(path)) => assert_eq!(path, "/tmp".to_string()),
        _ => panic!("cd must come back as a directory change"),
    }
}

#[test]
fn user_functions_shadow_builtins() {
    let mut shell = Shell::new();
    shell.insert_user_function(UserFunction::new(
        "cd".to_string(),
        vec!["echo shadowed".to_string()],
    ));
    let mut line = tty_line("cd", 1);
    line.expand(&shell);
    line.separate();
    line.select().unwrap();
    let p = Pipeline::new(&line, &mut shell).unwrap();
    match p.elements[0].execute(&mut shell).unwrap() {
        ElementAction::Completed => {},
        _ => panic!("a function invocation completes by pushing a source"),
    }
    // The function body is now the next input.
    let next = shell.get_line().unwrap().unwrap();
    assert_eq!(next.raw_text(), "echo shadowed");
}

#[test]
fn cd_with_no_argument_means_home() {
    let mut shell = Shell::new();
    let r = run_builtin(
        &mut shell,
        Builtin::Chdir,
        vec!["cd".to_string()],
    );
    assert_eq!(r, Ok(BuiltinAction::ChangeDir(None)));
}

#[test]
fn cd_with_too_many_arguments_is_an_error() {
    let mut shell = Shell::new();
    let r = run_builtin(
        &mut shell,
        Builtin::Chdir,
        vec!["cd".to_string(), "a".to_string(), "b".to_string()],
    );
    assert_eq!(r, Err(ShellError::TooManyArguments));
}

#[test]
fn exit_builtin_exits_zero() {
    let mut shell = Shell::new();
    let r = run_builtin(&mut shell, Builtin::Exit, vec!["exit".to_string()]);
    assert_eq!(r, Ok(BuiltinAction::ExitShell(0)));
    assert_eq!(shell.rv(), 0);
}

#[test]
fn load_module_accepts_core() {
    let mut shell = Shell::new();
    let r = lm_builtin(
        &mut shell,
        vec!["self::load_module".to_string(), "core".to_string()],
    );
    assert!(r.is_ok());
    assert_eq!(shell.rv(), 0);
}

#[test]
fn load_module_rejects_unknown_modules() {
    let mut shell = Shell::new();
    let r = lm_builtin(
        &mut shell,
        vec!["self::load_module".to_string(), "sound".to_string()],
    );
    assert_eq!(r, Err(ShellError::UnknownModule));
    assert_eq!(shell.rv(), 1);
}

#[test]
fn load_module_rejects_bad_invocations() {
    let mut shell = Shell::new();
    let r = lm_builtin(&mut shell, vec!["self::load_module".to_string()]);
    assert_eq!(r, Err(ShellError::MalformedModuleInvocation));
    assert_eq!(shell.rv(), 2);
}

#[test]
fn core_module_cannot_be_unloaded() {
    let mut shell = Shell::new();
    let r = ulm_builtin(
        &mut shell,
        vec!["self::unload_module".to_string(), "core".to_string()],
    );
    assert_eq!(r, Err(ShellError::CannotUnloadCore));
}

#[test]
fn script_sources_produce_their_lines_in_order() {
    let mut shell = Shell::new();
    let script = Script::new(
        "init.smsh".to_string(),
        vec!["let a = 1".to_string(), "let b = 2".to_string()],
    );
    assert_eq!(script.file_name(), "init.smsh".to_string());
    shell.push_source(script.build_source());
    let first = shell.get_line().unwrap().unwrap();
    assert_eq!(first.raw_text(), "let a = 1");
    assert_eq!(first.source(), &SourceKind::Script("init.smsh".to_string()));
    let second = shell.get_line().unwrap().unwrap();
    assert_eq!(second.raw_text(), "let b = 2");
    assert!(shell.get_line().unwrap().is_none());
}

#[test]
fn user_function_sources_replay_their_body() {
    let mut shell = Shell::new();
    let f = UserFunction::new("f".to_string(), vec!["let inner = yes".to_string()]);
    shell.push_source(f.build_source());
    let line = shell.get_line().unwrap().unwrap();
    assert_eq!(line.raw_text(), "let inner = yes");
    assert_eq!(line.source(), &SourceKind::UserFunction("f".to_string()));
    assert!(shell.get_line().unwrap().is_none());
}

#[test]
fn backtrace_renders_script_frames_and_empties_the_stack() {
    let mut shell = Shell::new();
    let script = Script::new("boom.smsh".to_string(), vec!["echo before".to_string()]);
    shell.push_source(script.build_source());
    let _ = shell.get_line().unwrap().unwrap();
    let frames = shell.backtrace();
    assert_eq!(frames.len(), 1);
    assert_eq!(frames[0], "\tScript `boom.smsh` line 1: echo before".to_string());
    assert!(matches!(shell.run().unwrap(), Work::Eof));
}

#[test]
fn line_render_names_the_origin() {
    let line = tty_line("echo hi", 3);
    assert_eq!(line.render(), "\tTTY line 3: echo hi".to_string());
}

#[test]
fn fresh_shell_state() {
    let shell = Shell::new();
    assert!(shell.state().is_interactive());
    assert_eq!(shell.rv(), 0);
    assert!(shell.get_builtin("cd").is_some());
    assert!(shell.get_builtin("exit").is_some());
    assert!(shell.get_builtin("nosuch").is_none());
}

#[test]
fn set_rv_records_return_values() {
    let mut shell = Shell::new();
    shell.set_rv(7);
    assert_eq!(shell.rv(), 7);
}

#[test]
fn any_token_selecting_a_lone_pipe_separates_stages() {
    // The pipe operator is recognized on the selected text alone:
    // even a quoted `|` splits the pipeline.
    let mut shell = Shell::new();
    let mut line = tty_line("echo '|' x", 1);
    line.expand(&shell);
    line.separate();
    line.select().unwrap();
    let p = Pipeline::new(&line, &mut shell).unwrap();
    assert_eq!(p.elements.len(), 2);
    assert_eq!(p.elements[0].argv, vec!["echo".to_string()]);
    assert_eq!(p.elements[1].argv, vec!["x".to_string()]);
}

#[test]
fn unparsable_function_line_surfaces_its_parse_error() {
    let mut shell = Shell::new();
    let f = UserFunction::new("bad".to_string(), vec!["if x".to_string()]);
    shell.push_source(f.build_source());
    assert!(matches!(shell.get_line(), Err(ShellError::MissingColon)));
}
