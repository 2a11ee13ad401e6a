//! Driving the interpreter: constructs, blocks and the run loop.

use smsh::constructs::resolve_while;
use smsh::constructs::resolve_if;
use smsh::error::ShellError;
use smsh::line::Line;
use smsh::shell::{Shell, Work};
use smsh::sources::SourceKind;

fn tty_line(text: &str, num: usize) -> Line {
    Line::new(text.to_string(), num, SourceKind::Tty).unwrap()
}

fn push_script(shell: &mut Shell, lines: &[&str]) {
    let mut block = Vec::new();
    for (i, text) in lines.iter().enumerate() {
        block.push(tty_line(text, i + 1));
    }
    shell.push_block(block);
}

fn var(shell: &Shell, name: &str) -> String {
    shell.get_user_variable(name).unwrap_or_else(String::new)
}

#[test]
fn if_chain_runs_exactly_one_body() {
    let mut shell = Shell::new();
    push_script(
        &mut shell,
        &[
            "if a:",
            "    let x = one",
            "elif b:",
            "    let x = two",
            "elif c:",
            "    let x = three",
            "else:",
            "    let x = four",
        ],
    );
    let chain = match shell.run().unwrap() {
        Work::EvaluateIf(chain) => chain,
        _ => panic!("expected an if chain"),
    };
    assert_eq!(chain.conditionals.len(), 3);
    assert_eq!(chain.conditionals[0], "a".to_string());
    assert_eq!(chain.conditionals[1], "b".to_string());
    assert_eq!(chain.conditionals[2], "c".to_string());
    assert!(chain.else_body.is_some());

    // The front end evaluates lazily: the second conditional succeeds.
    resolve_if(&mut shell, chain, &vec![false, true]);

    let mut bodies_run = 0;
    loop {
        match shell.run().unwrap() {
            Work::Eof => break,
            Work::Completed => bodies_run += 1,
            _ => panic!("nothing else should run"),
        }
    }
    assert_eq!(bodies_run, 1);
    assert_eq!(var(&shell, "x"), "two".to_string());
}

#[test]
fn if_chain_falls_through_to_else() {
    let mut shell = Shell::new();
    push_script(
        &mut shell,
        &["if a:", "    let x = one", "else:", "    let x = other"],
    );
    let chain = match shell.run().unwrap() {
        Work::EvaluateIf(chain) => chain,
        _ => panic!("expected an if chain"),
    };
    resolve_if(&mut shell, chain, &vec![false]);
    loop {
        match shell.run().unwrap() {
            Work::Eof => break,
            Work::Completed => {},
            _ => panic!("nothing else should run"),
        }
    }
    assert_eq!(var(&shell, "x"), "other".to_string());
}

#[test]
fn if_chain_without_winner_runs_nothing() {
    let mut shell = Shell::new();
    push_script(&mut shell, &["if a:", "    let x = one"]);
    let chain = match shell.run().unwrap() {
        Work::EvaluateIf(chain) => chain,
        _ => panic!("expected an if chain"),
    };
    resolve_if(&mut shell, chain, &vec![false]);
    assert!(matches!(shell.run().unwrap(), Work::Eof));
    assert!(shell.get_user_variable("x").is_none());
}

#[test]
fn elif_without_if_is_an_error() {
    let mut shell = Shell::new();
    push_script(&mut shell, &["elif a:"]);
    assert!(matches!(shell.run(), Err(ShellError::ElifWithoutIf)));
    assert_eq!(shell.rv(), 1);
}

#[test]
fn else_without_if_is_an_error() {
    let mut shell = Shell::new();
    push_script(&mut shell, &["else:"]);
    assert!(matches!(shell.run(), Err(ShellError::ElseWithoutIf)));
}

#[test]
fn for_loop_runs_body_once_per_value_in_order() {
    let mut shell = Shell::new();
    push_script(&mut shell, &["for x in a b c:", "    let y = {y} {x}"]);
    loop {
        match shell.run().unwrap() {
            Work::Eof => break,
            Work::Completed => {},
            _ => panic!("a for loop needs no outside work"),
        }
    }
    // Bound in order, once per value; the loop source is exhausted.
    assert_eq!(var(&shell, "y"), "a b c".to_string());
    assert_eq!(var(&shell, "x"), "c".to_string());
}

#[test]
fn for_loop_with_no_values_never_runs_its_body() {
    let mut shell = Shell::new();
    push_script(&mut shell, &["for x in:", "    let y = ran"]);
    loop {
        match shell.run().unwrap() {
            Work::Eof => break,
            Work::Completed => {},
            _ => panic!("a for loop needs no outside work"),
        }
    }
    assert!(shell.get_user_variable("y").is_none());
}

#[test]
fn malformed_for_loop_is_an_error() {
    let mut shell = Shell::new();
    push_script(&mut shell, &["for x of a b:"]);
    assert!(matches!(shell.run(), Err(ShellError::MalformedForLoop)));
}

#[test]
fn while_body_runs_once_per_true_verdict() {
    let mut shell = Shell::new();
    push_script(&mut shell, &["while tick:", "    let n = {n} i"]);
    let verdicts = [true, true, true, false];
    let mut evaluations = 0;
    loop {
        match shell.run().unwrap() {
            Work::Eof => break,
            Work::Completed => {},
            Work::EvaluateWhile(clause) => {
                assert_eq!(clause.conditional, "tick".to_string());
                resolve_while(&mut shell, clause, verdicts[evaluations]);
                evaluations += 1;
            },
            _ => panic!("nothing else should run"),
        }
    }
    // The conditional was true exactly three times: three body runs.
    assert_eq!(evaluations, 4);
    assert_eq!(var(&shell, "n"), "i i i".to_string());
}

#[test]
fn let_binds_joined_words() {
    let mut shell = Shell::new();
    push_script(&mut shell, &["let greeting = hello wide world"]);
    assert!(matches!(shell.run().unwrap(), Work::Completed));
    assert_eq!(var(&shell, "greeting"), "hello wide world".to_string());
}

#[test]
fn let_overwrites_prior_value() {
    let mut shell = Shell::new();
    push_script(&mut shell, &["let v = first", "let v = second"]);
    assert!(matches!(shell.run().unwrap(), Work::Completed));
    assert!(matches!(shell.run().unwrap(), Work::Completed));
    assert_eq!(var(&shell, "v"), "second".to_string());
}

#[test]
fn malformed_let_is_an_error() {
    let mut shell = Shell::new();
    push_script(&mut shell, &["let x 5"]);
    assert!(matches!(shell.run(), Err(ShellError::MalformedLet)));
    assert_eq!(shell.rv(), 1);
}

#[test]
fn fn_stores_raw_body() {
    let mut shell = Shell::new();
    push_script(&mut shell, &["fn greet:", "    echo hello", "    echo world"]);
    assert!(matches!(shell.run().unwrap(), Work::Completed));
    let f = shell.get_user_function("greet").unwrap();
    assert_eq!(f.name(), "greet");
    assert_eq!(
        f.fn_body,
        vec!["    echo hello".to_string(), "    echo world".to_string()]
    );
}

#[test]
fn malformed_fn_is_an_error_and_discards_its_block() {
    let mut shell = Shell::new();
    push_script(&mut shell, &["fn a b:", "    echo hello", "let z = after"]);
    assert!(matches!(shell.run(), Err(ShellError::MalformedFunctionDefinition)));
    assert_eq!(shell.rv(), -1);
    // The block was consumed; the next line still runs.
    assert!(matches!(shell.run().unwrap(), Work::Completed));
    assert_eq!(var(&shell, "z"), "after".to_string());
}

#[test]
fn get_block_takes_exact_indentation_from_same_origin() {
    let mut shell = Shell::new();
    push_script(
        &mut shell,
        &["    let a = 1", "    let b = 2", "        let c = 3", "let d = 4"],
    );
    let block = shell.get_block(&SourceKind::Tty, 1).unwrap();
    assert_eq!(block.len(), 2);
    assert_eq!(block[0].raw_text(), "    let a = 1");
    assert_eq!(block[1].raw_text(), "    let b = 2");
    // The first non-matching line is unchanged and next in line.
    let next = shell.get_line().unwrap().unwrap();
    assert_eq!(next.raw_text(), "        let c = 3");
}

#[test]
fn subshell_expansion_protocol() {
    let mut shell = Shell::new();
    push_script(&mut shell, &["let out = !{produce something}"]);
    let (line, index, command) = match shell.run().unwrap() {
        Work::ExpandSubshell { line, index, command } => (line, index, command),
        _ => panic!("expected a substitution request"),
    };
    assert_eq!(command, "produce something".to_string());
    let w = shell
        .resume_subshell(line, index, "captured".to_string())
        .unwrap();
    assert!(matches!(w, Work::Completed));
    assert_eq!(var(&shell, "out"), "captured".to_string());
}

#[test]
fn empty_lines_do_nothing() {
    let mut shell = Shell::new();
    push_script(&mut shell, &["", "   "]);
    assert!(matches!(shell.run().unwrap(), Work::Completed));
    assert!(matches!(shell.run().unwrap(), Work::Completed));
    assert!(matches!(shell.run().unwrap(), Work::Eof));
}

#[test]
fn while_with_false_verdict_runs_nothing() {
    let mut shell = Shell::new();
    push_script(&mut shell, &["while tick:", "    let n = ran", "let after = yes"]);
    let clause = match shell.run().unwrap() {
        Work::EvaluateWhile(clause) => clause,
        _ => panic!("expected a while clause"),
    };
    // The conditional is false at once: the body never executes.
    resolve_while(&mut shell, clause, false);
    assert!(matches!(shell.run().unwrap(), Work::Completed));
    assert!(shell.get_user_variable("n").is_none());
    assert_eq!(var(&shell, "after"), "yes".to_string());
    assert!(matches!(shell.run().unwrap(), Work::Eof));
}
