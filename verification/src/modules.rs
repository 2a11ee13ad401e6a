//! Builtin commands and module bookkeeping.  Loading the core module
//! registers the builtins; the core module can never be unloaded.  A
//! builtin that must touch the operating system (changing directory,
//! exiting) hands an action back to the front end instead of doing it.

use vstd::prelude::*;

use crate::error::ShellError;
use crate::shell::{lemma_lookup_builtin_push, lookup_builtin, Shell};
use crate::strutil::str_eq;

verus! {

/// The builtins this shell knows.
#[derive(Clone, Copy, PartialEq, Eq, Debug)]
pub enum Builtin {
    /// `cd`: change the working directory.
    Chdir,
    /// `exit`: leave the shell.
    Exit,
    /// `self::load_module`: register a module's builtins.
    LoadModule,
    /// `self::unload_module`: unregister a module.
    UnloadModule,
}

/// The modules this shell knows.
#[derive(Clone, Copy, PartialEq, Eq, Debug)]
pub enum Module {
    Core,
}

/// What the front end must do to finish a builtin that reaches outside
/// the interpreter.
#[derive(Clone, PartialEq, Eq, Debug)]
pub enum BuiltinAction {
    /// Nothing: the builtin completed inside the library.
    Completed,
    /// Change directory to the named path, or to the home directory.
    ChangeDir(Option<String>),
    /// Exit the process with this status.
    ExitShell(i32),
}

/// The keyword `cd`.
pub open spec fn kw_cd() -> Seq<char> {
    seq!['c', 'd']
}

/// The keyword `exit`.
pub open spec fn kw_exit() -> Seq<char> {
    seq!['e', 'x', 'i', 't']
}

/// The name `self::load_module`.
pub open spec fn kw_load_module() -> Seq<char> {
    "self::load_module"@
}

/// The name `self::unload_module`.
pub open spec fn kw_unload_module() -> Seq<char> {
    "self::unload_module"@
}

/// The name `core`.
pub open spec fn kw_core() -> Seq<char> {
    seq!['c', 'o', 'r', 'e']
}

/// Registers a module's builtins in the shell's table.  The core module
/// brings `cd`, `exit` and the module builtins themselves.
pub fn load_module(smsh: &mut Shell, module: Module)
    ensures
        lookup_builtin(final(smsh).builtins@, kw_cd()) == Option::Some(Builtin::Chdir),
        lookup_builtin(final(smsh).builtins@, kw_exit()) == Option::Some(Builtin::Exit),
        lookup_builtin(final(smsh).builtins@, kw_load_module()) == Option::Some(
            Builtin::LoadModule,
        ),
        lookup_builtin(final(smsh).builtins@, kw_unload_module()) == Option::Some(
            Builtin::UnloadModule,
        ),
        forall|k: Seq<char>|
            k != kw_cd() && k != kw_exit() && k != kw_load_module() && k != kw_unload_module()
                ==> #[trigger] lookup_builtin(final(smsh).builtins@, k) == lookup_builtin(
                old(smsh).builtins@,
                k,
            ),
        final(smsh).state == old(smsh).state,
        final(smsh).sources == old(smsh).sources,
        final(smsh).user_variables == old(smsh).user_variables,
        final(smsh).env_variables == old(smsh).env_variables,
        final(smsh).user_functions == old(smsh).user_functions,
{
    match module {
        Module::Core => {
            proof {
                reveal_strlit("cd");
                reveal_strlit("exit");
                reveal_strlit("self::load_module");
                reveal_strlit("self::unload_module");
                assert("cd"@ =~= kw_cd());
                assert("exit"@ =~= kw_exit());
                assert(kw_load_module().len() == 17);
                assert(kw_unload_module().len() == 19);
            }
            let ghost t0 = smsh.builtins@;
            let mut name = String::new();
            name.append("cd");
            smsh.insert_builtin(name, Builtin::Chdir);
            proof {
                lemma_lookup_builtin_push(t0, smsh.builtins@.last());
            }
            let ghost t1 = smsh.builtins@;
            let mut name = String::new();
            name.append("exit");
            smsh.insert_builtin(name, Builtin::Exit);
            proof {
                lemma_lookup_builtin_push(t1, smsh.builtins@.last());
            }
            let ghost t2 = smsh.builtins@;
            let mut name = String::new();
            name.append("self::load_module");
            smsh.insert_builtin(name, Builtin::LoadModule);
            proof {
                lemma_lookup_builtin_push(t2, smsh.builtins@.last());
            }
            let ghost t3 = smsh.builtins@;
            let mut name = String::new();
            name.append("self::unload_module");
            smsh.insert_builtin(name, Builtin::UnloadModule);
            proof {
                lemma_lookup_builtin_push(t3, smsh.builtins@.last());
            }
        },
    }
}

/// Unregisters a module.  The core module refuses.
pub fn unload_module(smsh: &mut Shell, module: Module) -> (r: Result<(), ShellError>)
    ensures
        r == Result::<(), ShellError>::Err(ShellError::CannotUnloadCore),
        *final(smsh) == *old(smsh),
{
    match module {
        Module::Core => Result::Err(ShellError::CannotUnloadCore),
    }
}

/// The `self::load_module` builtin: `self::load_module MODULE`.
/// Loads a known module and sets `rv` to zero; an unknown module sets
/// `rv` to one, a malformed invocation to two.
pub fn lm_builtin(smsh: &mut Shell, argv: Vec<String>) -> (r: Result<(), ShellError>)
    ensures
        argv@.len() == 2 && argv@[1]@ == kw_core() ==> r is Ok && final(smsh).state.rv == 0,
        argv@.len() == 2 && argv@[1]@ != kw_core() ==> r == Result::<(), ShellError>::Err(
            ShellError::UnknownModule,
        ) && final(smsh).state.rv == 1,
        argv@.len() != 2 ==> r == Result::<(), ShellError>::Err(
            ShellError::MalformedModuleInvocation,
        ) && final(smsh).state.rv == 2,
{
    if argv.len() == 2 {
        proof {
            reveal_strlit("core");
            assert("core"@ =~= kw_core());
        }
        if str_eq(argv[1].as_str(), "core") {
            load_module(smsh, Module::Core);
            smsh.set_rv(0);
            Result::Ok(())
        } else {
            smsh.set_rv(1);
            Result::Err(ShellError::UnknownModule)
        }
    } else {
        smsh.set_rv(2);
        Result::Err(ShellError::MalformedModuleInvocation)
    }
}

/// The `self::unload_module` builtin: `self::unload_module MODULE`.
/// The core module cannot be unloaded; an unknown module sets `rv` to
/// two, a malformed invocation to one.
pub fn ulm_builtin(smsh: &mut Shell, argv: Vec<String>) -> (r: Result<(), ShellError>)
    ensures
        argv@.len() == 2 && argv@[1]@ == kw_core() ==> r == Result::<(), ShellError>::Err(
            ShellError::CannotUnloadCore,
        ),
        argv@.len() == 2 && argv@[1]@ != kw_core() ==> r == Result::<(), ShellError>::Err(
            ShellError::UnknownModule,
        ) && final(smsh).state.rv == 2,
        argv@.len() != 2 ==> r == Result::<(), ShellError>::Err(
            ShellError::MalformedModuleInvocation,
        ) && final(smsh).state.rv == 1,
{
    if argv.len() == 2 {
        proof {
            reveal_strlit("core");
            assert("core"@ =~= kw_core());
        }
        if str_eq(argv[1].as_str(), "core") {
            unload_module(smsh, Module::Core)
        } else {
            smsh.set_rv(2);
            Result::Err(ShellError::UnknownModule)
        }
    } else {
        smsh.set_rv(1);
        Result::Err(ShellError::MalformedModuleInvocation)
    }
}

/// Runs one builtin over its argument vector.  Module builtins finish
/// inside the library; `cd` and `exit` come back as actions for the
/// front end, with `rv` set as the builtin prescribes.
pub fn run_builtin(smsh: &mut Shell, b: Builtin, argv: Vec<String>) -> (r: Result<
    BuiltinAction,
    ShellError,
>)
    ensures
        b is Chdir ==> match r {
            Ok(a) => (argv@.len() <= 1 && a == BuiltinAction::ChangeDir(Option::<String>::None))
                || (argv@.len() == 2 && (match a {
                    BuiltinAction::ChangeDir(p) => match p {
                        Option::Some(q) => q@ == argv@[1]@,
                        Option::None => false,
                    },
                    _ => false,
                })),
            Err(e) => e == ShellError::TooManyArguments && argv@.len() > 2 && final(smsh).state.rv == 0,
        },
        b is Exit ==> r == Result::<BuiltinAction, ShellError>::Ok(
            BuiltinAction::ExitShell(0),
        ) && final(smsh).state.rv == 0,
        b is LoadModule ==> match r {
            Ok(a) => a == BuiltinAction::Completed && argv@.len() == 2 && argv@[1]@ == kw_core()
                && final(smsh).state.rv == 0,
            Err(e) => (argv@.len() == 2 && argv@[1]@ != kw_core() && e == ShellError::UnknownModule
                && final(smsh).state.rv == 1) || (argv@.len() != 2 && e
                == ShellError::MalformedModuleInvocation && final(smsh).state.rv == 2),
        },
        b is UnloadModule ==> match r {
            Ok(_) => false,
            Err(e) => (argv@.len() == 2 && argv@[1]@ == kw_core() && e
                == ShellError::CannotUnloadCore) || (argv@.len() == 2 && argv@[1]@ != kw_core()
                && e == ShellError::UnknownModule && final(smsh).state.rv == 2) || (argv@.len()
                != 2 && e == ShellError::MalformedModuleInvocation && final(smsh).state.rv == 1),
        },
{
    match b {
        Builtin::Chdir => {
            if argv.len() <= 1 {
                Result::Ok(BuiltinAction::ChangeDir(Option::None))
            } else if argv.len() == 2 {
                Result::Ok(BuiltinAction::ChangeDir(Option::Some(argv[1].clone())))
            } else {
                smsh.set_rv(0);
                Result::Err(ShellError::TooManyArguments)
            }
        },
        Builtin::Exit => {
            smsh.set_rv(0);
            Result::Ok(BuiltinAction::ExitShell(0))
        },
        Builtin::LoadModule => {
            match lm_builtin(smsh, argv) {
                Result::Ok(()) => Result::Ok(BuiltinAction::Completed),
                Result::Err(e) => Result::Err(e),
            }
        },
        Builtin::UnloadModule => {
            match ulm_builtin(smsh, argv) {
                Result::Ok(()) => Result::Ok(BuiltinAction::Completed),
                Result::Err(e) => Result::Err(e),
            }
        },
    }
}

} // verus!
