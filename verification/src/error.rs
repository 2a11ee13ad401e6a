//! Errors reported by the interpreter's core.
//!
//! Parse errors are fatal to the current line only; the run loop reports
//! them and reads the next line.  Unset variables are not errors: they
//! expand to the empty string.

use vstd::prelude::*;

verus! {

/// Everything that can go wrong inside the interpreter's core.
#[derive(Clone, Copy, PartialEq, Eq, Debug)]
pub enum ShellError {
    /// A line ended inside a single-quoted region.
    UnmatchedSingleQuote,
    /// A line ended inside a double-quoted region.
    UnmatchedDoubleQuote,
    /// A line ended inside a brace expansion.
    UnmatchedBrace,
    /// A line ended with an unresolved escape character.
    TrailingEscape,
    /// A token's quote characters do not match.
    UnmatchedQuote,
    /// A `[...]` selector holds anything but digits and `..`, or a
    /// bound too large for this machine.
    InvalidSelection,
    /// A block-opening construct header does not end with `:`.
    MissingColon,
    /// An `if`, `elif` or `while` header has no conditional.
    NoConditional,
    /// An `elif` line reached the interpreter before any `if`.
    ElifWithoutIf,
    /// An `else` line reached the interpreter before any `if`.
    ElseWithoutIf,
    /// A `fn` header does not hold exactly one name.
    MalformedFunctionDefinition,
    /// A `for` header is not of the form `for KEY in VALUE...`.
    MalformedForLoop,
    /// A `let` line is not of the form `let KEY = WORD...`.
    MalformedLet,
    /// Two pipe operators with no command between them.
    EmptyPipeElement,
    /// `cd` was given more than one argument.
    TooManyArguments,
    /// A module builtin named a module this shell does not know.
    UnknownModule,
    /// The core module cannot be unloaded.
    CannotUnloadCore,
    /// A module builtin was invoked with the wrong number of arguments.
    MalformedModuleInvocation,
}

impl ShellError {
    /// True for the errors of the parse family: malformed quoting, brace
    /// nesting, selectors and construct headers.
    pub fn is_parse_error(&self) -> (r: bool)
        ensures
            r == (self is UnmatchedSingleQuote || self is UnmatchedDoubleQuote
                || self is UnmatchedBrace || self is TrailingEscape
                || self is UnmatchedQuote || self is InvalidSelection
                || self is MissingColon),
    {
        match self {
            ShellError::UnmatchedSingleQuote => true,
            ShellError::UnmatchedDoubleQuote => true,
            ShellError::UnmatchedBrace => true,
            ShellError::TrailingEscape => true,
            ShellError::UnmatchedQuote => true,
            ShellError::InvalidSelection => true,
            ShellError::MissingColon => true,
            _ => false,
        }
    }

    /// A short description, for the front end's diagnostic stream.
    pub fn message(&self) -> &'static str {
        match self {
            ShellError::UnmatchedSingleQuote => "Unmatched single quote",
            ShellError::UnmatchedDoubleQuote => "Unmatched double quote",
            ShellError::UnmatchedBrace => "Unmatched expansion brace",
            ShellError::TrailingEscape => "Line terminates in escape character",
            ShellError::UnmatchedQuote => "Unmatched quote",
            ShellError::InvalidSelection => "Invalid selection",
            ShellError::MissingColon => "Construct header must end with a colon",
            ShellError::NoConditional => "No conditional present",
            ShellError::ElifWithoutIf => "if: `elif` must follow `if`",
            ShellError::ElseWithoutIf => "if: `else` must follow `if`",
            ShellError::MalformedFunctionDefinition => "fn: Improper invocation of `fn`",
            ShellError::MalformedForLoop => "Improperly formed for loop",
            ShellError::MalformedLet => "Improper invocation of `let`",
            ShellError::EmptyPipeElement => "Cannot create empty pipeline element",
            ShellError::TooManyArguments => "cd: Too many arguments",
            ShellError::UnknownModule => "Unrecognized module",
            ShellError::CannotUnloadCore => "Unable to unload smsh core module!",
            ShellError::MalformedModuleInvocation => "Improper invocation of module builtin",
        }
    }
}

} // verus!
