//! Process-wide shell state: interactivity and the last return value.

use vstd::prelude::*;

verus! {

/// The shell's own state flags.
pub struct State {
    /// Whether this shell talks to a terminal.
    pub interactive: bool,
    /// The last recorded builtin or external return value.  Shell
    /// constructs do not affect it.
    pub rv: i32,
}

impl State {
    /// A fresh interactive state with return value zero.
    pub fn new() -> (r: State)
        ensures
            r.interactive == true,
            r.rv == 0,
    {
        State { interactive: true, rv: 0 }
    }

    /// Whether this shell talks to a terminal.
    pub fn is_interactive(&self) -> (r: bool)
        ensures
            r == self.interactive,
    {
        self.interactive
    }
}

} // verus!
