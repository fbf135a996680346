//! The leveled console logger's decision logic: which messages a run emits.
//! The caller owns the console; these functions return the text to write,
//! or `None` when the message is suppressed.

use vstd::prelude::*;

verus! {

/// A leveled logger: verbose-only messages are emitted only when the
/// logger itself is verbose.
pub struct Logger {
    pub verbose: bool,
}

impl Logger {
    /// The text `message` would put on the console: `None` when a
    /// verbose-only message meets a quiet logger, the message unchanged
    /// otherwise.
    pub fn print(&self, verbose: bool, message: &str) -> (r: Option<String>)
        ensures
            verbose && !self.verbose ==> r is None,
            !(verbose && !self.verbose) ==> (r matches Some(m) && m@ == message@),
    {
        if verbose && !self.verbose {
            None
        } else {
            Some(message.to_owned())
        }
    }

    /// Like `print`, with a line break appended to the emitted text.
    pub fn println(&self, verbose: bool, message: &str) -> (r: Option<String>)
        ensures
            verbose && !self.verbose ==> r is None,
            !(verbose && !self.verbose) ==> (r matches Some(m) && m@ == message@ + "\n"@),
    {
        let mut line = message.to_owned();
        line.append("\n");
        self.print(verbose, line.as_str())
    }
}

} // verus!
