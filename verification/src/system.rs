//! What a host may offer to the language.

use vstd::prelude::*;

verus! {

/// What a host may offer to the language: its files, its clock and its input line.
pub trait SystemOps {
    /// The contents of the file at `path`, or the host's words on why it cannot be read.
    fn read_file(&self, path: &str) -> Result<String, String>;

    /// The time in milliseconds since the start of 1970.
    fn time_ms(&self) -> Result<i64, String>;

    /// One line of input, asked for with `prompt`; nothing at the end of the input.
    fn readline(&self, prompt: &str) -> Option<String>;
}

} // verus!
