//! Tools the model can call: reading and writing files, fetching web pages.

use vstd::prelude::*;

pub mod browser;
pub mod fs;

verus! {

/// A tool the model can invoke by name with a text argument.
pub trait Tool {
    /// The tool's name, as it appears in tool-call tags (such as `python`).
    fn name(&self) -> &str;

    /// Runs the tool; returns its output or an error message.
    fn execute(&self, arguments: &str) -> Result<String, String>;
}

} // verus!
