//! The command line of the `mentat` program.

use vstd::prelude::*;

verus! {

/// The program's options.
#[derive(Debug, Clone, PartialEq)]
pub struct Config {
    /// What to do.
    pub command: Commands,
    /// Enable debug logging.
    pub debug: bool,
    /// Keep a local record of interactions (off unless asked for).
    pub opt_in_data_collection: bool,
}

/// The program's subcommands.
#[derive(Debug, Clone, PartialEq)]
pub enum Commands {
    /// Run a model directly.
    Run {
        /// Path to the model weights file (a `.safetensors` file, or `mock`).
        model: String,
        /// The initial prompt for the model.
        prompt: Option<String>,
    },
    /// Start an API server.
    Serve {
        /// Port for the API server.
        port: u16,
    },
    /// Show how the tokenizer encodes and decodes a text.
    Tokenize { text: String },
    /// Show how the response parser splits a text, and run its tool calls.
    Parse { text: String },
    /// List the tensors of a model file.
    Inspect { model: String },
}

} // verus!
