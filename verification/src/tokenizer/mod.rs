//! Text to token ids and back, and the parser for structured model output.

pub mod bpe;
pub mod demo;
pub mod parser;
pub mod vocab;
