//! Mentat: the verified core of a local inference engine — the
//! byte-pair-encoding tokenizer, the parser for structured model output,
//! the chat front end's text handling, the tools' command handling, the
//! key/value cache's bookkeeping, the decoding of weight files, the plan
//! that assembles a transformer from named weights, and tensor shape
//! checks.

pub mod api;
pub mod chat;
pub mod config;
pub mod model;
pub mod telemetry;
pub mod tensor;
pub mod text;
pub mod tokenizer;
pub mod tools;
