//! Model-side logic that does not touch floating point: the key/value
//! cache's bookkeeping, the decoding of weight files, and the layout of a
//! transformer's weights.

pub mod generation;
pub mod kv_cache;
pub mod layout;
pub mod loader;
