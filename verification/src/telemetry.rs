//! Opt-in recording of interactions for local fine-tuning.

use vstd::prelude::*;

verus! {

/// One recorded interaction.
#[derive(Debug, Clone, PartialEq)]
pub struct InteractionRecord {
    pub prompt: String,
    pub response: String,
    /// When it happened, in RFC 3339 form.
    pub timestamp: String,
}

/// A file system path (`std::path::PathBuf`), carried as is.
#[verifier::external_type_specification]
#[verifier::external_body]
pub struct ExPathBuf(std::path::PathBuf);

/// Records interactions to a local file when the user opted in.
pub struct DataCollector {
    pub enabled: bool,
    /// The file the records are appended to (one JSON object per line).
    pub filepath: std::path::PathBuf,
}

impl DataCollector {
    /// The record to append for an interaction, or none when collection
    /// is off.
    pub fn record_for(&self, prompt: &str, response: &str, timestamp: String) -> (r: Option<
        InteractionRecord,
    >)
        ensures
            !self.enabled ==> r is None,
            self.enabled ==> (r matches Some(rec) && rec.prompt@ == prompt@ && rec.response@
                == response@ && rec.timestamp == timestamp),
    {
        if !self.enabled {
            return None;
        }
        Some(
            InteractionRecord {
                prompt: prompt.to_owned(),
                response: response.to_owned(),
                timestamp,
            },
        )
    }
}

} // verus!
