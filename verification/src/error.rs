//! The per-job error vocabulary surfaced to callers.

use vstd::prelude::*;

verus! {

/// Why one rename job failed. One job's error never affects its siblings.
#[derive(Debug, PartialEq, Eq)]
pub enum ActionError {
    /// The source path ends in `..` and cannot be renamed.
    CannotRenameDotDot,
    /// Any other failure, described by a message.
    Other(String),
    /// A failure with no further description.
    Unknown,
}

impl ActionError {
    /// The human-readable message this error renders as.
    pub open spec fn spec_message(&self) -> Seq<char> {
        match self {
            ActionError::CannotRenameDotDot => "Cannot rename a path ending in \"..\""@,
            ActionError::Other(m) => m@,
            ActionError::Unknown => "Unknown"@,
        }
    }

    /// Render the error as text.
    pub fn message(&self) -> (r: String)
        ensures
            r@ == self.spec_message(),
    {
        match self {
            ActionError::CannotRenameDotDot => String::from_str(
                "Cannot rename a path ending in \"..\"",
            ),
            ActionError::Other(m) => m.clone(),
            ActionError::Unknown => String::from_str("Unknown"),
        }
    }
}

} // verus!
