//! The per-job success vocabulary: what a completed job did.

use vstd::prelude::*;

verus! {

/// The outcome of one completed rename job.
#[derive(Debug, PartialEq, Eq)]
pub enum Report {
    /// The file at `from` now stands at `to`; `overwrote` says whether an
    /// existing file at `to` was replaced.
    Renamed { from: String, to: String, overwrote: bool },
    /// The job intentionally did nothing.
    Nothing,
}

impl Report {
    /// The human-readable description this report renders as.
    pub open spec fn spec_describe(&self) -> Seq<char> {
        match self {
            Report::Renamed { from, to, overwrote } => {
                let base = "Renamed "@ + from@ + " to "@ + to@;
                if *overwrote {
                    base + "(OVERWROTE)"@
                } else {
                    base
                }
            },
            Report::Nothing => Seq::empty(),
        }
    }

    /// Render the report as text.
    pub fn describe(&self) -> (r: String)
        ensures
            r@ == self.spec_describe(),
    {
        match self {
            Report::Renamed { from, to, overwrote } => {
                let mut out = String::from_str("Renamed ");
                out.append(from.as_str());
                out.append(" to ");
                out.append(to.as_str());
                if *overwrote {
                    out.append("(OVERWROTE)");
                }
                out
            },
            Report::Nothing => String::new(),
        }
    }
}

} // verus!
