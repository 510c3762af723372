//! The fault taxonomy. Every failing operation maps to exactly one of these
//! externally observable outcomes.

use vstd::prelude::*;

verus! {

/// What went wrong with a request.
#[derive(Clone, Copy, PartialEq, Eq, Structural, Debug)]
pub enum Fault {
    /// Malformed input (bad timestamp, empty required field, conflicting
    /// tracking id), rejected before any index work.
    Validation,
    /// A chunk id or tracking id that names nothing.
    NotFound,
    /// A vector point with no backing metadata row; the orphan point is
    /// deleted and the caller is expected to retry.
    Consistency,
    /// The embedding or model provider failed; not retried internally.
    Upstream,
    /// The ingest would exceed the dataset's allowed chunk count; rejected
    /// before the embedding is computed.
    Quota,
    /// The caller does not own the chunk it asked to change.
    Forbidden,
}

impl Fault {
    /// Whether a retry of the same request may succeed.
    pub fn retryable(&self) -> (r: bool)
        ensures
            r == (*self is Consistency),
    {
        match self {
            Fault::Consistency => true,
            _ => false,
        }
    }

    /// The text a fault surfaces to the caller.
    pub open spec fn spec_message(self) -> Seq<char> {
        match self {
            Fault::Validation => "Invalid request"@,
            Fault::NotFound => "Not found"@,
            Fault::Consistency => "There was a data inconsistency issue. Please try again."@,
            Fault::Upstream => "Model provider failure"@,
            Fault::Quota => "Must upgrade your plan to add more chunks"@,
            Fault::Forbidden => "Forbidden"@,
        }
    }

    /// A short description for the caller: exactly [`Self::spec_message`].
    /// One text per variant; causes within a variant (a bad timestamp
    /// against a conflicting tracking id) share its text.
    pub fn message(&self) -> (m: &'static str)
        ensures
            m@ == self.spec_message(),
    {
        match self {
            Fault::Validation => "Invalid request",
            Fault::NotFound => "Not found",
            Fault::Consistency => "There was a data inconsistency issue. Please try again.",
            Fault::Upstream => "Model provider failure",
            Fault::Quota => "Must upgrade your plan to add more chunks",
            Fault::Forbidden => "Forbidden",
        }
    }
}

} // verus!
