//! The outcome of evaluating an admission request.

use vstd::prelude::*;

verus! {

/// A validation verdict — allow, allow with a mutation patch, or reject
/// with a reason. Mutation payloads and reject messages are never dropped.
#[derive(Debug, Clone, PartialEq, Eq)]
pub enum Verdict {
    /// The admission request is accepted as it stands.
    Allow,
    /// Accepted, provided the attached patch is applied first.
    /// The patch is an opaque structured document, carried as bytes.
    AllowWithMutation(Vec<u8>),
    /// Refused, with the reason to surface to the caller.
    Reject(String),
}

/// The mathematical value of a [`Verdict`].
pub ghost enum VerdictView {
    Allow,
    AllowWithMutation(Seq<u8>),
    Reject(Seq<char>),
}

impl View for Verdict {
    type V = VerdictView;

    open spec fn view(&self) -> VerdictView {
        match self {
            Verdict::Allow => VerdictView::Allow,
            Verdict::AllowWithMutation(patch) => VerdictView::AllowWithMutation(patch@),
            Verdict::Reject(reason) => VerdictView::Reject(reason@),
        }
    }
}

impl Verdict {
    /// True of the two verdicts that admit the request.
    pub open spec fn is_allowed(&self) -> bool {
        match self {
            Verdict::Allow => true,
            Verdict::AllowWithMutation(_) => true,
            Verdict::Reject(_) => false,
        }
    }

    /// Whether this verdict admits the request.
    pub fn allowed(&self) -> (r: bool)
        ensures
            r == self.is_allowed(),
    {
        match self {
            Verdict::Allow => true,
            Verdict::AllowWithMutation(_) => true,
            Verdict::Reject(_) => false,
        }
    }
}

} // verus!
