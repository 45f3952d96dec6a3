//! Error taxonomy of the evaluation fabric.

use vstd::prelude::*;

verus! {

/// Why a capability request could not be served.
#[derive(Debug, Clone, PartialEq, Eq)]
pub enum CapabilityError {
    /// The capability needs a Kubernetes client and none was configured.
    NotConfigured,
    /// A signature verification ran but the constraints were not met.
    NotSatisfied(String),
    /// The outbound operation itself failed (network, registry, resolver).
    Outbound(String),
    /// The reply payload could not be serialised.
    SerializationFailed,
}

/// Why the pool (or one of its policies) could not be bootstrapped.
#[derive(Debug, Clone, PartialEq, Eq)]
pub enum BootstrapError {
    /// The process configuration is unusable; fatal, surfaced at bootstrap only.
    ConfigInvalid(String),
    /// A policy module could not be retrieved.
    FetchFailed(String),
    /// The sandbox refused the module or its settings.
    EvaluatorInitFailed(String),
}

impl CapabilityError {
    /// A human-readable description, for the front door's logs.
    pub fn message(&self) -> (r: String)
        ensures
            r@ == self.spec_message(),
    {
        match self {
            CapabilityError::NotConfigured => "Kubernetes client not configured".to_owned(),
            CapabilityError::NotSatisfied(m) => m.clone(),
            CapabilityError::Outbound(m) => m.clone(),
            CapabilityError::SerializationFailed => "error serializing payload".to_owned(),
        }
    }

    /// What `message` returns.
    pub open spec fn spec_message(&self) -> Seq<char> {
        match self {
            CapabilityError::NotConfigured => "Kubernetes client not configured"@,
            CapabilityError::NotSatisfied(m) => m@,
            CapabilityError::Outbound(m) => m@,
            CapabilityError::SerializationFailed => "error serializing payload"@,
        }
    }
}

} // verus!
