//! The error type of the orchestrator.

use vstd::prelude::*;

verus! {

#[verifier::external_type_specification]
#[verifier::external_body]
pub struct ExIoError(std::io::Error);

/// Every failure that the orchestrator reports.
#[derive(Debug)]
pub enum DmrletError {
    /// Configuration error
    Config(String),
    /// Runtime error
    Runtime(String),
    /// Scheduler error
    Scheduler(String),
    /// Network error
    Network(String),
    /// Storage error
    Storage(String),
    /// API error
    Api(String),
    /// GPU error
    Gpu(String),
    /// Deployment not found
    DeploymentNotFound(String),
    /// Worker not found
    WorkerNotFound(String),
    /// Model not found
    ModelNotFound(String),
    /// Resource exhausted
    ResourceExhausted(String),
    /// IO error
    Io(std::io::Error),
    /// Serialization error
    Serialization(String),
    /// Internal error
    Internal(String),
}

/// Result type for orchestrator operations.
pub type DmrletResult<T> = Result<T, DmrletError>;

/// The text that introduces each kind of error in its message.
pub open spec fn error_prefix(e: DmrletError) -> Seq<char> {
    match e {
        DmrletError::Config(_) => "Configuration error: "@,
        DmrletError::Runtime(_) => "Runtime error: "@,
        DmrletError::Scheduler(_) => "Scheduler error: "@,
        DmrletError::Network(_) => "Network error: "@,
        DmrletError::Storage(_) => "Storage error: "@,
        DmrletError::Api(_) => "API error: "@,
        DmrletError::Gpu(_) => "GPU error: "@,
        DmrletError::DeploymentNotFound(_) => "Deployment not found: "@,
        DmrletError::WorkerNotFound(_) => "Worker not found: "@,
        DmrletError::ModelNotFound(_) => "Model not found: "@,
        DmrletError::ResourceExhausted(_) => "Resource exhausted: "@,
        DmrletError::Io(_) => "IO error: "@,
        DmrletError::Serialization(_) => "Serialization error: "@,
        DmrletError::Internal(_) => "Internal error: "@,
    }
}

/// The detail text that an error carries, where it carries text.
pub open spec fn error_detail(e: DmrletError) -> Option<Seq<char>> {
    match e {
        DmrletError::Config(s) => Some(s@),
        DmrletError::Runtime(s) => Some(s@),
        DmrletError::Scheduler(s) => Some(s@),
        DmrletError::Network(s) => Some(s@),
        DmrletError::Storage(s) => Some(s@),
        DmrletError::Api(s) => Some(s@),
        DmrletError::Gpu(s) => Some(s@),
        DmrletError::DeploymentNotFound(s) => Some(s@),
        DmrletError::WorkerNotFound(s) => Some(s@),
        DmrletError::ModelNotFound(s) => Some(s@),
        DmrletError::ResourceExhausted(s) => Some(s@),
        DmrletError::Io(_) => None,
        DmrletError::Serialization(s) => Some(s@),
        DmrletError::Internal(s) => Some(s@),
    }
}

/// Relies on std's `Display` for `std::io::Error`: some text describing it.
#[verifier::external_body]
fn io_error_text(e: &std::io::Error) -> (r: String) {
    e.to_string()
}

impl DmrletError {
    /// The message of this error: its kind, then its detail.
    pub fn to_string(&self) -> (r: String)
        ensures
            error_detail(*self) matches Some(d) ==> r@ == error_prefix(*self) + d,
            r@.len() >= error_prefix(*self).len(),
            r@.subrange(0, error_prefix(*self).len() as int) == error_prefix(*self),
    {
        let (prefix, detail): (&str, String) = match self {
            DmrletError::Config(s) => ("Configuration error: ", s.clone()),
            DmrletError::Runtime(s) => ("Runtime error: ", s.clone()),
            DmrletError::Scheduler(s) => ("Scheduler error: ", s.clone()),
            DmrletError::Network(s) => ("Network error: ", s.clone()),
            DmrletError::Storage(s) => ("Storage error: ", s.clone()),
            DmrletError::Api(s) => ("API error: ", s.clone()),
            DmrletError::Gpu(s) => ("GPU error: ", s.clone()),
            DmrletError::DeploymentNotFound(s) => ("Deployment not found: ", s.clone()),
            DmrletError::WorkerNotFound(s) => ("Worker not found: ", s.clone()),
            DmrletError::ModelNotFound(s) => ("Model not found: ", s.clone()),
            DmrletError::ResourceExhausted(s) => ("Resource exhausted: ", s.clone()),
            DmrletError::Io(e) => ("IO error: ", io_error_text(e)),
            DmrletError::Serialization(s) => ("Serialization error: ", s.clone()),
            DmrletError::Internal(s) => ("Internal error: ", s.clone()),
        };
        let r = String::from_str(prefix).concat(detail.as_str());
        assert(r@.subrange(0, prefix@.len() as int) =~= prefix@);
        r
    }
}

impl From<std::io::Error> for DmrletError {
    fn from(e: std::io::Error) -> (r: DmrletError)
        ensures
            r == DmrletError::Io(e),
    {
        DmrletError::Io(e)
    }
}

impl vstd::std_specs::convert::FromSpecImpl<std::io::Error> for DmrletError {
    open spec fn obeys_from_spec() -> bool {
        true
    }

    open spec fn from_spec(v: std::io::Error) -> DmrletError {
        DmrletError::Io(v)
    }
}

} // verus!
