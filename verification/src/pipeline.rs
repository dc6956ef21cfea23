//! The settings of one UDPipe pipeline: the model it runs and its timeout.
//! The subprocess that runs the model is the caller's.

use vstd::prelude::*;

verus! {

/// The `Duration` of `secs` whole seconds.
pub uninterp spec fn duration_of_secs(secs: u64) -> std::time::Duration;

/// `std::time::Duration::from_secs`: the duration of `secs` seconds.
#[verifier::external_body]
fn duration_from_secs(secs: u64) -> (d: std::time::Duration)
    ensures
        d == duration_of_secs(secs),
{
    std::time::Duration::from_secs(secs)
}

/// The timeout of a pipeline that was given none, in seconds.
pub const DEFAULT_TIMEOUT_SECS: u64 = 60;

/// A UDPipe pipeline for one model file.
pub struct Udpipeline {
    model_path: String,
    timeout: std::time::Duration,
}

impl Udpipeline {
    /// The model file this pipeline runs.
    pub closed spec fn spec_model_path(&self) -> Seq<char> {
        self.model_path@
    }

    /// The timeout of this pipeline's operations.
    pub closed spec fn spec_timeout(&self) -> std::time::Duration {
        self.timeout
    }

    /// A pipeline for the model at `model_path`, with a timeout of
    /// [`DEFAULT_TIMEOUT_SECS`] seconds.
    pub fn new(model_path: String) -> (p: Udpipeline)
        ensures
            p.spec_model_path() == model_path@,
            p.spec_timeout() == duration_of_secs(DEFAULT_TIMEOUT_SECS),
    {
        Udpipeline { model_path, timeout: duration_from_secs(DEFAULT_TIMEOUT_SECS) }
    }

    /// The same pipeline with the timeout `timeout`.
    pub fn with_timeout(self, timeout: std::time::Duration) -> (p: Udpipeline)
        ensures
            p.spec_model_path() == self.spec_model_path(),
            p.spec_timeout() == timeout,
    {
        Udpipeline { model_path: self.model_path, timeout }
    }

    /// The model file this pipeline runs.
    pub fn model_path(&self) -> (s: &str)
        ensures
            s@ == self.spec_model_path(),
    {
        self.model_path.as_str()
    }

    /// The timeout of this pipeline's operations.
    pub fn timeout(&self) -> (d: std::time::Duration)
        ensures
            d == self.spec_timeout(),
    {
        self.timeout
    }
}

} // verus!
