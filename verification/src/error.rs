//! Errors of the analysis pipeline and of the core.

use vstd::prelude::*;

verus! {

#[verifier::external_type_specification]
#[verifier::external_body]
pub struct ExIoError(std::io::Error);

/// Errors of the UDPipe pipeline and of its CoNLL-U output.
#[derive(Debug)]
pub enum UdpipelineError {
    ModelNotFound(String),
    SubprocessFailed(String),
    ParseError(String),
    Io(std::io::Error),
    Timeout(std::time::Duration),
}

/// Errors of the core.
#[derive(Debug)]
pub enum CoreError {
    ModelNotFound(String),
    AnalysisFailed(String),
    ConfigError(String),
    DictionaryError(String),
    Udpipeline(UdpipelineError),
}

/// `std::io::Error`'s `Display` text. What it says depends on the
/// operating system's error strings; nothing is stated of it.
#[verifier::external_body]
fn io_error_text(e: &std::io::Error) -> String {
    format!("{}", e)
}

/// What `std::time::Duration`'s `Debug` formatting writes for `d`
/// (`60s`, `1.5ms`, ...).
pub uninterp spec fn duration_debug_text(d: std::time::Duration) -> Seq<char>;

/// `std::time::Duration`'s `Debug` text, a function of the duration alone.
#[verifier::external_body]
fn duration_text(d: &std::time::Duration) -> (t: String)
    ensures
        t@ == duration_debug_text(*d),
{
    format!("{:?}", d)
}

/// `prefix` followed by `rest`.
pub fn concat_str(prefix: &str, rest: &str) -> (s: String)
    ensures
        s@ == prefix@ + rest@,
{
    let mut s = String::from_str(prefix);
    s.append(rest);
    s
}

/// Whether `s` is the text of `e`: its kind, then its detail. The text of
/// an I/O error is the operating system's and is left open.
pub open spec fn is_message_of(e: UdpipelineError, s: Seq<char>) -> bool {
    match e {
        UdpipelineError::ModelNotFound(m) => s == "model not found: "@ + m@,
        UdpipelineError::SubprocessFailed(m) => s == "subprocess failed: "@ + m@,
        UdpipelineError::ParseError(m) => s == "failed to parse CoNLL-U output: "@ + m@,
        UdpipelineError::Io(_) => exists|t: Seq<char>| s == "I/O error: "@ + t,
        UdpipelineError::Timeout(d) => s == "timeout after "@ + duration_debug_text(d),
    }
}

impl UdpipelineError {
    /// The human-readable text of the error.
    pub fn message(&self) -> (s: String)
        ensures
            is_message_of(*self, s@),
    {
        match self {
            UdpipelineError::ModelNotFound(m) => concat_str("model not found: ", m.as_str()),
            UdpipelineError::SubprocessFailed(m) => concat_str("subprocess failed: ", m.as_str()),
            UdpipelineError::ParseError(m) => concat_str(
                "failed to parse CoNLL-U output: ",
                m.as_str(),
            ),
            UdpipelineError::Io(e) => {
                let t = io_error_text(e);
                concat_str("I/O error: ", t.as_str())
            },
            UdpipelineError::Timeout(d) => {
                let t = duration_text(d);
                concat_str("timeout after ", t.as_str())
            },
        }
    }
}

impl CoreError {
    /// The human-readable text of the error.
    pub fn message(&self) -> (s: String)
        ensures
            match self {
                CoreError::ModelNotFound(m) => s@ == "model not found for language: "@ + m@,
                CoreError::AnalysisFailed(m) => s@ == "analysis failed: "@ + m@,
                CoreError::ConfigError(m) => s@ == "config error: "@ + m@,
                CoreError::DictionaryError(m) => s@ == "dictionary error: "@ + m@,
                CoreError::Udpipeline(e) => exists|t: Seq<char>|
                    s@ == "UDPipe error: "@ + t && is_message_of(*e, t),
            },
    {
        match self {
            CoreError::ModelNotFound(m) => concat_str("model not found for language: ", m.as_str()),
            CoreError::AnalysisFailed(m) => concat_str("analysis failed: ", m.as_str()),
            CoreError::ConfigError(m) => concat_str("config error: ", m.as_str()),
            CoreError::DictionaryError(m) => concat_str("dictionary error: ", m.as_str()),
            CoreError::Udpipeline(e) => {
                let t = e.message();
                let s = concat_str("UDPipe error: ", t.as_str());
                proof {
                    assert(s@ == "UDPipe error: "@ + t@ && is_message_of(*e, t@));
                }
                s
            },
        }
    }
}

impl From<UdpipelineError> for CoreError {
    fn from(e: UdpipelineError) -> (r: CoreError) {
        CoreError::Udpipeline(e)
    }
}

impl vstd::std_specs::convert::FromSpecImpl<UdpipelineError> for CoreError {
    open spec fn obeys_from_spec() -> bool {
        true
    }

    open spec fn from_spec(e: UdpipelineError) -> CoreError {
        CoreError::Udpipeline(e)
    }
}

} // verus!
