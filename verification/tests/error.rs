use std::time::Duration;

use text_researcher::error::{CoreError, UdpipelineError};

#[test]
fn udpipeline_error_messages() {
    assert_eq!(UdpipelineError::ModelNotFound("ru".to_string()).message(), "model not found: ru");
    assert_eq!(
        UdpipelineError::SubprocessFailed("exit 1".to_string()).message(),
        "subprocess failed: exit 1"
    );
    assert_eq!(
        UdpipelineError::ParseError("bad line".to_string()).message(),
        "failed to parse CoNLL-U output: bad line"
    );
    assert_eq!(UdpipelineError::Timeout(Duration::from_secs(60)).message(), "timeout after 60s");
    assert_eq!(
        UdpipelineError::Timeout(Duration::from_millis(1500)).message(),
        "timeout after 1.5s"
    );
    let io = std::io::Error::new(std::io::ErrorKind::Other, "pipe closed");
    assert_eq!(UdpipelineError::Io(io).message(), "I/O error: pipe closed");
}

#[test]
fn core_error_messages() {
    assert_eq!(
        CoreError::ModelNotFound("en".to_string()).message(),
        "model not found for language: en"
    );
    assert_eq!(CoreError::AnalysisFailed("x".to_string()).message(), "analysis failed: x");
    assert_eq!(CoreError::ConfigError("y".to_string()).message(), "config error: y");
    assert_eq!(CoreError::DictionaryError("z".to_string()).message(), "dictionary error: z");
    let wrapped: CoreError = UdpipelineError::ParseError("p".to_string()).into();
    assert_eq!(wrapped.message(), "UDPipe error: failed to parse CoNLL-U output: p");
    let timeout = CoreError::from(UdpipelineError::Timeout(Duration::from_secs(2)));
    assert_eq!(timeout.message(), "UDPipe error: timeout after 2s");
}
