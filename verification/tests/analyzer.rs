use text_researcher::analyzer::{token_at, Analyzer};
use text_researcher::conllu::parse_conllu;
use text_researcher::error::{CoreError, UdpipelineError};
use text_researcher::model::ModelManager;

const TWO: &str = "1\ta\ta\tX\tX\t_\n2\tb\tb\tX\tX\t_\n\n1\tc\tc\tX\tX\t_\n";

#[test]
fn analyze_caches_and_reuses() {
    let mut a = Analyzer::new(ModelManager::new("./models".to_string()));
    assert!(!a.is_cached("text"));
    let first = a.analyze("text", Some(parse_conllu(TWO))).unwrap().len();
    assert_eq!(first, 2);
    assert!(a.is_cached("text"));
    // A second analysis reads the cache, whatever outcome it is handed.
    let again = a
        .analyze("text", Some(Err(UdpipelineError::SubprocessFailed("boom".to_string()))))
        .unwrap();
    assert_eq!(again.len(), 2);
    let cached = a.analyze("text", None).unwrap();
    assert_eq!(cached[1].tokens[0].word, "c");
    a.clear_cache();
    assert!(!a.is_cached("text"));
}

#[test]
fn analyze_reports_pipeline_failure() {
    let mut a = Analyzer::new(ModelManager::new("./models".to_string()));
    let err = a
        .analyze("t", Some(Err(UdpipelineError::SubprocessFailed("boom".to_string()))))
        .unwrap_err();
    match err {
        CoreError::AnalysisFailed(m) => {
            assert_eq!(m, "UDPipe analysis failed: subprocess failed: boom")
        }
        other => panic!("unexpected {:?}", other),
    }
    assert!(!a.is_cached("t"));
}

#[test]
fn analyze_at_counts_words_across_sentences() {
    let mut a = Analyzer::new(ModelManager::new("m".to_string()));
    let t = a.analyze_at("x", Some(parse_conllu(TWO)), 2).unwrap().unwrap();
    assert_eq!(t.word, "c");
    assert!(a.analyze_at("x", None, 3).unwrap().is_none());
    let sentences = parse_conllu(TWO).unwrap();
    assert_eq!(token_at(&sentences, 0).unwrap().word, "a");
    assert_eq!(token_at(&sentences, 1).unwrap().word, "b");
    assert!(token_at(&sentences, 7).is_none());
}

#[test]
fn pipeline_needs_the_model_file() {
    let mut a = Analyzer::new(ModelManager::new("/opt/models".to_string()));
    match a.pipeline("ru", false) {
        Err(CoreError::ModelNotFound(m)) => assert_eq!(
            m,
            "model file not found: /opt/models/ru.udpipe. Run 'text-researcher download-model ru' or place the model manually."
        ),
        _ => panic!("expected a missing model"),
    }
    let p = a.pipeline("ru", true).unwrap();
    assert_eq!(p.model_path(), "/opt/models/ru.udpipe");
    assert_eq!(p.timeout(), std::time::Duration::from_secs(60));
    // Once loaded, the file is not looked for again.
    assert_eq!(a.pipeline("ru", false).unwrap().model_path(), "/opt/models/ru.udpipe");
}
