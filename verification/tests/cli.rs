use text_researcher::cli::{Cli, Mode};

fn options() -> Cli {
    Cli {
        input: Some("text.txt".to_string()),
        language: None,
        output: None,
        interactive: false,
        download_model: None,
        verbose: false,
        jobs: None,
        prefetch: -1,
        format: "txt".to_string(),
        init: false,
        help_features: false,
    }
}

#[test]
fn mode_follows_the_options_in_order() {
    let mut c = options();
    assert!(matches!(c.mode(), Mode::Batch));
    c.interactive = true;
    assert!(matches!(c.mode(), Mode::Interactive));
    c.help_features = true;
    assert!(matches!(c.mode(), Mode::HelpFeatures));
    c.init = true;
    assert!(matches!(c.mode(), Mode::Init));
    c.download_model = Some("ru".to_string());
    match c.mode() {
        Mode::DownloadModel(l) => assert_eq!(l, "ru"),
        other => panic!("unexpected mode {:?}", other),
    }
}

#[test]
fn log_filter_follows_verbosity() {
    let mut c = options();
    assert_eq!(c.default_log_filter(), "info");
    c.verbose = true;
    assert_eq!(c.default_log_filter(), "debug");
}

#[test]
fn json_only_for_the_json_format() {
    let mut c = options();
    assert!(!c.wants_json());
    c.format = "json".to_string();
    assert!(c.wants_json());
    c.format = "JSON".to_string();
    assert!(!c.wants_json());
}
