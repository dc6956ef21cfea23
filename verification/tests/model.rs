use text_researcher::model::ModelManager;
use text_researcher::pipeline::Udpipeline;

#[test]
fn model_paths_join_like_path_join() {
    assert_eq!(ModelManager::new("./models".into()).model_path("ru"), "./models/ru.udpipe");
    assert_eq!(ModelManager::new("dir/".into()).model_path("en"), "dir/en.udpipe");
    assert_eq!(ModelManager::new("".into()).model_path("en"), "en.udpipe");
    assert_eq!(ModelManager::new("dir".into()).model_path("/abs/x"), "/abs/x.udpipe");
    for (dir, lang) in [("./models", "ru"), ("a/b/", "de"), ("", "x"), ("d", "/y")] {
        let expected = std::path::Path::new(dir).join(format!("{}.udpipe", lang));
        assert_eq!(ModelManager::new(dir.into()).model_path(lang), expected.to_str().unwrap());
    }
}

#[test]
fn load_is_idempotent() {
    let mut m = ModelManager::new("m".into());
    assert!(m.load("ru", false).is_err());
    assert!(m.load("ru", true).is_ok());
    assert!(m.load("ru", false).is_ok());
    assert_eq!(m.get("ru").unwrap().model_path(), "m/ru.udpipe");
}

#[test]
fn get_fails_for_a_model_that_is_not_loaded() {
    let mut m = ModelManager::new("m".into());
    match m.get("en") {
        Err(e) => assert_eq!(e.message(), "model not found for language: en"),
        Ok(_) => panic!("a model that was never loaded was found"),
    }
    assert!(m.load("en", true).is_ok());
    assert_eq!(m.get("en").unwrap().model_path(), "m/en.udpipe");
    assert!(m.get("ru").is_err());
}

#[test]
fn available_languages_are_sorted_model_stems() {
    let m = ModelManager::new("m".into());
    let names: Vec<String> = ["ru.udpipe", "notes.txt", ".udpipe", "en.udpipe", "a.b.udpipe", "de.UDPIPE", "udpipe"]
        .iter()
        .map(|s| s.to_string())
        .collect();
    assert_eq!(m.available_languages(&names), vec!["a.b", "en", "ru"]);
    for n in &names {
        let p = std::path::Path::new(n);
        let std_stem = if p.extension().map_or(false, |e| e == "udpipe") {
            p.file_stem().and_then(|s| s.to_str()).map(|s| s.to_string())
        } else {
            None
        };
        let mine = m.available_languages(&vec![n.clone()]);
        assert_eq!(mine.first().cloned(), std_stem, "{}", n);
    }
}

#[test]
fn pipeline_settings() {
    let p = Udpipeline::new("x.udpipe".to_string());
    assert_eq!(p.model_path(), "x.udpipe");
    assert_eq!(p.timeout(), std::time::Duration::from_secs(60));
    let p = p.with_timeout(std::time::Duration::from_millis(5));
    assert_eq!(p.timeout(), std::time::Duration::from_millis(5));
    assert_eq!(p.model_path(), "x.udpipe");
}
