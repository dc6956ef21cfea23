use text_researcher::config::{init_config_name, init_notes_name, CONFIG_FILE_NAME};
use text_researcher::config::{
    default_chunk_size, default_language, ConfigFile, GlobalConfig, SessionConfig, SessionFile,
};
use text_researcher::error::CoreError;

#[test]
fn global_defaults() {
    let g = GlobalConfig::default();
    assert_eq!(g.default_language, "ru");
    assert_eq!(g.model_dir, "./models");
    assert_eq!(g.log_level, "info");
    assert_eq!(g.batch_chunk_size, 10);
    assert_eq!(g.dict_path, ".data/dict.opcorpora.sqlite3.db");
    assert_eq!(g.postgres_url, "");
    assert_eq!(default_language(), "ru");
    assert_eq!(default_chunk_size(), 10);
}

#[test]
fn global_load_outcomes() {
    let g = GlobalConfig::load("/c.json", ConfigFile::Missing).unwrap();
    assert_eq!(g.default_language, "ru");
    let mut custom = GlobalConfig::default();
    custom.default_language = "en".into();
    assert_eq!(GlobalConfig::load("/c.json", ConfigFile::Parsed(custom)).unwrap().default_language, "en");
    match GlobalConfig::load("/c.json", ConfigFile::ParseFailed("bad".into())) {
        Err(CoreError::ConfigError(m)) => assert_eq!(m, "failed to parse /c.json: bad"),
        _ => panic!(),
    }
    match GlobalConfig::load("/c.json", ConfigFile::ReadFailed("denied".into())) {
        Err(e) => assert_eq!(e.message(), "config error: failed to read /c.json: denied"),
        _ => panic!(),
    }
}

#[test]
fn session_prefers_json_then_yaml() {
    let s = SessionConfig::load("s", SessionFile::Missing).unwrap();
    assert!(s.language.is_none());
    let json = SessionConfig { language: Some("en".into()), ..SessionConfig::default() };
    let yaml = SessionConfig { language: Some("de".into()), ..SessionConfig::default() };
    let r = SessionConfig::load("s", SessionFile::Read(Ok(json), None)).unwrap();
    assert_eq!(r.language.as_deref(), Some("en"));
    let r = SessionConfig::load("s", SessionFile::Read(Err("x".into()), Some(Ok(yaml)))).unwrap();
    assert_eq!(r.language.as_deref(), Some("de"));
    match SessionConfig::load("s", SessionFile::Read(Err("x".into()), Some(Err("y".into())))) {
        Err(CoreError::ConfigError(m)) => assert_eq!(m, "failed to parse s as JSON or YAML: y"),
        _ => panic!(),
    }
}

#[test]
fn language_resolution_order() {
    let g = GlobalConfig::default();
    let s = SessionConfig::default();
    assert_eq!(s.resolve_language(&g), "ru");
    let mut g2 = GlobalConfig::default();
    g2.default_language = "en".into();
    assert_eq!(s.resolve_language(&g2), "en");
    let s2 = SessionConfig { language: Some("de".into()), ..SessionConfig::default() };
    assert_eq!(s2.resolve_language(&g2), "de");
}

#[test]
fn init_file_names() {
    assert_eq!(CONFIG_FILE_NAME, "config.json");
    assert_eq!(init_config_name(false, "20240101-120000"), "config.json");
    assert_eq!(init_config_name(true, "20240101-120000"), "config.json.20240101-120000");
    assert_eq!(init_notes_name("20240101-120000"), "config.json.txt.20240101-120000");
}

#[test]
fn batch_chunk_size_from_config() {
    let mut c = <GlobalConfig as Default>::default();
    assert_eq!(c.chunk_size(), 10);
    c.batch_chunk_size = 3;
    assert_eq!(c.chunk_size(), 3);
    c.batch_chunk_size = 0;
    assert_eq!(c.chunk_size(), 10);
}
