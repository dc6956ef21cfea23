use text_researcher::dictionary::batch_line;
use text_researcher::dictionary::{
    batch_results, best_entry, build_entry, clean_word, extract_words, grammeme_query, is_pos,
    strip_word, BackendKind, DictConfig, DictEntry, Grammeme, GrammemeCache,
};
use text_researcher::error::CoreError;

fn g(code: &str, name: &str, alias: &str) -> Grammeme {
    Grammeme { code: code.into(), name: name.into(), alias: alias.into() }
}

#[test]
fn pos_codes() {
    for c in ["NOUN", "VERB", "ADJF", "ADJS", "ADVB", "COMP", "PRTF", "PRTS", "GRND", "INFN", "PRED", "PREP", "CONJ", "PRCL", "INTJ", "NUMR", "NPRO", "ADV"] {
        assert!(is_pos(c), "{}", c);
    }
    for c in ["sing", "nomn", "noun", "ADJ", ""] {
        assert!(!is_pos(c), "{}", c);
    }
}

#[test]
fn entry_takes_pos_from_lemma_grammemes() {
    let e = build_entry(
        "коты".into(),
        "кот".into(),
        vec![g("plur", "множественное число", "мн"), g("nomn", "именительный", "им")],
        vec![g("anim", "одушевлённое", "од"), g("NOUN", "существительное", "сущ"), g("masc", "мужской род", "мр")],
    );
    assert_eq!(e.pos.as_deref(), Some("NOUN"));
    let codes: Vec<&str> = e.grammemes.iter().map(|g| g.code.as_str()).collect();
    assert_eq!(codes, vec!["anim", "masc", "plur", "nomn"]);
    let e2 = build_entry("x".into(), "x".into(), vec![], vec![g("sing", "", "")]);
    assert!(e2.pos.is_none());
    assert_eq!(e2.grammemes.len(), 1);
}

#[test]
fn words_are_cleaned_like_the_dictionary_lookup() {
    assert_eq!(clean_word("«Кошка»,"), "кошка");
    assert_eq!(clean_word("-Кто-то-"), "-кто-то-");
    assert_eq!(clean_word("...!"), "");
    assert_eq!(strip_word("(A1)"), "A1");
    for w in ["Hello!", "ÀÉ?", "«Ёж»", "--", "x.y", "Σίσυφος."] {
        let expected = w
            .to_lowercase()
            .trim_matches(|c: char| !c.is_alphanumeric() && c != '-')
            .to_string();
        assert_eq!(clean_word(w), expected, "{}", w);
    }
}

#[test]
fn batch_words() {
    let words = extract_words("  Мама, мыла — раму!\n(2024) ... ");
    assert_eq!(words, vec!["Мама", "мыла", "раму", "2024"]);
}

#[test]
fn grammeme_queries() {
    assert_eq!(
        grammeme_query('?', 3),
        "SELECT name, alias, description FROM grammemes WHERE name IN (?1,?2,?3)"
    );
    assert_eq!(
        grammeme_query('$', 1),
        "SELECT name, alias, description FROM grammemes WHERE name IN ($1)"
    );
    let q = grammeme_query('?', 12);
    let placeholders: Vec<String> = (1..=12).map(|i| format!("?{}", i)).collect();
    assert_eq!(
        q,
        format!("SELECT name, alias, description FROM grammemes WHERE name IN ({})", placeholders.join(","))
    );
}

#[test]
fn grammeme_cache_resolves_and_remembers() {
    let mut cache = GrammemeCache::new();
    let codes = vec!["sing".to_string(), "@v".to_string(), "nomn".to_string()];
    let (found, missing) = cache.split_codes(&codes);
    assert!(found.is_empty());
    assert_eq!(missing, codes);
    let mut result = found;
    cache.merge_rows(&missing, vec![g("nomn", "именительный", "им"), g("sing", "единственное", "ед")], &mut result);
    let got: Vec<(&str, &str)> = result.iter().map(|g| (g.code.as_str(), g.alias.as_str())).collect();
    assert_eq!(got, vec![("sing", "ед"), ("nomn", "им")]);
    let (found, missing) = cache.split_codes(&codes);
    assert_eq!(found.len(), 2);
    assert_eq!(missing, vec!["@v".to_string()]);
}

#[test]
fn batch_keeps_words_with_entries() {
    let words = vec!["a".to_string(), "b".to_string(), "c".to_string()];
    let entry = DictEntry { form: "a".into(), lemma: "a".into(), pos: None, grammemes: vec![] };
    let m = batch_results(&words, vec![Some(vec![entry]), Some(vec![]), None]);
    assert!(m.contains_key("a"));
    assert!(!m.contains_key("b"));
    assert!(!m.contains_key("c"));
}

#[test]
fn best_entry_prefers_informative() {
    let plain = DictEntry { form: "f".into(), lemma: "plain".into(), pos: None, grammemes: vec![] };
    let rich = DictEntry { form: "f".into(), lemma: "rich".into(), pos: Some("NOUN".into()), grammemes: vec![] };
    assert_eq!(best_entry(&vec![plain.clone(), rich]).unwrap().lemma, "rich");
    assert_eq!(best_entry(&vec![plain]).unwrap().lemma, "plain");
    assert!(best_entry(&vec![]).is_none());
}

#[test]
fn backend_selection() {
    let c = DictConfig::from_env_or_default(None, None, None);
    assert_eq!(c.backend, "sqlite");
    assert_eq!(c.sqlite_path, ".data/dict.opcorpora.sqlite3.db");
    assert_eq!(c.postgres_url, "");
    assert_eq!(c.backend_kind().unwrap(), BackendKind::Sqlite);
    let p = DictConfig::from_env_or_default(Some("postgres".into()), None, Some("postgres://x".into()));
    assert_eq!(p.backend_kind().unwrap(), BackendKind::Postgres);
    assert_eq!(p.postgres_url, "postgres://x");
    let bad = DictConfig::from_env_or_default(Some("mysql".into()), None, None);
    match bad.backend_kind() {
        Err(CoreError::ConfigError(m)) => {
            assert_eq!(m, "unknown dictionary backend: 'mysql'. Use 'sqlite' or 'postgres'")
        }
        _ => panic!(),
    }
    let d = DictConfig::default();
    assert_eq!(d.backend, "");
}

#[test]
fn batch_keeps_words_whose_cleaned_form_is_found() {
    let dict = |cleaned: &str| -> Option<Vec<DictEntry>> {
        if cleaned == "кот" {
            Some(vec![build_entry("кот".to_string(), "кот".to_string(), Vec::new(), Vec::new())])
        } else if cleaned == "пёс" {
            Some(Vec::new())
        } else {
            None
        }
    };
    let words: Vec<String> =
        ["Кот,", "пёс", "!!", "мышь", "Кот,", "КОТ"].iter().map(|w| w.to_string()).collect();
    let look = |w: &String| {
        let c = clean_word(w);
        if c.is_empty() { None } else { dict(&c) }
    };
    let found: Vec<Option<Vec<DictEntry>>> = words.iter().map(look).collect();
    let m = batch_results(&words, found);
    assert!(m.contains_key("Кот,"));
    assert!(m.contains_key("КОТ"));
    assert!(!m.contains_key("кот"));
    assert!(!m.contains_key("пёс"));
    assert!(!m.contains_key("!!"));
    assert!(!m.contains_key("мышь"));
    assert_eq!(m.len(), 2);
    let mut reversed = words.clone();
    reversed.reverse();
    let found_rev: Vec<Option<Vec<DictEntry>>> = reversed.iter().map(look).collect();
    let m2 = batch_results(&reversed, found_rev);
    assert_eq!(m2.len(), m.len());
    for w in &words {
        assert_eq!(m.contains_key(w), m2.contains_key(w));
        assert_eq!(m.get(w).map(|es| es.len()), m2.get(w).map(|es| es.len()));
    }
}

fn sample_results() -> text_researcher::dictionary::BatchResults {
    let mut m = text_researcher::dictionary::BatchResults::new();
    let bare = DictEntry { form: "кот".into(), lemma: "кот-bare".into(), pos: None, grammemes: vec![] };
    let full = DictEntry {
        form: "кота".into(),
        lemma: "кот".into(),
        pos: Some("NOUN".into()),
        grammemes: vec![g("anim", "Одушевлённость", "од"), g("gent", "Падеж", "рд")],
    };
    m.insert("Кота,".to_string(), vec![bare, full]);
    m
}

#[test]
fn batch_lines_in_text_and_json() {

    let r = sample_results();
    assert_eq!(batch_line("Кота,", &r, false), "Кота,\tкот,NOUN,anim,gent");
    assert_eq!(
        batch_line("Кота,", &r, true),
        r#"{"word":"Кота,","props":"кот,NOUN,anim,gent","lem":"кот","pos":"NOUN","од":"anim","рд":"gent"}"#
    );
    assert_eq!(batch_line("пёс", &r, false), "пёс\t");
    assert_eq!(batch_line("пёс", &r, true), r#"{"word":"пёс","props":""}"#);
}

#[test]
fn entry_duplicate_is_equal() {
    let e = DictEntry {
        form: "f".into(),
        lemma: "l".into(),
        pos: Some("VERB".into()),
        grammemes: vec![g("a", "b", "c")],
    };
    let d = e.duplicate();
    assert_eq!(d.form, e.form);
    assert_eq!(d.lemma, e.lemma);
    assert_eq!(d.pos, e.pos);
    assert_eq!(d.grammemes.len(), 1);
    assert_eq!(d.grammemes[0].alias, "c");
}
