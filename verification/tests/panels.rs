use text_researcher::feature_map::FeatureMap;
use text_researcher::morphology::{features, pos_types};
use text_researcher::dictionary::{DictEntry, Grammeme};
use text_researcher::error::CoreError;
use text_researcher::panels::{prefetch_wanted, LookupStep};
use text_researcher::panels::{
    next_focus, prefetch_indices, props_features, split_whitespace, terminal_fits, upostag_human,
    Focus, LogPane, LookupCache, MenuBar, PropsPane, StatusBar, TextPane,
};

#[test]
fn text_pane_cursor_stays_on_a_word() {
    let mut p = TextPane::new();
    assert!(p.current_word().is_none());
    p.set_text("Мама  мыла\nраму.");
    assert_eq!(p.word_count(), 3);
    assert_eq!(p.current_word(), Some("Мама"));
    p.move_cursor(-1);
    assert_eq!(p.cursor_word_index(), 0);
    p.move_cursor(2);
    assert_eq!(p.current_word(), Some("раму"));
    p.move_cursor(1);
    assert_eq!(p.cursor_word_index(), 2);
    p.goto_start();
    assert_eq!(p.cursor_word_index(), 0);
    p.move_to_line(1);
    assert_eq!(p.cursor_word_index(), 2);
    p.move_to_line(-1);
    assert_eq!(p.cursor_word_index(), 0);
    p.goto_end();
    assert_eq!(p.current_word(), Some("раму"));
    assert_eq!(p.word_at(1), Some("мыла"));
    assert_eq!(p.word_at(9), None);
}

#[test]
fn words_are_split_on_unicode_white_space() {
    let text = "a\u{a0}b\u{3000}c\td  e ";
    let expected: Vec<&str> = text.split_whitespace().collect();
    assert_eq!(split_whitespace(text), expected);
    assert!(split_whitespace("   ").is_empty());
}

#[test]
fn props_pane_shows_entry() {
    let feats = props_features(
        &Some("NOUN".to_string()),
        &vec![("число".to_string(), "ед".to_string()), ("падеж".to_string(), "им".to_string())],
    );
    assert_eq!(feats.len(), 3);
    let mut p = PropsPane::new();
    p.update("кот", "кот", &feats);
    assert_eq!(p.word(), "кот");
    assert_eq!(p.upostag(), "NOUN");
    assert_eq!(p.features().get("падеж").unwrap(), "им");
    p.clear();
    assert_eq!(p.word(), "");
    assert!(p.features().is_empty());
    let mut none = FeatureMap::new();
    none.insert("a".into(), "b".into());
    p.update("x", "y", &none);
    assert_eq!(p.upostag(), "");
}

#[test]
fn upostag_names() {
    assert_eq!(upostag_human("NOUN"), "Существительное");
    assert_eq!(upostag_human("NPRO"), "Местоимение-сущ.");
    assert_eq!(upostag_human("ZZZ"), "ZZZ");
}

#[test]
fn status_line() {
    let mut s = StatusBar::new();
    assert_eq!(s.status_text(), " (no file) | Ln 1, Col 1 | RU ");
    s.update("a.txt", 42, 7, "EN", true);
    assert_eq!(s.status_text(), " a.txt | Ln 42, Col 7 | EN  *");
    let mut m = MenuBar::new();
    assert!(!m.is_active());
    m.toggle();
    assert!(m.is_active());
}

#[test]
fn prefetch_windows() {
    assert_eq!(prefetch_indices(5, 2, -1), vec![0, 1, 3, 4]);
    assert_eq!(prefetch_indices(10, 5, 2), vec![3, 4, 6, 7]);
    assert_eq!(prefetch_indices(10, 1, 3), vec![0, 2, 3, 4]);
    assert_eq!(prefetch_indices(3, 2, 5), vec![0, 1]);
    assert!(prefetch_indices(5, 2, 0).is_empty());
}

#[test]
fn log_keeps_recent_lines_and_flushes_long_lines() {
    let mut l = LogPane::new();
    for i in 0..250 {
        l.log(&format!("line {}", i));
    }
    assert_eq!(l.messages().len(), 200);
    assert_eq!(l.messages()[0], "line 50");
    assert_eq!(l.scroll(), 196);
    l.log_prefetch_word("кот", true);
    l.log_prefetch_word("пёс", false);
    assert_eq!(l.current_line(), "✔ кот, ✘ пёс");
    for _ in 0..20 {
        l.log_prefetch_word("словечко", true);
    }
    assert!(l.current_line().len() <= 80);
    l.log("done");
    assert_eq!(l.current_line(), "");
    assert_eq!(l.messages().last().unwrap(), "done");
}

#[test]
fn log_scrolling() {
    let mut l = LogPane::new();
    for i in 0..6 {
        l.log(&format!("{}", i));
    }
    assert_eq!(l.scroll(), 2);
    assert_eq!(l.visible_lines(), vec!["2", "3", "4", "5"]);
    l.scroll_home();
    assert_eq!(l.visible_lines(), vec!["0", "1", "2", "3"]);
    l.scroll_up();
    assert_eq!(l.scroll(), 0);
    l.scroll_down();
    l.scroll_down();
    l.scroll_down();
    assert_eq!(l.scroll(), 2);
    l.log_prefetch_word("w", true);
    l.scroll_end();
    assert_eq!(l.scroll(), 3);
    assert_eq!(l.visible_lines(), vec!["3", "4", "5", "✔ w"]);
    assert_eq!(LogPane::new().visible_lines(), vec![""]);
}

#[test]
fn reference_tables() {
    let f = features();
    assert_eq!(f.len(), 17);
    assert_eq!(f[2].name_en, "Case");
    assert_eq!(f[2].medium_ru, "падеж");
    let p = pos_types();
    assert_eq!(p.len(), 18);
    assert_eq!(p[17].code, "ADV");
}

#[test]
fn tab_cycles_through_the_panes() {
    assert_eq!(next_focus(Focus::Menu), Focus::Props);
    assert_eq!(next_focus(Focus::Props), Focus::Text);
    assert_eq!(next_focus(Focus::Text), Focus::Log);
    assert_eq!(next_focus(Focus::Log), Focus::Menu);
    assert_eq!(next_focus(Focus::Extra(3)), Focus::Menu);
    let mut f = Focus::Text;
    for _ in 0..4 {
        f = next_focus(f);
    }
    assert_eq!(f, Focus::Text);
}

#[test]
fn terminal_size_limits() {
    assert!(terminal_fits(80, 24));
    assert!(terminal_fits(200, 60));
    assert!(!terminal_fits(79, 24));
    assert!(!terminal_fits(80, 23));
    assert!(!terminal_fits(0, 0));
}

fn entry(form: &str, lemma: &str) -> DictEntry {
    DictEntry {
        form: form.to_string(),
        lemma: lemma.to_string(),
        pos: Some("NOUN".to_string()),
        grammemes: Vec::new(),
    }
}

#[test]
fn lookup_cache_remembers_found_and_missing_words() {
    let mut c = LookupCache::new();
    assert!(!c.contains("мама"));
    assert!(c.first_entry("мама").is_none());
    assert!(!c.known_absent("мама"));

    c.record("мама".to_string(), vec![entry("мама", "мама"), entry("мама", "мать")]);
    assert!(c.contains("мама"));
    assert_eq!(c.first_entry("мама").map(|e| e.lemma.as_str()), Some("мама"));
    assert!(!c.known_absent("мама"));

    c.record("ыыы".to_string(), Vec::new());
    assert!(c.contains("ыыы"));
    assert!(c.first_entry("ыыы").is_none());
    assert!(c.known_absent("ыыы"));

    c.insert("ыыы".to_string(), Some(vec![entry("ыыы", "ы")]));
    assert!(!c.known_absent("ыыы"));
    assert_eq!(c.first_entry("ыыы").map(|e| e.lemma.as_str()), Some("ы"));

    c.insert("пусто".to_string(), Some(Vec::new()));
    assert!(c.first_entry("пусто").is_none());
    assert!(!c.known_absent("пусто"));
}

#[test]
fn words_to_fetch_skips_known_words_and_missing_indices() {
    let mut t = TextPane::new();
    t.set_text("мама мыла раму мама");
    let mut c = LookupCache::new();
    let all = c.words_to_fetch(&t, &vec![0, 1, 2, 3, 9]);
    assert_eq!(all, vec!["мама", "мыла", "раму", "мама"]);
    c.record("мыла".to_string(), Vec::new());
    c.record("мама".to_string(), vec![entry("мама", "мама")]);
    assert_eq!(c.words_to_fetch(&t, &vec![3, 2, 1, 0]), vec!["раму"]);
    assert_eq!(c.words_to_fetch(&t, &vec![]), Vec::<String>::new());
    let around = prefetch_indices(t.word_count(), 1, 1);
    assert_eq!(c.words_to_fetch(&t, &around), vec!["раму"]);
}

#[test]
fn feature_pairs_in_name_order() {
    let mut m = FeatureMap::new();
    m.insert("Число".to_string(), "ед".to_string());
    m.insert("Падеж".to_string(), "им".to_string());
    m.insert("Case".to_string(), "Nom".to_string());
    m.insert("Падеж".to_string(), "рд".to_string());
    let pairs = m.sorted_entries();
    let expected: Vec<(String, String)> = vec![
        ("Case".to_string(), "Nom".to_string()),
        ("Падеж".to_string(), "рд".to_string()),
        ("Число".to_string(), "ед".to_string()),
    ];
    assert_eq!(pairs, expected);
    let mut names: Vec<&str> = vec!["Число", "Падеж", "Case"];
    names.sort();
    assert_eq!(pairs.iter().map(|(k, _)| k.as_str()).collect::<Vec<_>>(), names);
    assert!(FeatureMap::new().sorted_entries().is_empty());
}

#[test]
fn merged_prefetch_results_are_counted_and_kept() {
    let mut c = LookupCache::new();
    let found = c.merge(vec![
        ("мама".to_string(), Some(vec![entry("мама", "мама")])),
        ("ыыы".to_string(), None),
        ("рама".to_string(), Some(vec![entry("рама", "рама")])),
    ]);
    assert_eq!(found, 2);
    assert!(c.known_absent("ыыы"));
    assert_eq!(c.first_entry("рама").map(|e| e.lemma.as_str()), Some("рама"));
    assert_eq!(c.merge(Vec::new()), 0);
    let twice = c.merge(vec![("кот".to_string(), None), ("кот".to_string(), Some(vec![entry("кот", "кот")]))]);
    assert_eq!(twice, 1);
    assert!(c.known_absent("кот"));
}

#[test]
fn prefetch_log_lines() {
    let mut l = LogPane::new();
    l.log_prefetch_started(12);
    l.log_prefetch_word("мама", true);
    l.log_prefetch_done(7, 12);
    let expected: Vec<String> =
        vec!["prefetch 12 words".to_string(), "✔ мама".to_string(), "done: 7/12 found".to_string()];
    assert_eq!(l.messages(), &expected);
}

#[test]
fn props_pane_shows_a_dictionary_entry() {

    let e = DictEntry {
        form: "кошки".to_string(),
        lemma: "кошка".to_string(),
        pos: Some("NOUN".to_string()),
        grammemes: vec![
            Grammeme { code: "femn".to_string(), name: "Род".to_string(), alias: "жр".to_string() },
            Grammeme { code: "sing".to_string(), name: "Число".to_string(), alias: "ед".to_string() },
            Grammeme { code: "gent".to_string(), name: "Падеж".to_string(), alias: "рд".to_string() },
        ],
    };
    let mut p = PropsPane::new();
    p.show_entry(&e);
    assert_eq!(p.word(), "кошки");
    assert_eq!(p.lemma(), "кошка");
    assert_eq!(p.upostag(), "NOUN");
    assert_eq!(p.features().len(), 4);
    assert_eq!(p.features().get("Падеж").map(|s| s.as_str()), Some("рд"));
    let bare = DictEntry { form: "и".to_string(), lemma: "и".to_string(), pos: None, grammemes: Vec::new() };
    p.show_entry(&bare);
    assert_eq!(p.upostag(), "");
    assert!(p.features().is_empty());
}

#[test]
fn text_pane_words_are_cleaned_tokens() {
    let mut p = TextPane::new();
    p.set_text("«Привет», сказал он. — Ну-ка!");
    let words: Vec<&str> = (0..p.word_count()).map(|i| p.word_at(i).unwrap()).collect();
    assert_eq!(words, vec!["Привет", "сказал", "он", "Ну-ка"]);
    assert_eq!(p.current_word(), Some("Привет"));
    p.goto_end();
    p.set_text("«Да»");
    assert_eq!(p.cursor_word_index(), 0);
    assert_eq!(p.current_word(), Some("Да"));
    p.set_text("— … !!");
    assert_eq!(p.word_count(), 0);
    assert_eq!(p.current_word(), None);
}

#[test]
fn cache_first_lookup_steps() {


    let mut c = LookupCache::new();
    assert!(matches!(c.lookup_step(None), LookupStep::Clear));
    assert!(matches!(c.lookup_step(Some("кот")), LookupStep::Fetch));
    let failed = c.after_fetch("кот".to_string(), Err(CoreError::DictionaryError("down".into())));
    assert!(failed.is_none());
    assert!(!c.contains("кот"));
    let shown = c.after_fetch("кот".to_string(), Ok(vec![entry("кот", "кот"), entry("кот", "котик")]));
    assert_eq!(shown.map(|e| e.lemma), Some("кот".to_string()));
    match c.lookup_step(Some("кот")) {
        LookupStep::Show(e) => assert_eq!(e.lemma, "кот"),
        other => panic!("unexpected {:?}", other),
    }
    assert!(c.after_fetch("ыыы".to_string(), Ok(Vec::new())).is_none());
    assert!(matches!(c.lookup_step(Some("ыыы")), LookupStep::Clear));
    c.insert("пусто".to_string(), Some(Vec::new()));
    assert!(matches!(c.lookup_step(Some("пусто")), LookupStep::Fetch));
    assert!(prefetch_wanted(true, -1, false));
    assert!(!prefetch_wanted(false, -1, false));
    assert!(!prefetch_wanted(true, 0, false));
    assert!(!prefetch_wanted(true, 5, true));
}
