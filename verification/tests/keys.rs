use text_researcher::keys::{effect_of, route_key, Effect, Key, KeyPress, Route, ShortcutHandler};
use text_researcher::panels::{Action, Focus, LogPane, MenuBar, PropsPane, TextPane};

fn press(key: Key) -> KeyPress {
    KeyPress { key, ctrl: false, press: true }
}

fn ctrl(key: Key) -> KeyPress {
    KeyPress { key, ctrl: true, press: true }
}

#[test]
fn shortcut_table() {
    let h = ShortcutHandler::new();
    assert_eq!(h.handle(press(Key::Char('s'))), Some(Action::Save));
    assert_eq!(h.handle(ctrl(Key::Char('s'))), Some(Action::Save));
    assert_eq!(h.handle(press(Key::Char('o'))), Some(Action::OpenFile));
    assert_eq!(h.handle(press(Key::Char('q'))), Some(Action::Quit));
    assert_eq!(h.handle(ctrl(Key::Char('l'))), Some(Action::SwitchLanguage("next".to_string())));
    assert_eq!(h.handle(press(Key::Char('l'))), None);
    assert_eq!(h.handle(press(Key::Char('e'))), Some(Action::EditWord { word_index: 0 }));
    assert_eq!(h.handle(press(Key::Char('x'))), None);
    assert_eq!(h.handle(press(Key::Up)), None);
}

#[test]
fn key_routes() {
    let h = ShortcutHandler::new();
    let released = KeyPress { key: Key::Char('s'), ctrl: true, press: false };
    assert_eq!(route_key(&h, released, Focus::Text), Route::Ignore);
    assert_eq!(route_key(&h, ctrl(Key::Char('s')), Focus::Text), Route::Save);
    assert_eq!(route_key(&h, ctrl(Key::Char('q')), Focus::Log), Route::Quit);
    assert_eq!(route_key(&h, ctrl(Key::Char('c')), Focus::Text), Route::Quit);
    assert_eq!(route_key(&h, press(Key::Char('c')), Focus::Text), Route::Pane(Focus::Text));
    assert_eq!(route_key(&h, press(Key::Esc), Focus::Menu), Route::Quit);
    assert_eq!(route_key(&h, ctrl(Key::Esc), Focus::Menu), Route::Quit);
    assert_eq!(route_key(&h, press(Key::Tab), Focus::Props), Route::CycleFocus);
    assert_eq!(route_key(&h, press(Key::Char('s')), Focus::Text), Route::Shortcut(Action::Save));
    assert_eq!(
        route_key(&h, ctrl(Key::Char('l')), Focus::Text),
        Route::Shortcut(Action::SwitchLanguage("next".to_string()))
    );
    assert_eq!(route_key(&h, press(Key::Char('l')), Focus::Text), Route::Pane(Focus::Text));
    assert_eq!(route_key(&h, ctrl(Key::Char('o')), Focus::Text), Route::Shortcut(Action::OpenFile));
    assert_eq!(route_key(&h, press(Key::Right), Focus::Text), Route::Pane(Focus::Text));
    assert_eq!(route_key(&h, press(Key::Char('j')), Focus::Extra(2)), Route::Pane(Focus::Extra(2)));
}

#[test]
fn action_effects() {
    assert_eq!(effect_of(&Action::Quit), Effect::Stop);
    assert_eq!(effect_of(&Action::Save), Effect::Save);
    assert_eq!(effect_of(&Action::EditWord { word_index: 4 }), Effect::MarkDirty);
    assert_eq!(effect_of(&Action::OpenFile), Effect::Nothing);
    assert_eq!(effect_of(&Action::Nothing), Effect::Nothing);
    assert_eq!(effect_of(&Action::SwitchLanguage("ru".to_string())), Effect::Nothing);
}

#[test]
fn menu_keys() {
    let mut m = MenuBar::new();
    assert_eq!(m.handle_key(Key::F(10)), Action::Nothing);
    assert!(m.is_active());
    m.handle_key(Key::Char('m'));
    assert!(!m.is_active());
    m.handle_key(Key::F(9));
    m.handle_key(Key::Char('x'));
    assert!(!m.is_active());
}

#[test]
fn props_keys() {
    let p = PropsPane::new();
    assert_eq!(p.handle_key(Key::Char('e')), Action::EditWord { word_index: 0 });
    assert_eq!(p.handle_key(Key::Char('x')), Action::Nothing);
    assert_eq!(p.handle_key(Key::Down), Action::Nothing);
}

#[test]
fn text_keys_move_the_cursor() {
    let mut t = TextPane::new();
    let words: Vec<String> = (0..45).map(|i| format!("w{}", i)).collect();
    t.set_text(&words.join(" "));
    assert_eq!(t.word_count(), 45);
    assert_eq!(t.handle_key(Key::Right), Action::Nothing);
    assert_eq!(t.cursor_word_index(), 1);
    t.handle_key(Key::Char('w'));
    t.handle_key(Key::Char('l'));
    assert_eq!(t.cursor_word_index(), 3);
    t.handle_key(Key::Char('b'));
    assert_eq!(t.cursor_word_index(), 2);
    t.handle_key(Key::Down);
    assert_eq!(t.cursor_word_index(), 22);
    t.handle_key(Key::Char('j'));
    assert_eq!(t.cursor_word_index(), 42);
    t.handle_key(Key::Char('j'));
    assert_eq!(t.cursor_word_index(), 44);
    t.handle_key(Key::Right);
    assert_eq!(t.cursor_word_index(), 44);
    t.handle_key(Key::Up);
    assert_eq!(t.cursor_word_index(), 24);
    t.handle_key(Key::Char('0'));
    assert_eq!(t.cursor_word_index(), 0);
    t.handle_key(Key::Left);
    assert_eq!(t.cursor_word_index(), 0);
    t.handle_key(Key::Char('$'));
    assert_eq!(t.cursor_word_index(), 44);
    t.handle_key(Key::Char('g'));
    assert_eq!(t.cursor_word_index(), 0);
    t.handle_key(Key::Char('G'));
    assert_eq!(t.current_word(), Some("w44"));
    t.handle_key(Key::Char('e'));
    t.handle_key(Key::Other);
    assert_eq!(t.cursor_word_index(), 44);
}

#[test]
fn log_keys_scroll() {
    let mut l = LogPane::new();
    for i in 0..7 {
        l.log(&format!("line {}", i));
    }
    let before = l.messages().len();
    l.handle_key(Key::Char('g'));
    assert_eq!(l.scroll(), 0);
    l.handle_key(Key::Up);
    assert_eq!(l.scroll(), 0);
    l.handle_key(Key::Down);
    assert_eq!(l.scroll(), 1);
    l.handle_key(Key::Char('j'));
    assert_eq!(l.scroll(), 2);
    l.handle_key(Key::Char('k'));
    assert_eq!(l.scroll(), 1);
    assert_eq!(l.handle_key(Key::End), Action::Nothing);
    let total = before + if l.current_line().is_empty() { 0 } else { 1 };
    assert_eq!(l.scroll(), total.saturating_sub(4));
    l.handle_key(Key::Home);
    assert_eq!(l.scroll(), 0);
    l.handle_key(Key::Char('G'));
    assert_eq!(l.scroll(), total.saturating_sub(4));
    l.handle_key(Key::Char('x'));
    assert_eq!(l.scroll(), total.saturating_sub(4));
}

#[test]
fn word_moves_undo_each_other() {
    let mut t = TextPane::new();
    t.set_text("один два три");
    t.handle_key(Key::Right);
    t.handle_key(Key::Left);
    assert_eq!(t.cursor_word_index(), 0);
    t.handle_key(Key::Char('$'));
    t.handle_key(Key::Char('h'));
    t.handle_key(Key::Char('l'));
    assert_eq!(t.cursor_word_index(), 2);
    t.handle_key(Key::Right);
    assert_eq!(t.cursor_word_index(), 2);
}

#[test]
fn logged_line_is_the_last_shown() {
    let mut l = LogPane::new();
    for i in 0..10 {
        l.log(&format!("line {}", i));
    }
    l.handle_key(Key::Home);
    l.log_prefetch_word("мама", true);
    l.log("newest");
    let shown = l.visible_lines();
    assert_eq!(shown.last().map(|s| s.as_str()), Some("newest"));
    assert_eq!(l.messages().last().map(|s| s.as_str()), Some("newest"));
    assert!(l.messages().iter().any(|m| m == "✔ мама"));
    assert!(l.current_line().is_empty());
}

#[test]
fn plain_l_moves_the_cursor_right() {
    let h = ShortcutHandler::new();
    let mut t = TextPane::new();
    t.set_text("один два три");
    match route_key(&h, press(Key::Char('l')), Focus::Text) {
        Route::Pane(Focus::Text) => {
            t.handle_key(Key::Char('l'));
        }
        other => panic!("unexpected route {:?}", other),
    }
    assert_eq!(t.cursor_word_index(), 1);
}
