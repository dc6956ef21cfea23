//! Keys as the interface reads them, the global shortcuts, and where a
//! key press goes: to the application itself, to a shortcut, or to the
//! pane that has the keyboard.

use vstd::prelude::*;

use crate::panels::{Action, Focus};

verus! {

/// A key, as far as the interface tells keys apart.
#[derive(Debug, Clone, Copy, PartialEq, Eq, Structural)]
pub enum Key {
    Char(char),
    F(u8),
    Up,
    Down,
    Left,
    Right,
    Home,
    End,
    Esc,
    Tab,
    Other,
}

/// A key event: the key, whether Control was held, and whether it is a
/// press (rather than a repeat or a release).
#[derive(Debug, Clone, Copy, PartialEq, Eq, Structural)]
pub struct KeyPress {
    pub key: Key,
    pub ctrl: bool,
    pub press: bool,
}

/// The action that a global shortcut stands for, as the table says: `s`
/// saves, `o` opens a file, `q` quits, `e` edits the current word, with
/// or without Control; Control-L switches to the next language (a plain
/// `l` is a move of the cursor, not a shortcut).
pub open spec fn shortcut_is(input: KeyPress, a: Option<Action>) -> bool {
    match input.key {
        Key::Char('s') => a matches Some(Action::Save),
        Key::Char('o') => a matches Some(Action::OpenFile),
        Key::Char('q') => a matches Some(Action::Quit),
        Key::Char('l') => if input.ctrl {
            a matches Some(Action::SwitchLanguage(lang)) && lang@ == "next"@
        } else {
            a is None
        },
        Key::Char('e') => a matches Some(Action::EditWord { word_index }) && word_index == 0,
        _ => a is None,
    }
}

/// Whether `input` is one of the shortcuts.
pub open spec fn is_shortcut(input: KeyPress) -> bool {
    ||| input.key == Key::Char('s')
    ||| input.key == Key::Char('o')
    ||| input.key == Key::Char('q')
    ||| input.key == Key::Char('l') && input.ctrl
    ||| input.key == Key::Char('e')
}

/// The global keyboard shortcuts.
pub struct ShortcutHandler;

impl ShortcutHandler {
    /// The handler with the standard table.
    pub fn new() -> (h: ShortcutHandler) {
        ShortcutHandler
    }

    /// The action bound to `input`, if any.
    pub fn handle(&self, input: KeyPress) -> (a: Option<Action>)
        ensures
            shortcut_is(input, a),
            a is Some <==> is_shortcut(input),
    {
        match input.key {
            Key::Char('s') => Some(Action::Save),
            Key::Char('o') => Some(Action::OpenFile),
            Key::Char('q') => Some(Action::Quit),
            Key::Char('l') => {
                if input.ctrl {
                    let lang = String::from_str("next");
                    proof {
                        reveal_strlit("next");
                    }
                    Some(Action::SwitchLanguage(lang))
                } else {
                    None
                }
            },
            Key::Char('e') => Some(Action::EditWord { word_index: 0 }),
            _ => None,
        }
    }
}

/// Where a key event goes.
#[derive(Debug, Clone, PartialEq)]
pub enum Route {
    /// Not a press: nothing happens.
    Ignore,
    /// Control-S: save the project.
    Save,
    /// Control-Q, Control-C or Escape: leave.
    Quit,
    /// Tab: the next pane gets the keyboard.
    CycleFocus,
    /// A global shortcut.
    Shortcut(Action),
    /// The pane that has the keyboard reads the key.
    Pane(Focus),
}

/// The route of `input` when `focus` has the keyboard.
pub open spec fn route_is(input: KeyPress, focus: Focus, r: Route) -> bool {
    if !input.press {
        r is Ignore
    } else if input.ctrl && input.key == Key::Char('s') {
        r is Save
    } else if input.ctrl && (input.key == Key::Char('q') || input.key == Key::Char('c')) {
        r is Quit
    } else if input.key == Key::Esc {
        r is Quit
    } else if input.key == Key::Tab {
        r is CycleFocus
    } else if is_shortcut(input) {
        r matches Route::Shortcut(a) && shortcut_is(input, Some(a))
    } else {
        r == Route::Pane(focus)
    }
}

/// Where a key event goes: releases are ignored; Control-S saves;
/// Control-Q, Control-C and Escape quit; Tab moves the focus; a shortcut
/// gives its action; any other key goes to the pane in `focus`.
pub fn route_key(shortcuts: &ShortcutHandler, input: KeyPress, focus: Focus) -> (r: Route)
    ensures
        route_is(input, focus, r),
{
    if !input.press {
        return Route::Ignore;
    }
    if input.ctrl {
        match input.key {
            Key::Char('s') => {
                return Route::Save;
            },
            Key::Char('q') | Key::Char('c') => {
                return Route::Quit;
            },
            _ => {},
        }
    }
    match input.key {
        Key::Esc => {
            return Route::Quit;
        },
        Key::Tab => {
            return Route::CycleFocus;
        },
        _ => {},
    }
    match shortcuts.handle(input) {
        Some(a) => Route::Shortcut(a),
        None => Route::Pane(focus),
    }
}

/// What the application does with an action a pane or a shortcut gave.
#[derive(Debug, Clone, Copy, PartialEq, Eq, Structural)]
pub enum Effect {
    Stop,
    Save,
    MarkDirty,
    Nothing,
}

/// The effect of `a`: quitting stops, saving saves, an edit marks the
/// project as changed, the rest does nothing yet.
pub fn effect_of(a: &Action) -> (e: Effect)
    ensures
        e == match a {
            Action::Quit => Effect::Stop,
            Action::Save => Effect::Save,
            Action::EditWord { .. } => Effect::MarkDirty,
            _ => Effect::Nothing,
        },
{
    match a {
        Action::Quit => Effect::Stop,
        Action::Save => Effect::Save,
        Action::EditWord { .. } => Effect::MarkDirty,
        _ => Effect::Nothing,
    }
}

} // verus!
