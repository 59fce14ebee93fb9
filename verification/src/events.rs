//! What happens to the application, and what the user can ask of it.

use vstd::prelude::*;

verus! {

/// What the user can ask for. Each has a key.
#[derive(Clone, Copy, Debug, PartialEq, Eq, Structural)]
pub enum UserAction {
    Quit,
    MoveUp,
    MoveDown,
    IncrementWindow,
    DecrementWindow,
    /// Go to the window at the given place.
    JumpToWindow(usize),
    OpenReader,
}

/// What the screens and their parts are told.
#[derive(Clone, Copy, Debug, PartialEq, Eq, Structural)]
pub enum AppEvent {
    /// Sent once, when the application has started.
    AppStart,
    /// The user asked for something.
    UserAction(UserAction),
    /// The part that is told so has the focus now.
    Focus,
    /// The part that is told so has lost the focus.
    Defocus,
}

/// A key as the key map knows it.
#[derive(Clone, Copy, Debug, PartialEq, Eq, Structural)]
pub enum Key {
    Char(char),
    Tab,
    BackTab,
    Other,
}

/// No modifier key is held.
pub const NO_MODIFIERS: u8 = 0;

/// The shift key is held, and no other modifier.
pub const SHIFT: u8 = 1;

/// The action that a key stands for, with the modifier keys held as a set of
/// bits. A key stands for an action only with exactly its own modifiers.
pub open spec fn key_action(key: Key, modifiers: u8) -> Option<UserAction> {
    if modifiers == NO_MODIFIERS {
        match key {
            Key::Char('q') => Some(UserAction::Quit),
            Key::Char('j') => Some(UserAction::MoveDown),
            Key::Char('k') => Some(UserAction::MoveUp),
            Key::Char('r') => Some(UserAction::OpenReader),
            Key::Tab => Some(UserAction::IncrementWindow),
            Key::Char('1') => Some(UserAction::JumpToWindow(0)),
            Key::Char('2') => Some(UserAction::JumpToWindow(1)),
            Key::Char('3') => Some(UserAction::JumpToWindow(2)),
            Key::Char('4') => Some(UserAction::JumpToWindow(3)),
            Key::Char('5') => Some(UserAction::JumpToWindow(4)),
            _ => None,
        }
    } else if modifiers == SHIFT {
        match key {
            Key::BackTab => Some(UserAction::DecrementWindow),
            _ => None,
        }
    } else {
        None
    }
}

/// The keys and the actions that they stand for.
#[derive(Clone, Copy, Debug)]
pub struct KeyMap {}

impl KeyMap {
    /// The key map of the application.
    pub fn default() -> (map: Self) {
        KeyMap {  }
    }

    /// The action that `key` stands for while `modifiers` are held.
    pub fn get(&self, key: &Key, modifiers: u8) -> (action: Option<UserAction>)
        ensures
            action == key_action(*key, modifiers),
    {
        if modifiers == NO_MODIFIERS {
            match *key {
                Key::Char(c) => {
                    if c == 'q' {
                        Some(UserAction::Quit)
                    } else if c == 'j' {
                        Some(UserAction::MoveDown)
                    } else if c == 'k' {
                        Some(UserAction::MoveUp)
                    } else if c == 'r' {
                        Some(UserAction::OpenReader)
                    } else if c == '1' {
                        Some(UserAction::JumpToWindow(0))
                    } else if c == '2' {
                        Some(UserAction::JumpToWindow(1))
                    } else if c == '3' {
                        Some(UserAction::JumpToWindow(2))
                    } else if c == '4' {
                        Some(UserAction::JumpToWindow(3))
                    } else if c == '5' {
                        Some(UserAction::JumpToWindow(4))
                    } else {
                        None
                    }
                },
                Key::Tab => Some(UserAction::IncrementWindow),
                _ => None,
            }
        } else if modifiers == SHIFT {
            match *key {
                Key::BackTab => Some(UserAction::DecrementWindow),
                _ => None,
            }
        } else {
            None
        }
    }
}

} // verus!
