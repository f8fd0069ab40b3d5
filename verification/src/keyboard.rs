//! Keyboard input: which key press becomes which signal.
//!
//! Polling the terminal for key events happens on a background thread in
//! the application; each press is handed here as a [`KeyPress`] and turned
//! into a [`KeyboardSignal`] (or ignored).

use vstd::prelude::*;

use crate::evaluator::TimingEvent;

verus! {

/// The key the player presses to register a tap: the space bar, a large
/// target that is easy to hit repeatedly without looking.
pub const TAP_KEY: char = ' ';

/// Signals coming out of the keyboard thread.
#[derive(Debug, Clone, Copy, PartialEq, Eq, Structural)]
pub enum KeyboardSignal {
    /// A tap, timestamped against the process-wide clock.
    Tap(TimingEvent),
    /// Esc, `q` or Ctrl+C.
    Quit,
    /// Arrow up or `k`.
    Up,
    /// Arrow down or `j`.
    Down,
    /// Enter.
    Select,
    /// `m`: back to the main menu.
    BackToMenu,
    /// Any other letter, lower-cased: a direct menu shortcut.
    Shortcut(char),
}

/// A key press, as read from the terminal.
#[derive(Debug, Clone, Copy, PartialEq, Eq, Structural)]
pub enum KeyPress {
    Char(char),
    Esc,
    Enter,
    Up,
    Down,
    /// Any key without a meaning here.
    Other,
}

pub open spec fn is_ascii_letter(c: char) -> bool {
    ('a' <= c <= 'z') || ('A' <= c <= 'Z')
}

/// `c` lower-cased, for ASCII letters.
pub open spec fn ascii_lower(c: char) -> char {
    if 'A' <= c <= 'Z' {
        ((c as u32) + 32) as char
    } else {
        c
    }
}

/// The signal a key press (with or without the Control modifier) at time
/// `at` gives.
pub open spec fn signal_of(key: KeyPress, control: bool, at: u64) -> Option<KeyboardSignal> {
    match key {
        KeyPress::Char(c) => if c == TAP_KEY {
            Some(KeyboardSignal::Tap(TimingEvent { at }))
        } else if c == 'q' || (c == 'c' && control) {
            Some(KeyboardSignal::Quit)
        } else if c == 'k' {
            Some(KeyboardSignal::Up)
        } else if c == 'j' {
            Some(KeyboardSignal::Down)
        } else if c == 'm' {
            Some(KeyboardSignal::BackToMenu)
        } else if is_ascii_letter(c) {
            Some(KeyboardSignal::Shortcut(ascii_lower(c)))
        } else {
            None
        },
        KeyPress::Esc => Some(KeyboardSignal::Quit),
        KeyPress::Enter => Some(KeyboardSignal::Select),
        KeyPress::Up => Some(KeyboardSignal::Up),
        KeyPress::Down => Some(KeyboardSignal::Down),
        KeyPress::Other => None,
    }
}

/// The signal for a key press at `at` (nanoseconds on the process-wide
/// clock), or `None` for keys without a meaning.
pub fn signal_for_key(key: KeyPress, control: bool, at: u64) -> (signal: Option<KeyboardSignal>)
    ensures
        signal == signal_of(key, control, at),
{
    match key {
        KeyPress::Char(c) => {
            if c == TAP_KEY {
                Some(KeyboardSignal::Tap(TimingEvent { at }))
            } else if c == 'q' || (c == 'c' && control) {
                Some(KeyboardSignal::Quit)
            } else if c == 'k' {
                Some(KeyboardSignal::Up)
            } else if c == 'j' {
                Some(KeyboardSignal::Down)
            } else if c == 'm' {
                Some(KeyboardSignal::BackToMenu)
            } else if 'a' <= c && c <= 'z' {
                Some(KeyboardSignal::Shortcut(c))
            } else if 'A' <= c && c <= 'Z' {
                Some(KeyboardSignal::Shortcut(((c as u8) + 32) as char))
            } else {
                None
            }
        },
        KeyPress::Esc => Some(KeyboardSignal::Quit),
        KeyPress::Enter => Some(KeyboardSignal::Select),
        KeyPress::Up => Some(KeyboardSignal::Up),
        KeyPress::Down => Some(KeyboardSignal::Down),
        KeyPress::Other => None,
    }
}

/// A menu shortcut letter typed in either case reaches the menu as that
/// shortcut, as long as it is not one of the letters the keyboard reserves
/// (`q`, `k`, `j`, `m`).
pub proof fn lemma_letters_become_shortcuts(c: char, control: bool, at: u64)
    requires
        'a' <= c <= 'z',
        c != 'q' && c != 'k' && c != 'j' && c != 'm',
        !(c == 'c' && control),
    ensures
        signal_of(KeyPress::Char(c), control, at) == Some(KeyboardSignal::Shortcut(c)),
        signal_of(KeyPress::Char(((c as u32) - 32) as char), false, at) == Some(
            KeyboardSignal::Shortcut(c),
        ),
{
}

/// The tap key always becomes a tap carrying the press time.
pub proof fn lemma_space_is_a_tap(control: bool, at: u64)
    ensures
        signal_of(KeyPress::Char(TAP_KEY), control, at) == Some(
            KeyboardSignal::Tap(TimingEvent { at }),
        ),
{
}

} // verus!
