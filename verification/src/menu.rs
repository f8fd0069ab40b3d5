//! The main menu: its entries, which of them are locked until the first
//! calibration, and how key signals move the focus and select entries.
//! Rendering happens in the application.

use vstd::prelude::*;

use crate::keyboard::{signal_of, KeyPress, KeyboardSignal};

verus! {

/// One selectable entry in the main menu.
#[derive(Debug, Clone, Copy, PartialEq, Eq, Structural)]
pub enum MenuEntry {
    TapAlong,
    QuietFour,
    Tuplets,
    RhythmReader,
    Calibrate,
    Quit,
}

/// Number of menu entries.
pub const MENU_ENTRY_COUNT: usize = 6;

/// The entries in menu order.
pub open spec fn entry_at(index: int) -> MenuEntry {
    if index == 0 {
        MenuEntry::TapAlong
    } else if index == 1 {
        MenuEntry::QuietFour
    } else if index == 2 {
        MenuEntry::Tuplets
    } else if index == 3 {
        MenuEntry::RhythmReader
    } else if index == 4 {
        MenuEntry::Calibrate
    } else {
        MenuEntry::Quit
    }
}

/// Position of an entry in the menu.
pub open spec fn index_of(entry: MenuEntry) -> int {
    match entry {
        MenuEntry::TapAlong => 0,
        MenuEntry::QuietFour => 1,
        MenuEntry::Tuplets => 2,
        MenuEntry::RhythmReader => 3,
        MenuEntry::Calibrate => 4,
        MenuEntry::Quit => 5,
    }
}

/// The single-letter shortcut of an entry. Not always the first letter:
/// `q` is taken by the global quit key, so Quiet Four uses `f` ("Four");
/// `j`/`k`/`m`/space are reserved too.
pub open spec fn shortcut_of(entry: MenuEntry) -> char {
    match entry {
        MenuEntry::TapAlong => 't',
        MenuEntry::QuietFour => 'f',
        MenuEntry::Tuplets => 'u',
        MenuEntry::RhythmReader => 'r',
        MenuEntry::Calibrate => 'c',
        MenuEntry::Quit => 'q',
    }
}

/// The exercise modes, which stay locked until a calibration exists.
pub open spec fn needs_calibration(entry: MenuEntry) -> bool {
    entry is TapAlong || entry is QuietFour || entry is Tuplets || entry is RhythmReader
}

/// The display label of an entry.
pub open spec fn label_text(entry: MenuEntry, is_calibrated: bool) -> Seq<char> {
    match entry {
        MenuEntry::TapAlong => "Tap Along"@,
        MenuEntry::QuietFour => "Quiet Four"@,
        MenuEntry::Tuplets => "Tuplets"@,
        MenuEntry::RhythmReader => "Rhythm Reader"@,
        MenuEntry::Calibrate => if is_calibrated {
            "Redo calibration"@
        } else {
            "Run calibration"@
        },
        MenuEntry::Quit => "Quit"@,
    }
}

/// What the player chose from the main menu.
#[derive(Debug, Clone, Copy, PartialEq, Eq, Structural)]
pub enum MenuOutcome {
    Selected(MenuEntry),
    Quit,
}

/// What selecting `entry` leads to: Quit always quits, locked modes do
/// nothing, everything else is selected.
pub open spec fn selection_of(entry: MenuEntry, is_calibrated: bool) -> Option<MenuOutcome> {
    if entry == MenuEntry::Quit {
        Some(MenuOutcome::Quit)
    } else if !needs_calibration(entry) || is_calibrated {
        Some(MenuOutcome::Selected(entry))
    } else {
        None
    }
}

/// The entry whose shortcut is `c`, if any.
pub open spec fn entry_for_shortcut(c: char) -> Option<MenuEntry> {
    if c == 't' {
        Some(MenuEntry::TapAlong)
    } else if c == 'f' {
        Some(MenuEntry::QuietFour)
    } else if c == 'u' {
        Some(MenuEntry::Tuplets)
    } else if c == 'r' {
        Some(MenuEntry::RhythmReader)
    } else if c == 'c' {
        Some(MenuEntry::Calibrate)
    } else if c == 'q' {
        Some(MenuEntry::Quit)
    } else {
        None
    }
}

impl MenuEntry {
    /// The entry at `index` in menu order.
    pub fn at(index: usize) -> (entry: MenuEntry)
        requires
            index < MENU_ENTRY_COUNT,
        ensures
            entry == entry_at(index as int),
            index_of(entry) == index,
    {
        match index {
            0 => MenuEntry::TapAlong,
            1 => MenuEntry::QuietFour,
            2 => MenuEntry::Tuplets,
            3 => MenuEntry::RhythmReader,
            4 => MenuEntry::Calibrate,
            _ => MenuEntry::Quit,
        }
    }

    /// Position of this entry in the menu.
    pub fn index(&self) -> (index: usize)
        ensures
            index == index_of(*self),
            index < MENU_ENTRY_COUNT,
    {
        match self {
            MenuEntry::TapAlong => 0,
            MenuEntry::QuietFour => 1,
            MenuEntry::Tuplets => 2,
            MenuEntry::RhythmReader => 3,
            MenuEntry::Calibrate => 4,
            MenuEntry::Quit => 5,
        }
    }

    /// The entry's display label. The calibration entry reads "Run
    /// calibration" the first time and "Redo calibration" afterwards.
    pub fn label(&self, is_calibrated: bool) -> (label: String)
        ensures
            label@ == label_text(*self, is_calibrated),
    {
        broadcast use vstd::string::group_string_axioms;

        match self {
            MenuEntry::TapAlong => "Tap Along".to_string(),
            MenuEntry::QuietFour => "Quiet Four".to_string(),
            MenuEntry::Tuplets => "Tuplets".to_string(),
            MenuEntry::RhythmReader => "Rhythm Reader".to_string(),
            MenuEntry::Calibrate => {
                if is_calibrated {
                    "Redo calibration".to_string()
                } else {
                    "Run calibration".to_string()
                }
            },
            MenuEntry::Quit => "Quit".to_string(),
        }
    }

    /// The single-letter direct shortcut for this entry.
    pub fn shortcut(&self) -> (c: char)
        ensures
            c == shortcut_of(*self),
    {
        match self {
            MenuEntry::TapAlong => 't',
            MenuEntry::QuietFour => 'f',
            MenuEntry::Tuplets => 'u',
            MenuEntry::RhythmReader => 'r',
            MenuEntry::Calibrate => 'c',
            MenuEntry::Quit => 'q',
        }
    }

    /// The entry (if any) whose shortcut is `c` (already lower-cased).
    pub fn by_shortcut(c: char) -> (entry: Option<MenuEntry>)
        ensures
            entry == entry_for_shortcut(c),
    {
        let mut index: usize = 0;
        while index < MENU_ENTRY_COUNT
            invariant
                index <= MENU_ENTRY_COUNT,
                forall|i: int| 0 <= i < index ==> shortcut_of(#[trigger] entry_at(i)) != c,
            decreases MENU_ENTRY_COUNT - index,
        {
            let entry = MenuEntry::at(index);
            if entry.shortcut() == c {
                return Some(entry);
            }
            index = index + 1;
        }
        assert(shortcut_of(entry_at(0)) != c && shortcut_of(entry_at(1)) != c && shortcut_of(
            entry_at(2),
        ) != c && shortcut_of(entry_at(3)) != c && shortcut_of(entry_at(4)) != c
            && shortcut_of(entry_at(5)) != c);
        None
    }

    /// Entries that require a calibration before they can be selected.
    pub fn requires_calibration(&self) -> (locked_without_calibration: bool)
        ensures
            locked_without_calibration == needs_calibration(*self),
    {
        match self {
            MenuEntry::TapAlong | MenuEntry::QuietFour | MenuEntry::Tuplets
            | MenuEntry::RhythmReader => true,
            MenuEntry::Calibrate | MenuEntry::Quit => false,
        }
    }
}

/// Selection logic shared by Enter on the focused entry and by direct
/// shortcuts: quit always succeeds, locked mode entries are a no-op
/// (`None`), everything else resolves to [`MenuOutcome::Selected`].
pub fn try_select(entry: MenuEntry, is_calibrated: bool) -> (outcome: Option<MenuOutcome>)
    ensures
        outcome == selection_of(entry, is_calibrated),
{
    if entry == MenuEntry::Quit {
        return Some(MenuOutcome::Quit);
    }
    if !entry.requires_calibration() || is_calibrated {
        return Some(MenuOutcome::Selected(entry));
    }
    None
}

/// The menu's focus after `signal`, and what (if anything) it selects.
pub open spec fn menu_step(focused: int, signal: KeyboardSignal, is_calibrated: bool) -> (
    int,
    Option<MenuOutcome>,
) {
    match signal {
        KeyboardSignal::Up => (
            if focused == 0 {
                MENU_ENTRY_COUNT - 1
            } else {
                focused - 1
            },
            None,
        ),
        KeyboardSignal::Down => ((focused + 1) % (MENU_ENTRY_COUNT as int), None),
        KeyboardSignal::Select | KeyboardSignal::Tap(_) => (
            focused,
            selection_of(entry_at(focused), is_calibrated),
        ),
        KeyboardSignal::Shortcut(c) => match entry_for_shortcut(c) {
            Some(entry) => (index_of(entry), selection_of(entry, is_calibrated)),
            None => (focused, None),
        },
        KeyboardSignal::Quit => (focused, Some(MenuOutcome::Quit)),
        KeyboardSignal::BackToMenu => (focused, None),
    }
}

/// The focus of the main menu.
#[derive(Debug, Clone, Copy)]
pub struct MenuState {
    focused: usize,
}

impl MenuState {
    #[verifier::type_invariant]
    spec fn focus_in_range(self) -> bool {
        self.focused < MENU_ENTRY_COUNT
    }

    /// Index of the focused entry.
    pub closed spec fn spec_focused(self) -> int {
        self.focused as int
    }

    /// Focus on the first entry.
    pub fn new() -> (state: Self)
        ensures
            state.spec_focused() == 0,
    {
        MenuState { focused: 0 }
    }

    /// Index of the focused entry.
    pub fn focused(&self) -> (index: usize)
        ensures
            index == self.spec_focused(),
            index < MENU_ENTRY_COUNT,
    {
        proof {
            use_type_invariant(self);
        }
        self.focused
    }

    /// Applies one key signal: Up/Down (or k/j) move the focus with
    /// wrap-around, Enter (or SPACE) selects the focused entry, a letter
    /// jumps to and selects its entry, Quit quits. Returns what was chosen,
    /// if anything; locked entries are not selectable.
    pub fn handle(&mut self, signal: KeyboardSignal, is_calibrated: bool) -> (outcome: Option<
        MenuOutcome,
    >)
        ensures
            (final(self).spec_focused(), outcome) == menu_step(
                old(self).spec_focused(),
                signal,
                is_calibrated,
            ),
    {
        proof {
            use_type_invariant(&*self);
        }
        let focused = self.focused;
        match signal {
            KeyboardSignal::Up => {
                let next = if focused == 0 {
                    MENU_ENTRY_COUNT - 1
                } else {
                    focused - 1
                };
                self.focused = next;
                None
            },
            KeyboardSignal::Down => {
                self.focused = (focused + 1) % MENU_ENTRY_COUNT;
                None
            },
            KeyboardSignal::Select | KeyboardSignal::Tap(_) => {
                try_select(MenuEntry::at(focused), is_calibrated)
            },
            KeyboardSignal::Shortcut(c) => {
                match MenuEntry::by_shortcut(c) {
                    Some(entry) => {
                        self.focused = entry.index();
                        try_select(entry, is_calibrated)
                    },
                    None => None,
                }
            },
            KeyboardSignal::Quit => Some(MenuOutcome::Quit),
            KeyboardSignal::BackToMenu => None,
        }
    }
}

/// Down then Up (and Up then Down) brings the focus back where it was:
/// moving wraps around at both ends of the list.
pub proof fn lemma_up_undoes_down(focused: int, is_calibrated: bool)
    requires
        0 <= focused < MENU_ENTRY_COUNT,
    ensures
        menu_step(menu_step(focused, KeyboardSignal::Down, is_calibrated).0, KeyboardSignal::Up, is_calibrated).0
            == focused,
        menu_step(menu_step(focused, KeyboardSignal::Up, is_calibrated).0, KeyboardSignal::Down, is_calibrated).0
            == focused,
{
}

/// Moving the focus never selects anything and keeps it on an entry.
pub proof fn lemma_moving_selects_nothing(focused: int, is_calibrated: bool)
    requires
        0 <= focused < MENU_ENTRY_COUNT,
    ensures
        menu_step(focused, KeyboardSignal::Up, is_calibrated).1 is None,
        menu_step(focused, KeyboardSignal::Down, is_calibrated).1 is None,
        0 <= menu_step(focused, KeyboardSignal::Up, is_calibrated).0 < MENU_ENTRY_COUNT,
        0 <= menu_step(focused, KeyboardSignal::Down, is_calibrated).0 < MENU_ENTRY_COUNT,
{
}

/// Each entry's shortcut leads back to that entry, so no two entries share
/// a shortcut, and the entry at each position is at that position.
pub proof fn lemma_shortcuts_identify_entries(entry: MenuEntry)
    ensures
        entry_for_shortcut(shortcut_of(entry)) == Some(entry),
        entry_at(index_of(entry)) == entry,
        0 <= index_of(entry) < MENU_ENTRY_COUNT,
{
}

/// The exercise modes stay locked until a calibration exists: before it
/// selecting one does nothing, afterwards it is selected. Calibration and
/// Quit are always available.
pub proof fn lemma_modes_locked_until_calibrated(entry: MenuEntry)
    ensures
        needs_calibration(entry) ==> selection_of(entry, false) is None,
        entry != MenuEntry::Quit ==> selection_of(entry, true) == Some(MenuOutcome::Selected(entry)),
        !needs_calibration(entry) ==> selection_of(entry, false) is Some,
{
}

/// The quit key quits from anywhere in the menu, calibrated or not.
pub proof fn lemma_quit_always_quits(focused: int, is_calibrated: bool)
    ensures
        menu_step(focused, KeyboardSignal::Quit, is_calibrated).1 == Some(MenuOutcome::Quit),
{
}

/// Typing an entry's shortcut letter on the keyboard chooses that entry
/// once calibrated: it moves the focus onto the entry and selects it
/// (for Quit, the letter is the global quit key and quits).
pub proof fn lemma_typed_shortcut_chooses_entry(entry: MenuEntry, focused: int, at: u64)
    ensures
        signal_of(KeyPress::Char(shortcut_of(entry)), false, at) is Some,
        menu_step(focused, signal_of(KeyPress::Char(shortcut_of(entry)), false, at)->0, true).1
            == selection_of(entry, true),
        entry != MenuEntry::Quit ==> menu_step(
            focused,
            signal_of(KeyPress::Char(shortcut_of(entry)), false, at)->0,
            true,
        ).0 == index_of(entry),
{
}

} // verus!
