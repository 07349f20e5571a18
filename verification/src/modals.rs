//! The dialogs over the screens: shortcut help and About.

use vstd::prelude::*;

use crate::text::str_is;

verus! {

/// Keyboard shortcuts in the help: keys and what they do.
pub const KEYBOARD_ROWS: [(&'static str, &'static str); 11] = [
    ("← → ↑ ↓", "move the cursor"),
    ("1 … 5", "label red / yellow / green / blue / purple"),
    ("0", "clear the label"),
    ("[ · ]", "rotate left / right (persisted)"),
    ("Tab", "toggle auto-advance after labeling"),
    ("Enter · Esc", "loupe ⇄ contact sheet"),
    ("Space", "loupe: fit ↔ 100% · sheet: open the loupe"),
    ("Ctrl+A · Shift+A", "select all / none"),
    ("Ctrl+E", "export originals (selection · filtered view)"),
    ("F", "cycle filter preset: All → Labeled → Unlabeled"),
    ("?", "this overlay"),
];

/// Mouse gestures in the help: gesture and what it does.
pub const MOUSE_ROWS: [(&'static str, &'static str); 8] = [
    ("Click", "focus + select a tile"),
    ("Ctrl-click", "toggle a tile in the selection"),
    ("Shift-click", "select the range from the anchor"),
    ("Drag", "rubber-band selection"),
    ("Double-click", "open the loupe"),
    ("Wheel", "scroll the sheet"),
    ("Ctrl+Wheel", "cell size"),
    ("Loupe wheel / drag", "zoom toward cursor / pan"),
];

/// Keys that matter to the help.
#[derive(Clone, Copy, Debug, PartialEq, Eq, Structural)]
pub enum HelpKey {
    /// The slash key.
    Slash,
    /// A key of its own for the question mark.
    Questionmark,
    /// Any other key.
    Other,
}

/// A raw input event, as far as the help cares.
#[derive(Debug)]
pub enum InputEvent {
    /// Text was typed.
    Text(String),
    /// A key went down or came up.
    Key { key: HelpKey, pressed: bool, shift: bool },
    /// Anything else.
    Other,
}

/// The event is a typed question mark: as text, as Shift with the slash key,
/// or as a key of its own.
pub open spec fn asks_for_help(event: InputEvent) -> bool {
    match event {
        InputEvent::Text(text) => text@ == "?"@,
        InputEvent::Key { key, pressed, shift } => pressed && (key == HelpKey::Questionmark || key == HelpKey::Slash
            && shift),
        InputEvent::Other => false,
    }
}

/// Whether an event is a typed question mark.
pub fn is_question_event(event: &InputEvent) -> (r: bool)
    ensures
        r == asks_for_help(*event),
{
    match event {
        InputEvent::Text(text) => str_is(text.as_str(), "?"),
        InputEvent::Key { key, pressed, shift } => *pressed && (*key == HelpKey::Questionmark || *key == HelpKey::Slash
            && *shift),
        InputEvent::Other => false,
    }
}

/// Whether a question mark was typed this frame.
pub fn question_pressed(events: &Vec<InputEvent>) -> (r: bool)
    ensures
        r == exists|i: int| 0 <= i < events@.len() && asks_for_help(#[trigger] events@[i]),
{
    let mut i: usize = 0;
    while i < events.len()
        invariant
            i <= events.len(),
            forall|k: int| 0 <= k < i ==> !asks_for_help(#[trigger] events@[k]),
        decreases events.len() - i,
    {
        if is_question_event(&events[i]) {
            return true;
        }
        i = i + 1;
    }
    false
}

/// Which dialogs are open.
#[derive(Clone, Copy, Debug, PartialEq, Eq, Structural)]
pub struct Modals {
    /// The shortcut help.
    pub help: bool,
    /// The About dialog.
    pub about: bool,
}

impl Default for Modals {
    fn default() -> (modals: Self)
        ensures
            modals == (Modals { help: false, about: false }),
    {
        Modals { help: false, about: false }
    }
}

impl Modals {
    /// Whether a dialog covers the screen.
    pub fn any(&self) -> (r: bool)
        ensures
            r == (self.help || self.about),
    {
        self.help || self.about
    }

    /// Opens the About dialog.
    pub fn open_about(&mut self)
        ensures
            *final(self) == (Modals { about: true, ..*old(self) }),
    {
        self.about = true;
    }

    /// Takes in the keys of a frame before the screens see them: a question
    /// mark opens or closes the help, Escape closes whatever is open. Says
    /// whether Escape was used up that way.
    pub fn pump_input(&mut self, question: bool, escape: bool) -> (used_escape: bool)
        ensures
            (*final(self), used_escape) == after_keys(*old(self), question, escape),
    {
        if question {
            self.help = !self.help;
        }
        if escape && self.any() {
            self.help = false;
            self.about = false;
            return true;
        }
        false
    }

    /// Takes in what was clicked in the open dialogs.
    pub fn settle(&mut self, help_dismissed: bool, about_wanted: bool, about_dismissed: bool)
        ensures
            ({
                let about = old(self).about || old(self).help && about_wanted;
                *final(self) == (Modals {
                    help: old(self).help && !help_dismissed,
                    about: about && !about_dismissed,
                })
            }),
    {
        if self.help {
            if about_wanted {
                self.about = true;
            }
            if help_dismissed {
                self.help = false;
            }
        }
        if about_dismissed {
            self.about = false;
        }
    }
}

/// The dialogs after a frame of keys, and whether Escape was used up.
pub open spec fn after_keys(before: Modals, question: bool, escape: bool) -> (Modals, bool) {
    let help = before.help != question;
    if escape && (help || before.about) {
        (Modals { help: false, about: false }, true)
    } else {
        (Modals { help, about: before.about }, false)
    }
}

/// After Escape no dialog is open, and it is used up exactly if one was: a
/// second Escape is left to the screen underneath.
pub proof fn escape_closes_every_dialog(before: Modals)
    ensures
        after_keys(before, false, true).0 == (Modals { help: false, about: false }),
        after_keys(before, false, true).1 == (before.help || before.about),
        !after_keys(after_keys(before, false, true).0, false, true).1,
{
}

} // verus!
