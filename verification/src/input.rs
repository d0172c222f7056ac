//! Keys: which dialog takes them, what they do to its text, and what they ask for where no
//! dialog is open.

use crate::text::{chars_of, string_of};
use vstd::prelude::*;

verus! {

/// A key that was pressed.
pub enum KeyPress {
    Escape,
    Enter,
    Backspace,
    Tab,
    Delete,
    ArrowLeft,
    ArrowRight,
    ArrowUp,
    ArrowDown,
    Text(String),
    Other,
}

/// A key, as values.
pub ghost enum Pressed {
    Escape,
    Enter,
    Backspace,
    Tab,
    Delete,
    ArrowLeft,
    ArrowRight,
    ArrowUp,
    ArrowDown,
    Text(Seq<char>),
    Other,
}

impl KeyPress {
    pub open spec fn model(self) -> Pressed {
        match self {
            KeyPress::Escape => Pressed::Escape,
            KeyPress::Enter => Pressed::Enter,
            KeyPress::Backspace => Pressed::Backspace,
            KeyPress::Tab => Pressed::Tab,
            KeyPress::Delete => Pressed::Delete,
            KeyPress::ArrowLeft => Pressed::ArrowLeft,
            KeyPress::ArrowRight => Pressed::ArrowRight,
            KeyPress::ArrowUp => Pressed::ArrowUp,
            KeyPress::ArrowDown => Pressed::ArrowDown,
            KeyPress::Text(s) => Pressed::Text(s@),
            KeyPress::Other => Pressed::Other,
        }
    }
}

/// The keys that are held down.
#[derive(Clone, Copy, PartialEq, Eq, Structural, Debug)]
pub struct Modifiers {
    pub shift: bool,
    pub control: bool,
    pub alt: bool,
    pub command: bool,
}

impl Modifiers {
    /// A command is asked for, not a character.
    pub open spec fn spec_editing(self) -> bool {
        self.control || self.command
    }

    pub fn editing(self) -> (r: bool)
        ensures
            r == self.spec_editing(),
    {
        self.control || self.command
    }

    /// A click adds to what is selected.
    pub open spec fn spec_additive(self) -> bool {
        self.shift || self.control || self.command
    }

    pub fn additive(self) -> (r: bool)
        ensures
            r == self.spec_additive(),
    {
        self.shift || self.control || self.command
    }
}

/// What a key does in a dialog.
#[derive(Clone, Copy, PartialEq, Eq, Structural, Debug)]
pub enum Typing {
    /// The dialog is closed, and nothing comes of it.
    Cancel,
    /// What was typed is taken.
    Accept,
    /// The next field or choice is turned to.
    Turn,
    /// The text was changed, or could have been.
    Typed,
    /// The key means nothing here.
    Ignored,
}

/// What a key does in a dialog.
pub open spec fn typing(key: Pressed, editing: bool) -> Typing {
    match key {
        Pressed::Escape => Typing::Cancel,
        Pressed::Enter => Typing::Accept,
        Pressed::Tab => Typing::Turn,
        Pressed::Backspace => Typing::Typed,
        Pressed::Text(_) => if editing {
            Typing::Ignored
        } else {
            Typing::Typed
        },
        _ => Typing::Ignored,
    }
}

/// The text of a dialog after a key: one character less, or what was typed more.
pub open spec fn text_after(text: Seq<char>, key: Pressed, editing: bool) -> Seq<char> {
    match key {
        Pressed::Backspace => if text.len() > 0 {
            text.drop_last()
        } else {
            text
        },
        Pressed::Text(s) => if editing {
            text
        } else {
            text + s
        },
        _ => text,
    }
}

fn without_last(text: &String) -> (r: String)
    ensures
        r@ == (if text@.len() > 0 {
            text@.drop_last()
        } else {
            text@
        }),
{
    let chars = chars_of(text.as_str());
    if chars.len() == 0 {
        return text.clone();
    }
    let r = string_of(&chars, 0, chars.len() - 1);
    proof {
        assert(r@ =~= text@.drop_last());
    }
    r
}

/// What a key does in a dialog, and to its text.
pub fn type_key(text: &mut String, key: &KeyPress, modifiers: Modifiers) -> (r: Typing)
    ensures
        r == typing(key.model(), modifiers.spec_editing()),
        final(text)@ == text_after(old(text)@, key.model(), modifiers.spec_editing()),
{
    match key {
        KeyPress::Escape => Typing::Cancel,
        KeyPress::Enter => Typing::Accept,
        KeyPress::Tab => Typing::Turn,
        KeyPress::Backspace => {
            *text = without_last(text);
            Typing::Typed
        },
        KeyPress::Text(s) => {
            if modifiers.editing() {
                Typing::Ignored
            } else {
                text.append(s.as_str());
                Typing::Typed
            }
        },
        _ => Typing::Ignored,
    }
}

/// A character that was typed is taken back by one press of backspace.
pub proof fn backspace_takes_back_a_character(text: Seq<char>, c: char)
    ensures
        text_after(
            text_after(text, Pressed::Text(seq![c]), false),
            Pressed::Backspace,
            false,
        ) == text,
{
    assert((text + seq![c]).drop_last() =~= text);
}

/// A dialog that takes keys.
#[derive(Clone, Copy, PartialEq, Eq, Structural, Debug)]
pub enum Dialog {
    SheetPin,
    Sheet,
    Label,
    Property,
    Search,
}

/// Which dialogs are open, and what else decides what a key means.
#[derive(Clone, Copy, PartialEq, Eq, Structural, Debug)]
pub struct InputState {
    pub sheet_pin: bool,
    pub sheet: bool,
    pub label: bool,
    pub property: bool,
    pub search: bool,
    /// Some text is selected.
    pub text_selection: bool,
    /// Clicks select text.
    pub text_select_mode: bool,
    /// The summary of an external change is shown.
    pub external_preview: bool,
    /// A wire is being drawn.
    pub wire_draft: bool,
}

/// The dialog that takes the keys.
pub open spec fn open_dialog(s: InputState) -> Option<Dialog> {
    if s.sheet_pin {
        Some(Dialog::SheetPin)
    } else if s.sheet {
        Some(Dialog::Sheet)
    } else if s.label {
        Some(Dialog::Label)
    } else if s.property {
        Some(Dialog::Property)
    } else if s.search {
        Some(Dialog::Search)
    } else {
        None
    }
}

/// What a key asks for.
#[derive(Clone, Copy, PartialEq, Eq, Structural, Debug)]
pub enum KeyAction {
    CopyText,
    /// The key goes to a dialog.
    Dialog(Dialog),
    Commit,
    LeaveTextSelection,
    DismissPreview,
    CancelWire,
    ClearSelection,
    Delete,
    /// Moves what is selected by as many steps of the grid across and down.
    Nudge(i8, i8),
    Redo,
    Undo,
    Search,
    Duplicate,
    PreviousSheet,
    NextSheet,
    ZoomIn,
    ZoomOut,
    Fit,
    ToggleTheme,
    CycleGrid,
    ToggleSnap,
    EditProperty,
    /// Starts a wire, or a bus.
    StartWire(bool),
    PlaceJunction,
    PlaceNoConnect,
    StartLabel,
    TurnBusEntry,
    PlaceBusEntry,
    StartSheet,
    StartSheetPin,
    Reload,
    Rotate,
    MirrorX,
    MirrorY,
    Nothing,
}

/// The text is the letter, in either case.
pub open spec fn is_letter(text: Seq<char>, letter: char) -> bool {
    text.len() == 1 && crate::text::lower_char(text[0]) == letter
}

/// What a text key asks for where no dialog is open.
pub open spec fn letter_action(text: Seq<char>, m: Modifiers, wire_draft: bool) -> KeyAction {
    let editing = m.spec_editing();
    if editing && is_letter(text, 'z') {
        if m.shift {
            KeyAction::Redo
        } else {
            KeyAction::Undo
        }
    } else if editing && is_letter(text, 'y') {
        KeyAction::Redo
    } else if editing && is_letter(text, 'f') {
        KeyAction::Search
    } else if editing && is_letter(text, 'd') {
        KeyAction::Duplicate
    } else if text == seq!['+'] || text == seq!['='] {
        KeyAction::ZoomIn
    } else if text == seq!['-'] {
        KeyAction::ZoomOut
    } else if text == seq!['0'] {
        KeyAction::Fit
    } else if is_letter(text, 't') {
        KeyAction::ToggleTheme
    } else if is_letter(text, 'g') {
        KeyAction::CycleGrid
    } else if is_letter(text, 's') {
        KeyAction::ToggleSnap
    } else if is_letter(text, 'e') {
        KeyAction::EditProperty
    } else if !editing && is_letter(text, 'w') {
        KeyAction::StartWire(m.shift)
    } else if !editing && !wire_draft && is_letter(text, 'j') {
        KeyAction::PlaceJunction
    } else if !editing && !wire_draft && is_letter(text, 'q') {
        KeyAction::PlaceNoConnect
    } else if !editing && !wire_draft && is_letter(text, 'l') {
        KeyAction::StartLabel
    } else if !editing && !wire_draft && is_letter(text, 'b') {
        if m.shift {
            KeyAction::TurnBusEntry
        } else {
            KeyAction::PlaceBusEntry
        }
    } else if !editing && !wire_draft && is_letter(text, 'h') {
        KeyAction::StartSheet
    } else if !editing && !wire_draft && is_letter(text, 'p') {
        KeyAction::StartSheetPin
    } else if is_letter(text, 'r') {
        if m.shift && !editing {
            KeyAction::Rotate
        } else {
            KeyAction::Reload
        }
    } else if is_letter(text, 'x') {
        KeyAction::MirrorX
    } else if is_letter(text, 'y') {
        KeyAction::MirrorY
    } else {
        KeyAction::Nothing
    }
}

/// What a key asks for.
pub open spec fn key_action(key: Pressed, m: Modifiers, s: InputState) -> KeyAction {
    let editing = m.spec_editing();
    let copies = editing && s.text_selection && match key {
        Pressed::Text(text) => is_letter(text, 'c'),
        _ => false,
    };
    if copies {
        KeyAction::CopyText
    } else {
        match open_dialog(s) {
            Some(dialog) => KeyAction::Dialog(dialog),
            None => match key {
                Pressed::Enter => if editing {
                    KeyAction::Commit
                } else {
                    KeyAction::Nothing
                },
                Pressed::Escape => if s.text_select_mode || s.text_selection {
                    KeyAction::LeaveTextSelection
                } else if s.external_preview {
                    KeyAction::DismissPreview
                } else if s.wire_draft {
                    KeyAction::CancelWire
                } else {
                    KeyAction::ClearSelection
                },
                Pressed::Delete => KeyAction::Delete,
                Pressed::ArrowLeft => if editing {
                    KeyAction::Nudge((-1int) as i8, 0)
                } else {
                    KeyAction::PreviousSheet
                },
                Pressed::ArrowRight => if editing {
                    KeyAction::Nudge(1, 0)
                } else {
                    KeyAction::NextSheet
                },
                Pressed::ArrowUp => if editing {
                    KeyAction::Nudge(0, (-1int) as i8)
                } else {
                    KeyAction::Nothing
                },
                Pressed::ArrowDown => if editing {
                    KeyAction::Nudge(0, 1)
                } else {
                    KeyAction::Nothing
                },
                Pressed::Text(text) => letter_action(text, m, s.wire_draft),
                _ => KeyAction::Nothing,
            },
        }
    }
}

fn is_key(text: &String, letter: char) -> (r: bool)
    ensures
        r == is_letter(text@, letter),
{
    let chars = chars_of(text.as_str());
    chars.len() == 1 && lower(chars[0]) == letter
}

fn lower(c: char) -> (r: char)
    ensures
        r == crate::text::lower_char(c),
{
    if 'A' <= c && c <= 'Z' {
        (c as u8 + 32) as char
    } else {
        c
    }
}

fn is_sign(text: &String, sign: char) -> (r: bool)
    ensures
        r == (text@ == seq![sign]),
{
    let chars = chars_of(text.as_str());
    proof {
        if chars@.len() == 1 && chars@[0] == sign {
            assert(text@ =~= seq![sign]);
        }
    }
    chars.len() == 1 && chars[0] == sign
}

fn dispatch_letter(text: &String, m: Modifiers, wire_draft: bool) -> (r: KeyAction)
    ensures
        r == letter_action(text@, m, wire_draft),
{
    let editing = m.editing();
    let placing = !editing && !wire_draft;
    if editing && is_key(text, 'z') {
        if m.shift {
            KeyAction::Redo
        } else {
            KeyAction::Undo
        }
    } else if editing && is_key(text, 'y') {
        KeyAction::Redo
    } else if editing && is_key(text, 'f') {
        KeyAction::Search
    } else if editing && is_key(text, 'd') {
        KeyAction::Duplicate
    } else if is_sign(text, '+') || is_sign(text, '=') {
        KeyAction::ZoomIn
    } else if is_sign(text, '-') {
        KeyAction::ZoomOut
    } else if is_sign(text, '0') {
        KeyAction::Fit
    } else if is_key(text, 't') {
        KeyAction::ToggleTheme
    } else if is_key(text, 'g') {
        KeyAction::CycleGrid
    } else if is_key(text, 's') {
        KeyAction::ToggleSnap
    } else if is_key(text, 'e') {
        KeyAction::EditProperty
    } else if !editing && is_key(text, 'w') {
        KeyAction::StartWire(m.shift)
    } else if placing && is_key(text, 'j') {
        KeyAction::PlaceJunction
    } else if placing && is_key(text, 'q') {
        KeyAction::PlaceNoConnect
    } else if placing && is_key(text, 'l') {
        KeyAction::StartLabel
    } else if placing && is_key(text, 'b') {
        if m.shift {
            KeyAction::TurnBusEntry
        } else {
            KeyAction::PlaceBusEntry
        }
    } else if placing && is_key(text, 'h') {
        KeyAction::StartSheet
    } else if placing && is_key(text, 'p') {
        KeyAction::StartSheetPin
    } else if is_key(text, 'r') {
        if m.shift && !editing {
            KeyAction::Rotate
        } else {
            KeyAction::Reload
        }
    } else if is_key(text, 'x') {
        KeyAction::MirrorX
    } else if is_key(text, 'y') {
        KeyAction::MirrorY
    } else {
        KeyAction::Nothing
    }
}

fn find_dialog(s: InputState) -> (r: Option<Dialog>)
    ensures
        r == open_dialog(s),
{
    if s.sheet_pin {
        Some(Dialog::SheetPin)
    } else if s.sheet {
        Some(Dialog::Sheet)
    } else if s.label {
        Some(Dialog::Label)
    } else if s.property {
        Some(Dialog::Property)
    } else if s.search {
        Some(Dialog::Search)
    } else {
        None
    }
}

/// What a key asks for: to copy selected text first of all, else what the open dialog makes of
/// it, else a command of its own.
pub fn dispatch_key(key: &KeyPress, modifiers: Modifiers, state: InputState) -> (r: KeyAction)
    ensures
        r == key_action(key.model(), modifiers, state),
{
    let editing = modifiers.editing();
    if editing && state.text_selection {
        if let KeyPress::Text(text) = key {
            if is_key(text, 'c') {
                return KeyAction::CopyText;
            }
        }
    }
    if let Some(dialog) = find_dialog(state) {
        return KeyAction::Dialog(dialog);
    }
    match key {
        KeyPress::Enter => if editing {
            KeyAction::Commit
        } else {
            KeyAction::Nothing
        },
        KeyPress::Escape => if state.text_select_mode || state.text_selection {
            KeyAction::LeaveTextSelection
        } else if state.external_preview {
            KeyAction::DismissPreview
        } else if state.wire_draft {
            KeyAction::CancelWire
        } else {
            KeyAction::ClearSelection
        },
        KeyPress::Delete => KeyAction::Delete,
        KeyPress::ArrowLeft => if editing {
            KeyAction::Nudge(-1, 0)
        } else {
            KeyAction::PreviousSheet
        },
        KeyPress::ArrowRight => if editing {
            KeyAction::Nudge(1, 0)
        } else {
            KeyAction::NextSheet
        },
        KeyPress::ArrowUp => if editing {
            KeyAction::Nudge(0, -1)
        } else {
            KeyAction::Nothing
        },
        KeyPress::ArrowDown => if editing {
            KeyAction::Nudge(0, 1)
        } else {
            KeyAction::Nothing
        },
        KeyPress::Text(text) => dispatch_letter(text, modifiers, state.wire_draft),
        _ => KeyAction::Nothing,
    }
}

/// While a dialog is open no key changes the schematic: all go to the dialog, but for the
/// command that copies selected text.
pub proof fn dialogs_take_all_keys(key: Pressed, m: Modifiers, s: InputState)
    requires
        open_dialog(s) is Some,
    ensures
        key_action(key, m, s) == KeyAction::CopyText || key_action(key, m, s) == KeyAction::Dialog(
            open_dialog(s)->Some_0,
        ),
{
}

/// The letter that asks for a reload asks for it with no key held and with the key of commands, and
/// turns the selection with Shift alone; nothing else turns it.
pub proof fn the_reload_letter_reloads(key: Pressed, m: Modifiers, s: InputState)
    requires
        open_dialog(s) is None,
    ensures
        (key matches Pressed::Text(text) && is_letter(text, 'r')) ==> key_action(key, m, s) == (
        if m.shift && !m.spec_editing() {
            KeyAction::Rotate
        } else {
            KeyAction::Reload
        }),
        key_action(key, m, s) == KeyAction::Rotate ==> m.shift && !m.spec_editing(),
{
}

/// Where no dialog is open, the arrows open the sheet before and the sheet after, and the nought
/// fits the page to the window.
pub proof fn arrows_turn_pages_and_nought_fits(m: Modifiers, s: InputState)
    requires
        open_dialog(s) is None,
    ensures
        !m.spec_editing() ==> key_action(Pressed::ArrowLeft, m, s) == KeyAction::PreviousSheet,
        !m.spec_editing() ==> key_action(Pressed::ArrowRight, m, s) == KeyAction::NextSheet,
        key_action(Pressed::Text(seq!['0']), m, s) == KeyAction::Fit,
{
    assert(seq!['0'][0] == '0');
    assert(seq!['+'][0] == '+');
    assert(seq!['='][0] == '=');
    assert(seq!['-'][0] == '-');
}

} // verus!
