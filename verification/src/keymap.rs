//! The keyboard: the editor's own bindings and the window-wide shortcuts.

use vstd::prelude::*;

verus! {

/// A key as the keyboard reports it: the character it types, or a named
/// key.
#[derive(Debug, Clone, Copy, PartialEq, Eq, Structural)]
pub enum Key {
    Character(char),
    Backspace,
    Tab,
    Escape,
    ArrowUp,
    ArrowDown,
    Other,
}

/// The modifier keys held.
#[derive(Debug, Clone, Copy, PartialEq, Eq, Structural)]
pub struct Modifiers {
    pub control: bool,
    pub shift: bool,
    pub alt: bool,
    pub logo: bool,
}

/// What the editor's own bindings do.
#[derive(Debug, Clone, Copy, PartialEq, Eq, Structural)]
pub enum EditorBinding {
    Save,
    Undo,
    Redo,
    NextParagraph,
    PrevParagraph,
    WordRight,
    WordLeft,
    DeleteSentence,
    DeleteWord,
    PhantomAccept,
}

/// The editor keymap; keys it does not claim keep the widget's defaults.
/// CTRL+S saves, CTRL+Z undoes (with SHIFT: redoes), CTRL+Y redoes,
/// ALT+N goes to the next paragraph (with SHIFT: the previous one),
/// ALT+W / ALT+B move by word, SHIFT+BACKSPACE deletes the sentence,
/// CTRL+BACKSPACE the word, and a bare TAB accepts a phantom.
pub open spec fn binding(key: Key, m: Modifiers) -> Option<EditorBinding> {
    match key {
        Key::Character(c) => if c == 's' && m.control {
            Some(EditorBinding::Save)
        } else if c == 'z' && m.control && m.shift {
            Some(EditorBinding::Redo)
        } else if c == 'z' && m.control {
            Some(EditorBinding::Undo)
        } else if c == 'y' && m.control {
            Some(EditorBinding::Redo)
        } else if c == 'n' && m.alt && m.shift {
            Some(EditorBinding::PrevParagraph)
        } else if c == 'n' && m.alt {
            Some(EditorBinding::NextParagraph)
        } else if c == 'w' && m.alt {
            Some(EditorBinding::WordRight)
        } else if c == 'b' && m.alt {
            Some(EditorBinding::WordLeft)
        } else {
            None
        },
        Key::Backspace => if m.shift {
            Some(EditorBinding::DeleteSentence)
        } else if m.control {
            Some(EditorBinding::DeleteWord)
        } else {
            None
        },
        Key::Tab => if !m.control && !m.shift && !m.alt && !m.logo {
            Some(EditorBinding::PhantomAccept)
        } else {
            None
        },
        _ => None,
    }
}

/// The editor binding for a key press, if the editor claims it.
pub fn custom_binding(key: Key, m: Modifiers) -> (r: Option<EditorBinding>)
    ensures
        r == binding(key, m),
{
    match key {
        Key::Character(c) => if c == 's' && m.control {
            Some(EditorBinding::Save)
        } else if c == 'z' && m.control && m.shift {
            Some(EditorBinding::Redo)
        } else if c == 'z' && m.control {
            Some(EditorBinding::Undo)
        } else if c == 'y' && m.control {
            Some(EditorBinding::Redo)
        } else if c == 'n' && m.alt && m.shift {
            Some(EditorBinding::PrevParagraph)
        } else if c == 'n' && m.alt {
            Some(EditorBinding::NextParagraph)
        } else if c == 'w' && m.alt {
            Some(EditorBinding::WordRight)
        } else if c == 'b' && m.alt {
            Some(EditorBinding::WordLeft)
        } else {
            None
        },
        Key::Backspace => if m.shift {
            Some(EditorBinding::DeleteSentence)
        } else if m.control {
            Some(EditorBinding::DeleteWord)
        } else {
            None
        },
        Key::Tab => if !m.control && !m.shift && !m.alt && !m.logo {
            Some(EditorBinding::PhantomAccept)
        } else {
            None
        },
        _ => None,
    }
}

/// A direction through a list or the panes.
#[derive(Debug, Clone, Copy, PartialEq, Eq, Structural)]
pub enum Step {
    Next,
    Prev,
}

/// CTRL+TAB (with SHIFT: backwards) cycles the panes when no widget took
/// the key (notably in a fullscreen preview).
pub fn pane_cycle_shortcut(key: Key, m: Modifiers, ignored: bool) -> (r: Option<Step>)
    ensures
        r == (if ignored && key == Key::Tab && m.control {
            Some(
                if m.shift {
                    Step::Prev
                } else {
                    Step::Next
                },
            )
        } else {
            None
        }),
{
    if ignored && key == Key::Tab && m.control {
        Some(
            if m.shift {
                Step::Prev
            } else {
                Step::Next
            },
        )
    } else {
        None
    }
}

/// CTRL+F toggles the find bar, whichever widget has the keyboard.
pub fn find_shortcut(key: Key, m: Modifiers) -> (r: bool)
    ensures
        r == (m.control && key == Key::Character('f')),
{
    m.control && key == Key::Character('f')
}

/// The arrow keys move the selection of the command bar and of the
/// spelling chooser.
pub fn arrow_step(key: Key) -> (r: Option<Step>)
    ensures
        r == (match key {
            Key::ArrowUp => Some(Step::Prev),
            Key::ArrowDown => Some(Step::Next),
            _ => None,
        }),
{
    match key {
        Key::ArrowUp => Some(Step::Prev),
        Key::ArrowDown => Some(Step::Next),
        _ => None,
    }
}

/// Every editor binding needs a modifier except TAB, which only claims the
/// key when no modifier is held: plain typing always reaches the widget.
pub proof fn law_plain_typing_is_never_claimed(c: char)
    ensures
        binding(Key::Character(c), Modifiers { control: false, shift: false, alt: false, logo: false })
            is None,
        binding(Key::Character(c), Modifiers { control: false, shift: true, alt: false, logo: false })
            is None,
        binding(Key::Backspace, Modifiers { control: false, shift: false, alt: false, logo: false })
            is None,
{
}

} // verus!
