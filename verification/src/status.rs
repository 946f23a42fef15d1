//! The texts of the status bar and of the unsaved-changes dialog.

use vstd::prelude::*;

use crate::strings::{concat, decimal, usize_decimal};

verus! {

/// The left of the status bar: the focused document's name, marked ` ●`
/// while it has unsaved changes, then a compiling note and the last status
/// message, if any.
pub open spec fn status_left_text(name: Seq<char>, modified: bool, compiling: bool, message: Option<Seq<char>>) -> Seq<
    char,
> {
    " "@ + name + (if modified {
        " ●"@
    } else {
        Seq::empty()
    }) + (if compiling {
        "   ⟳ compiling…"@
    } else {
        Seq::empty()
    }) + match message {
        Some(m) => "   "@ + m,
        None => Seq::empty(),
    }
}

/// The left of the status bar (see [`status_left_text`]).
pub fn status_left(name: &str, modified: bool, compiling: bool, message: Option<&str>) -> (r: String)
    ensures
        r@ == status_left_text(
            name@,
            modified,
            compiling,
            match message {
                Some(m) => Some(m@),
                None => None,
            },
        ),
{
    let mut left = concat(" ", name);
    if modified {
        left = concat(left.as_str(), " ●");
    }
    if compiling {
        left = concat(left.as_str(), "   ⟳ compiling…");
    }
    match message {
        Some(m) => {
            let spaced = concat(left.as_str(), "   ");
            left = concat(spaced.as_str(), m);
        },
        None => {},
    }
    left
}

/// The right of the status bar: the caret's paragraph over the number of
/// paragraphs.
pub fn paragraph_label(current: usize, total: usize) -> (r: String)
    ensures
        r@ == "¶ "@ + decimal(current as nat) + "/"@ + decimal(total as nat) + " "@,
{
    let a = concat("¶ ", usize_decimal(current).as_str());
    let b = concat(a.as_str(), "/");
    let c = concat(b.as_str(), usize_decimal(total).as_str());
    concat(c.as_str(), " ")
}

/// What the unsaved-changes dialog is about.
#[derive(Debug, Clone, Copy, PartialEq, Eq, Structural)]
pub enum PendingKind {
    /// Closing the window.
    CloseWindow,
    /// Closing one pane.
    ClosePane,
}

/// The dialog's title and detail line: closing the window counts the
/// modified documents (`modified`); closing a pane names its document
/// (`pane_name`, or `this pane` when it shows none).
pub fn confirm_text(pending: PendingKind, modified: usize, pane_name: Option<&str>) -> (r: (String, String))
    ensures
        pending == PendingKind::CloseWindow ==> r.0@ == "Save changes before closing?"@ && r.1@ == (
        if modified > 1 {
            decimal(modified as nat) + " files have unsaved changes."@
        } else {
            "There are unsaved changes."@
        }),
        pending == PendingKind::ClosePane ==> r.0@ == "Save changes to "@ + (match pane_name {
            Some(n) => n@,
            None => "this pane"@,
        }) + "?"@ && r.1@ == "Unsaved changes will be lost when the pane closes."@,
{
    match pending {
        PendingKind::CloseWindow => {
            let detail = if modified > 1 {
                concat(usize_decimal(modified).as_str(), " files have unsaved changes.")
            } else {
                "There are unsaved changes.".to_string()
            };
            ("Save changes before closing?".to_string(), detail)
        },
        PendingKind::ClosePane => {
            let name = match pane_name {
                Some(n) => n.to_string(),
                None => "this pane".to_string(),
            };
            let a = concat("Save changes to ", name.as_str());
            (concat(a.as_str(), "?"), "Unsaved changes will be lost when the pane closes.".to_string())
        },
    }
}

} // verus!
