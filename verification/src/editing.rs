//! What the editor does with each action, around the text widget: undo
//! history, the phantom of a "deleted" sentence, and the dimming of inactive
//! paragraphs.

use vstd::prelude::*;

use crate::selection::{slice, slice_of};
use crate::strings::string_from_chars;
use crate::text::{chars_of, is_whitespace, is_ws, sentence_start, sentence_start_before, Pos};

verus! {

/// The kinds of edit the editor widget reports.
#[derive(Debug, Clone, Copy, PartialEq, Eq, Structural)]
pub enum EditKind {
    Insert(char),
    Backspace,
    Other,
}

/// The actions the editor widget reports, as far as the history and the
/// phantom care.
#[derive(Debug, Clone, Copy, PartialEq, Eq, Structural)]
pub enum EditorAction {
    Edit(EditKind),
    Move,
    Select,
    Click,
    Drag,
    Other,
}

/// How to carry out one action, in this order: record the pre-edit snapshot
/// (coalescing with the typing run when the flag is set), break the typing
/// run, remove the remaining phantom text from the buffer, then either step
/// the caret over the typed character or hand the action to the widget.
#[derive(Debug, PartialEq, Eq)]
pub struct ActionPlan {
    pub record: Option<bool>,
    pub break_run: bool,
    pub discard_phantom: bool,
    pub step_over: bool,
    pub perform: bool,
    /// The phantom afterwards.
    pub phantom: Option<String>,
    /// The document now has unsaved changes.
    pub modified: bool,
}

/// The plan as plain values.
pub struct PlanModel {
    pub record: Option<bool>,
    pub break_run: bool,
    pub discard_phantom: bool,
    pub step_over: bool,
    pub perform: bool,
    pub phantom: Option<Seq<char>>,
    pub modified: bool,
}

impl View for ActionPlan {
    type V = PlanModel;

    open spec fn view(&self) -> PlanModel {
        PlanModel {
            record: self.record,
            break_run: self.break_run,
            discard_phantom: self.discard_phantom,
            step_over: self.step_over,
            perform: self.perform,
            phantom: match self.phantom {
                Some(p) => Some(p@),
                None => None,
            },
            modified: self.modified,
        }
    }
}

/// What an action does. With a phantom pending, typing its next character
/// fills that character in (the phantom shrinks and vanishes when used up);
/// typing anything else, or backspace, is an ordinary recorded edit that
/// pushes the phantom along; any other edit or a caret move discards the
/// phantom (breaking the typing run) and goes ahead; anything else discards
/// it too and is handled as without a phantom. Without one, every edit is
/// recorded (typing non-space coalesces into the typing run), moves,
/// selections, clicks and drags break the run, and everything goes to the
/// widget.
pub open spec fn planned(phantom: Option<Seq<char>>, action: EditorAction) -> PlanModel {
    let plain = PlanModel {
        record: None,
        break_run: false,
        discard_phantom: false,
        step_over: false,
        perform: true,
        phantom: None,
        modified: false,
    };
    match phantom {
        Some(rem) => match action {
            EditorAction::Edit(EditKind::Insert(c)) => if rem.len() > 0 && rem[0] == c {
                PlanModel {
                    perform: false,
                    step_over: true,
                    phantom: if rem.len() > 1 {
                        Some(rem.drop_first())
                    } else {
                        None
                    },
                    modified: true,
                    ..plain
                }
            } else {
                PlanModel { record: Some(!is_ws(c)), phantom: Some(rem), modified: true, ..plain }
            },
            EditorAction::Edit(EditKind::Backspace) => PlanModel {
                record: Some(false),
                phantom: Some(rem),
                modified: true,
                ..plain
            },
            EditorAction::Edit(EditKind::Other) | EditorAction::Move => PlanModel {
                break_run: true,
                discard_phantom: true,
                modified: true,
                ..plain
            },
            EditorAction::Select | EditorAction::Click | EditorAction::Drag => PlanModel {
                break_run: true,
                discard_phantom: true,
                modified: true,
                ..plain
            },
            EditorAction::Other => PlanModel { discard_phantom: true, modified: true, ..plain },
        },
        None => match action {
            EditorAction::Edit(EditKind::Insert(c)) => PlanModel {
                record: Some(!is_ws(c)),
                modified: true,
                ..plain
            },
            EditorAction::Edit(_) => PlanModel { record: Some(false), modified: true, ..plain },
            EditorAction::Move | EditorAction::Select | EditorAction::Click | EditorAction::Drag => {
                PlanModel { break_run: true, ..plain }
            },
            EditorAction::Other => plain,
        },
    }
}

/// `rem` without its first character.
fn rest_of(rem: &str) -> (r: String)
    requires
        rem@.len() > 0,
    ensures
        r@ == rem@.drop_first(),
{
    let cs = chars_of(rem);
    let mut out: Vec<char> = Vec::new();
    let mut i: usize = 1;
    while i < cs.len()
        invariant
            1 <= i <= cs@.len(),
            out@ == cs@.subrange(1, i as int),
        decreases cs@.len() - i,
    {
        out.push(cs[i]);
        i = i + 1;
        assert(out@ =~= cs@.subrange(1, i as int));
    }
    assert(cs@.subrange(1, cs@.len() as int) =~= cs@.drop_first());
    string_from_chars(out.as_slice())
}

/// How to carry out `action` with the pending `phantom`, if any.
pub fn plan_action(phantom: Option<&str>, action: EditorAction) -> (r: ActionPlan)
    ensures
        r@ == planned(
            match phantom {
                Some(p) => Some(p@),
                None => None,
            },
            action,
        ),
{
    match phantom {
        Some(rem) => match action {
            EditorAction::Edit(EditKind::Insert(c)) => {
                let cs = chars_of(rem);
                if cs.len() > 0 && cs[0] == c {
                    let rest = if cs.len() > 1 {
                        Some(rest_of(rem))
                    } else {
                        None
                    };
                    ActionPlan {
                        record: None,
                        break_run: false,
                        discard_phantom: false,
                        step_over: true,
                        perform: false,
                        phantom: rest,
                        modified: true,
                    }
                } else {
                    ActionPlan {
                        record: Some(!is_whitespace(c)),
                        break_run: false,
                        discard_phantom: false,
                        step_over: false,
                        perform: true,
                        phantom: Some(rem.to_string()),
                        modified: true,
                    }
                }
            },
            EditorAction::Edit(EditKind::Backspace) => ActionPlan {
                record: Some(false),
                break_run: false,
                discard_phantom: false,
                step_over: false,
                perform: true,
                phantom: Some(rem.to_string()),
                modified: true,
            },
            EditorAction::Other => ActionPlan {
                record: None,
                break_run: false,
                discard_phantom: true,
                step_over: false,
                perform: true,
                phantom: None,
                modified: true,
            },
            _ => ActionPlan {
                record: None,
                break_run: true,
                discard_phantom: true,
                step_over: false,
                perform: true,
                phantom: None,
                modified: true,
            },
        },
        None => match action {
            EditorAction::Edit(EditKind::Insert(c)) => ActionPlan {
                record: Some(!is_whitespace(c)),
                break_run: false,
                discard_phantom: false,
                step_over: false,
                perform: true,
                phantom: None,
                modified: true,
            },
            EditorAction::Edit(_) => ActionPlan {
                record: Some(false),
                break_run: false,
                discard_phantom: false,
                step_over: false,
                perform: true,
                phantom: None,
                modified: true,
            },
            EditorAction::Other => ActionPlan {
                record: None,
                break_run: false,
                discard_phantom: false,
                step_over: false,
                perform: true,
                phantom: None,
                modified: false,
            },
            _ => ActionPlan {
                record: None,
                break_run: true,
                discard_phantom: false,
                step_over: false,
                perform: true,
                phantom: None,
                modified: false,
            },
        },
    }
}

/// Typing a phantom back character by character fills it in completely:
/// each character typed is its next one, nothing is recorded or handed to
/// the widget, and the phantom shrinks by exactly that character.
pub proof fn law_typing_the_phantom_fills_it_in(rem: Seq<char>)
    requires
        rem.len() > 0,
    ensures
        planned(Some(rem), EditorAction::Edit(EditKind::Insert(rem[0]))).step_over,
        !planned(Some(rem), EditorAction::Edit(EditKind::Insert(rem[0]))).perform,
        planned(Some(rem), EditorAction::Edit(EditKind::Insert(rem[0]))).record is None,
        planned(Some(rem), EditorAction::Edit(EditKind::Insert(rem[0]))).phantom == (if rem.len() > 1 {
            Some(rem.drop_first())
        } else {
            None
        }),
{
}

/// Without a phantom every edit is recorded, so one undo takes it back;
/// with one, typing and backspace are recorded too, except a typed
/// character that fills the phantom in, which only moves the caret.
pub proof fn law_edits_are_recorded(phantom: Seq<char>, kind: EditKind)
    ensures
        planned(None, EditorAction::Edit(kind)).record is Some,
        kind !is Other ==> (planned(Some(phantom), EditorAction::Edit(kind)).record is Some || planned(
            Some(phantom),
            EditorAction::Edit(kind),
        ).step_over),
{
}

/// With a phantom pending, anything but typing and backspace leaves it: a
/// caret move, a selection, a click, a drag or any other edit breaks the
/// typing run and discards the phantom, and any other action discards it
/// too. The phantom is gone afterwards and the document is modified.
pub proof fn law_leaving_the_phantom_discards_it(rem: Seq<char>, action: EditorAction)
    requires
        !(action matches EditorAction::Edit(EditKind::Insert(_))),
        action != EditorAction::Edit(EditKind::Backspace),
    ensures
        planned(Some(rem), action).discard_phantom,
        planned(Some(rem), action).phantom is None,
        planned(Some(rem), action).modified,
        planned(Some(rem), action).perform,
        action != EditorAction::Other ==> planned(Some(rem), action).break_run,
{
}

/// SHIFT+BACKSPACE "deletes" the sentence before the caret into a phantom:
/// the start of that sentence, where the caret goes, and the phantom text
/// (the buffer from there to the caret). Nothing when there is no sentence
/// before the caret, or it starts at the caret.
pub fn sentence_phantom(lines: &[String], cursor: Pos) -> (r: Option<(Pos, String)>)
    ensures
        match sentence_start(lines@, (cursor.0 as int, cursor.1 as int)) {
            None => r is None,
            Some(s) => if s == (cursor.0 as int, cursor.1 as int) {
                r is None
            } else {
                match slice_of(lines@, (s.0 as usize, s.1 as usize), cursor) {
                    Some(t) => r matches Some((p, u)) && p == (s.0 as usize, s.1 as usize) && u@ == t,
                    None => r is None,
                }
            },
        },
{
    match sentence_start_before(lines, cursor) {
        None => None,
        Some(start) => {
            if start.0 == cursor.0 && start.1 == cursor.1 {
                None
            } else {
                match slice(lines, start, cursor) {
                    Some(t) => Some((start, t)),
                    None => None,
                }
            }
        },
    }
}

/// The part `[start, end)` of a line of `len` bytes that the span covers,
/// when it covers any of it.
pub open spec fn clipped(span: (Pos, Pos), line: usize, len: usize) -> Option<(usize, usize)> {
    let ((sl, sc), (el, ec)) = span;
    if line < sl || line > el {
        None
    } else {
        let s = if line == sl { sc } else { 0 };
        let e = if line == el { ec } else { len };
        let start = if s < len { s } else { len };
        let end = if e < len { e } else { len };
        if start < end {
            Some((start, end))
        } else {
            None
        }
    }
}

/// Clip the span to `line`, a line of `len` bytes.
pub fn clip(span: (Pos, Pos), line: usize, len: usize) -> (r: Option<(usize, usize)>)
    ensures
        r == clipped(span, line, len),
{
    let ((sl, sc), (el, ec)) = span;
    if line < sl || line > el {
        return None;
    }
    let s = if line == sl { sc } else { 0 };
    let e = if line == el { ec } else { len };
    let start = if s < len { s } else { len };
    let end = if e < len { e } else { len };
    if start < end {
        Some((start, end))
    } else {
        None
    }
}

/// How one line of `len` bytes is painted: `(start, end, dimmed)` byte
/// ranges covering it in order. Lines outside the active paragraph are
/// dimmed; the part of the phantom on the line is dimmed even inside it.
pub open spec fn highlights(active: (usize, usize), ghost: Option<(Pos, Pos)>, line: usize, len: usize) -> Seq<
    (usize, usize, bool),
> {
    let base = line < active.0 || line > active.1;
    match ghost {
        Some(span) => match clipped(span, line, len) {
            Some((g0, g1)) => (if g0 > 0 {
                seq![(0usize, g0, base)]
            } else {
                seq![]
            }) + seq![(g0, g1, true)] + (if g1 < len {
                seq![(g1, len, base)]
            } else {
                seq![]
            }),
            None => seq![(0usize, len, base)],
        },
        None => seq![(0usize, len, base)],
    }
}

/// The painted ranges of `line` (see [`highlights`]).
pub fn line_highlights(active: (usize, usize), ghost: Option<(Pos, Pos)>, line: usize, len: usize) -> (r: Vec<
    (usize, usize, bool),
>)
    ensures
        r@ == highlights(active, ghost, line, len),
{
    let base = line < active.0 || line > active.1;
    let clipped_ghost = match ghost {
        Some(span) => clip(span, line, len),
        None => None,
    };
    let mut out: Vec<(usize, usize, bool)> = Vec::new();
    match clipped_ghost {
        None => {
            out.push((0, len, base));
        },
        Some((g0, g1)) => {
            if g0 > 0 {
                out.push((0, g0, base));
            }
            out.push((g0, g1, true));
            if g1 < len {
                out.push((g1, len, base));
            }
        },
    }
    proof {
        let h = highlights(active, ghost, line, len);
        assert(out@ =~= h);
    }
    out
}

/// The line range painted at full strength: the active paragraph in the
/// focused editor when dimming is on and nothing is selected; otherwise
/// everything.
pub fn undimmed_range(focused: bool, dimming: bool, selecting: bool, paragraph: (usize, usize)) -> (r: (
    usize,
    usize,
))
    ensures
        r == (if focused && dimming && !selecting {
            paragraph
        } else {
            (0usize, usize::MAX)
        }),
{
    if focused && dimming && !selecting {
        paragraph
    } else {
        (0, usize::MAX)
    }
}

/// The painted ranges of a line cover it exactly, in order, without gaps.
pub proof fn law_highlights_cover_the_line(active: (usize, usize), ghost: Option<(Pos, Pos)>, line: usize, len: usize)
    requires
        len > 0,
    ensures
        highlights(active, ghost, line, len).len() >= 1,
        highlights(active, ghost, line, len)[0].0 == 0,
        highlights(active, ghost, line, len).last().1 == len,
        forall|i: int|
            0 <= i < highlights(active, ghost, line, len).len() - 1 ==> (#[trigger] highlights(
                active,
                ghost,
                line,
                len,
            )[i]).1 == highlights(active, ghost, line, len)[i + 1].0,
        forall|i: int|
            0 <= i < highlights(active, ghost, line, len).len() ==> (#[trigger] highlights(
                active,
                ghost,
                line,
                len,
            )[i]).0 < highlights(active, ghost, line, len)[i].1,
{
}

} // verus!
