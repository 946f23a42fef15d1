//! State of the editor overlays: the CTRL+F find bar and the spelling
//! correction chooser.

use vstd::prelude::*;

use crate::commands::{step_selection, wrapped_step};
use crate::selection::{slice, slice_of, TextSelection};
use crate::spell::{issue_near, near, next_issue, pos_lt, SpellIssue};
use crate::strings::{str_eq, trim, trimmed};
use crate::text::Pos;

verus! {

/// `a` does not come before `b` in buffer order.
pub open spec fn pos_ge(a: Pos, b: Pos) -> bool {
    a.0 > b.0 || (a.0 == b.0 && a.1 >= b.1)
}

/// The CTRL+F find bar: the query, every match in the focused document (as
/// `[start, end)` spans), which one is current, and the caret position the
/// bar was opened at.
#[derive(Debug)]
pub struct Search {
    pub query: String,
    pub matches: Vec<(Pos, Pos)>,
    pub current: Option<usize>,
    pub origin: Pos,
}

/// The match to select first: the first one starting at or after `origin`,
/// else the first of all; none when there are no matches.
pub open spec fn first_current(matches: Seq<(Pos, Pos)>, origin: Pos) -> Option<usize> {
    if matches.len() == 0 {
        None
    } else if exists|i: int| 0 <= i < matches.len() && pos_ge(#[trigger] matches[i].0, origin) {
        Some(
            (choose|i: int|
                0 <= i < matches.len() && pos_ge(#[trigger] matches[i].0, origin) && forall|j: int|
                    0 <= j < i ==> !pos_ge(#[trigger] matches[j].0, origin)) as usize,
        )
    } else {
        Some(0)
    }
}

impl Search {
    /// A fresh find bar opened with the caret at `origin`.
    pub fn opened(origin: Pos) -> (s: Self)
        ensures
            s.query@ == Seq::<char>::empty(),
            s.matches@.len() == 0,
            s.current is None,
            s.origin == origin,
    {
        Search { query: String::new(), matches: Vec::new(), current: None, origin }
    }

    /// New query results: incremental matching anchors to the position the
    /// bar was opened at, so typing more letters doesn't walk forward.
    pub fn set_matches(&mut self, query: String, matches: Vec<(Pos, Pos)>)
        ensures
            final(self).query == query,
            final(self).matches == matches,
            final(self).origin == old(self).origin,
            final(self).current == first_current(matches@, old(self).origin),
    {
        let origin = self.origin;
        let n = matches.len();
        let mut current: Option<usize> = None;
        if n > 0 {
            let mut i: usize = 0;
            while i < n
                invariant
                    n == matches@.len(),
                    i <= n,
                    forall|j: int| 0 <= j < i ==> !pos_ge(#[trigger] matches@[j].0, origin),
                ensures
                    i <= n,
                    forall|j: int| 0 <= j < i ==> !pos_ge(#[trigger] matches@[j].0, origin),
                    i < n ==> pos_ge(matches@[i as int].0, origin),
                decreases n - i,
            {
                let start = matches[i].0;
                if start.0 > origin.0 || (start.0 == origin.0 && start.1 >= origin.1) {
                    break;
                }
                i = i + 1;
            }
            if i < n {
                proof {
                    assert(pos_ge(matches@[i as int].0, origin));
                    let k = choose|k: int|
                        0 <= k < matches@.len() && pos_ge(#[trigger] matches@[k].0, origin) && forall|
                            j: int,
                        |
                            0 <= j < k ==> !pos_ge(#[trigger] matches@[j].0, origin);
                    if k < i {
                        assert(!pos_ge(matches@[k].0, origin));
                    } else if k > i {
                        assert(!pos_ge(matches@[i as int].0, origin));
                    }
                }
                current = Some(i);
            } else {
                current = Some(0);
            }
        }
        self.query = query;
        self.matches = matches;
        self.current = current;
    }

    /// Move to the next (`forward`) or previous match, wrapping.
    pub fn step(&mut self, forward: bool)
        ensures
            final(self).matches == old(self).matches,
            final(self).query == old(self).query,
            final(self).origin == old(self).origin,
            old(self).matches@.len() == 0 ==> final(self).current == old(self).current,
            old(self).matches@.len() > 0 ==> final(self).current == Some(
                wrapped_step(
                    match old(self).current {
                        Some(c) => c as int,
                        None => 0,
                    },
                    old(self).matches@.len() as int,
                    forward,
                ) as usize,
            ),
    {
        let n = self.matches.len();
        if n > 0 {
            let cur = match self.current {
                Some(c) => c,
                None => 0,
            };
            self.current = Some(step_selection(cur, n, forward));
        }
    }

    /// The span of the current match, if any.
    pub fn current_span(&self) -> (r: Option<(Pos, Pos)>)
        ensures
            r == (match self.current {
                Some(i) => if i < self.matches@.len() {
                    Some(self.matches@[i as int])
                } else {
                    None
                },
                None => None,
            }),
    {
        match self.current {
            Some(i) => if i < self.matches.len() {
                Some(self.matches[i])
            } else {
                None
            },
            None => None,
        }
    }
}

/// The keyboard-first correction chooser opened by CTRL+.
#[derive(Debug)]
pub struct SpellCorrection {
    pub doc_id: usize,
    pub revision: u64,
    pub issue: SpellIssue,
    pub input: String,
    pub suggestions: Vec<String>,
    pub selected: usize,
    pub loading: bool,
}

impl SpellCorrection {
    /// The chooser opened on `issue`, its input prefilled with the word.
    pub fn opened(doc_id: usize, revision: u64, issue: SpellIssue) -> (c: Self)
        ensures
            c.doc_id == doc_id,
            c.revision == revision,
            c.issue == issue,
            c.input@ == issue.word@,
            c.suggestions@.len() == 0,
            c.selected == 0,
            c.loading,
    {
        let input = issue.word.clone();
        SpellCorrection { doc_id, revision, issue, input, suggestions: Vec::new(), selected: 0, loading: true }
    }

    /// Suggestions arrived: show them from the top, and if the writer has not
    /// edited the input yet, prefill it with the first one.
    pub fn receive_suggestions(&mut self, suggestions: Vec<String>)
        ensures
            final(self).suggestions == suggestions,
            final(self).selected == 0,
            !final(self).loading,
            final(self).issue == old(self).issue,
            final(self).doc_id == old(self).doc_id,
            final(self).revision == old(self).revision,
            final(self).input@ == (if old(self).input@ == old(self).issue.word@ && suggestions@.len() > 0 {
                suggestions@[0]@
            } else {
                old(self).input@
            }),
    {
        let untouched = str_eq(self.input.as_str(), self.issue.word.as_str());
        self.suggestions = suggestions;
        self.selected = 0;
        self.loading = false;
        if untouched && self.suggestions.len() > 0 {
            self.input = self.suggestions[0].clone();
        }
    }

    /// Arrow through the suggestions, wrapping; the input follows the
    /// selected suggestion.
    pub fn step(&mut self, forward: bool)
        ensures
            final(self).suggestions == old(self).suggestions,
            final(self).issue == old(self).issue,
            old(self).suggestions@.len() == 0 ==> final(self).selected == old(self).selected
                && final(self).input == old(self).input,
            old(self).suggestions@.len() > 0 ==> {
                &&& final(self).selected == wrapped_step(
                    old(self).selected as int,
                    old(self).suggestions@.len() as int,
                    forward,
                )
                &&& final(self).input@ == old(self).suggestions@[final(self).selected as int]@
            },
    {
        let n = self.suggestions.len();
        if n > 0 {
            self.selected = step_selection(self.selected, n, forward);
            self.input = self.suggestions[self.selected].clone();
        }
    }
}

/// Why a replacement was refused.
#[derive(Debug, Clone, Copy, PartialEq, Eq, Structural)]
pub enum ReplacementError {
    /// Nothing but whitespace was entered.
    Empty,
    /// The replacement is the misspelled word itself.
    Unchanged,
}

/// The replacement to apply for `word`: the trimmed input, refused when it
/// is empty or the same word.
pub fn check_replacement(replacement: &str, word: &str) -> (r: Result<String, ReplacementError>)
    ensures
        match r {
            Ok(t) => t@ == trimmed(replacement@) && t@.len() > 0 && t@ != word@,
            Err(ReplacementError::Empty) => trimmed(replacement@).len() == 0,
            Err(ReplacementError::Unchanged) => trimmed(replacement@).len() > 0 && trimmed(
                replacement@,
            ) == word@,
        },
{
    let t = trim(replacement);
    if t.as_str().is_empty() {
        return Err(ReplacementError::Empty);
    }
    if str_eq(t.as_str(), word) {
        return Err(ReplacementError::Unchanged);
    }
    Ok(t)
}

impl ReplacementError {
    /// The status line shown for the refusal.
    pub fn message(&self) -> (r: String)
        ensures
            r@ == (match *self {
                ReplacementError::Empty => "correction cannot be empty"@,
                ReplacementError::Unchanged => "choose or type a different spelling"@,
            }),
    {
        match self {
            ReplacementError::Empty => "correction cannot be empty".to_string(),
            ReplacementError::Unchanged => "choose or type a different spelling".to_string(),
        }
    }
}

impl SpellCorrection {
    /// The chooser still describes the document: no edit since it opened
    /// (same spelling revision) and the misspelled word is still in place.
    pub fn still_applies(&self, revision: u64, lines: &[String]) -> (r: bool)
        ensures
            r == (revision == self.revision && slice_of(lines@, self.issue.start, self.issue.end)
                == Some(self.issue.word@)),
    {
        if revision != self.revision {
            return false;
        }
        match slice(lines, self.issue.start, self.issue.end) {
            Some(t) => str_eq(t.as_str(), self.issue.word.as_str()),
            None => false,
        }
    }
}

/// What the correction key (CTRL+.) does.
#[derive(Debug)]
pub enum CorrectionStep {
    /// Nothing to correct now; show this status.
    Refused(String),
    /// No misspelling at the caret: move the caret to the start of this one.
    Jump(SpellIssue),
    /// Open the correction chooser on this misspelling.
    Open(SpellIssue),
}

/// The status line when the caret jumps to the next misspelling `word`.
pub fn jump_status(word: &str) -> (r: String)
    ensures
        r@ == "next misspelling: "@ + word@,
{
    crate::strings::concat("next misspelling: ", word)
}

/// `issues[i]` is the first misspelling at or touching the caret.
pub open spec fn first_near_at(issues: Seq<SpellIssue>, cursor: Pos, i: int) -> bool {
    0 <= i < issues.len() && near(issues[i], cursor) && forall|j: int|
        0 <= j < i ==> !near(#[trigger] issues[j], cursor)
}

/// `x` is the misspelling after the caret: the first one that starts after
/// it, else (wrapping) the first of all.
pub open spec fn next_after(issues: Seq<SpellIssue>, cursor: Pos, x: SpellIssue) -> bool {
    ||| exists|i: int|
        0 <= i < issues.len() && issues[i] == x && pos_lt(cursor, x.start) && forall|j: int|
            0 <= j < i ==> !pos_lt(cursor, (#[trigger] issues[j]).start)
    ||| issues.len() > 0 && (forall|j: int| 0 <= j < issues.len() ==> !pos_lt(cursor, (#[trigger] issues[j]).start))
        && x == issues[0]
}

/// The correction key with spell checking `enabled`, the dictionary
/// `ready` (or still `loading`), a `phantom` active or not, and the
/// document's current `issues` and caret: refused while checking is off, the
/// dictionary is missing or a phantom is pending; otherwise the chooser
/// opens on the misspelling at the caret, or the caret jumps to the next one,
/// or there is none to correct.
pub fn correction_step(
    enabled: bool,
    ready: bool,
    loading: bool,
    phantom: bool,
    issues: &[SpellIssue],
    cursor: Pos,
) -> (r: CorrectionStep)
    ensures
        !enabled ==> (r matches CorrectionStep::Refused(m) && m@
            == "spell checking is off — enable it from ESC"@),
        enabled && !ready ==> (r matches CorrectionStep::Refused(m) && m@ == (if loading {
            "spell dictionary is still loading"@
        } else {
            "spell dictionary unavailable"@
        })),
        enabled && ready && phantom ==> (r matches CorrectionStep::Refused(m) && m@
            == "finish or discard the phantom before correcting spelling"@),
        enabled && ready && !phantom && (exists|i: int| first_near_at(issues@, cursor, i)) ==> (r matches CorrectionStep::Open(x) && exists|i: int|
            first_near_at(issues@, cursor, i) && x == issues@[i]),
        enabled && ready && !phantom && !(exists|i: int| first_near_at(issues@, cursor, i)) && issues@.len() == 0 ==> (r matches CorrectionStep::Refused(m) && m@ == "no misspellings in this document"@),
        enabled && ready && !phantom && !(exists|i: int| first_near_at(issues@, cursor, i)) && issues@.len() > 0 ==> (r matches CorrectionStep::Jump(x) && next_after(issues@, cursor, x)),
{
    if !enabled {
        return CorrectionStep::Refused("spell checking is off — enable it from ESC".to_string());
    }
    if !ready {
        return CorrectionStep::Refused(
            if loading {
                "spell dictionary is still loading".to_string()
            } else {
                "spell dictionary unavailable".to_string()
            },
        );
    }
    if phantom {
        return CorrectionStep::Refused(
            "finish or discard the phantom before correcting spelling".to_string(),
        );
    }
    let at_caret = issue_near(issues, cursor);
    match at_caret {
        Some(x) => {
            let c = x.clone();
            proof {
                let i = choose|i: int|
                    0 <= i < issues@.len() && issues@[i] == *x && near(*x, cursor) && forall|j: int|
                        0 <= j < i ==> !near(#[trigger] issues@[j], cursor);
                assert(first_near_at(issues@, cursor, i));
            }
            return CorrectionStep::Open(c);
        },
        None => {},
    }
    proof {
        assert forall|i: int| !first_near_at(issues@, cursor, i) by {
            if 0 <= i < issues@.len() {
                assert(!near(issues@[i], cursor));
            }
        }
    }
    match next_issue(issues, cursor) {
        Some(x) => {
            let c = x.clone();
            CorrectionStep::Jump(c)
        },
        None => CorrectionStep::Refused("no misspellings in this document".to_string()),
    }
}

impl SpellCorrection {
    /// Suggestions computed for document `doc_id` at `revision` belong in
    /// this chooser: the document is still at that revision (`current`) and
    /// the chooser was opened on it then.
    pub fn accepts(&self, doc_id: usize, revision: u64, current: Option<u64>) -> (r: bool)
        ensures
            r == (current == Some(revision) && self.doc_id == doc_id && self.revision == revision),
    {
        match current {
            Some(c) => c == revision && self.doc_id == doc_id && self.revision == revision,
            None => false,
        }
    }
}

/// The selection menu offers a spelling correction: checking is on, the
/// dictionary is ready, and the selection is exactly a flagged misspelling.
pub fn selection_can_spell_correct(
    enabled: bool,
    ready: bool,
    target: &TextSelection,
    issues: &[SpellIssue],
) -> (r: bool)
    ensures
        r == (enabled && ready && exists|i: int|
            0 <= i < issues@.len() && (#[trigger] issues@[i]).start == target.spec_start()
                && issues@[i].end == target.spec_end()),
{
    if !enabled || !ready {
        return false;
    }
    let start = target.start();
    let end = target.end();
    let mut i: usize = 0;
    while i < issues.len()
        invariant
            enabled && ready,
            i <= issues@.len(),
            start == target.spec_start(),
            end == target.spec_end(),
            forall|k: int|
                0 <= k < i ==> !((#[trigger] issues@[k]).start == start && issues@[k].end == end),
        decreases issues@.len() - i,
    {
        let x = &issues[i];
        if x.start.0 == start.0 && x.start.1 == start.1 && x.end.0 == end.0 && x.end.1 == end.1 {
            assert(issues@[i as int].start == target.spec_start() && issues@[i as int].end
                == target.spec_end());
            return true;
        }
        i = i + 1;
    }
    false
}

/// The window title: the focused document's name and the application's.
pub fn window_title(name: &str) -> (r: String)
    ensures
        r@ == name@ + " — flow-state"@,
{
    crate::strings::concat(name, " — flow-state")
}

impl Search {
    /// The find bar's counter: empty before anything is typed, `no matches`,
    /// or the 1-based number of the current match over the number of matches
    /// (0 when none is current).
    pub fn count_label(&self) -> (r: String)
        requires
            self.current matches Some(i) ==> i < usize::MAX,
        ensures
            r@ == (if self.query@.len() == 0 {
                Seq::<char>::empty()
            } else if self.matches@.len() == 0 {
                "no matches"@
            } else {
                crate::strings::decimal(
                    match self.current {
                        Some(i) => (i + 1) as nat,
                        None => 0nat,
                    },
                ) + "/"@ + crate::strings::decimal(self.matches@.len())
            }),
    {
        if self.query.as_str().is_empty() {
            String::new()
        } else if self.matches.len() == 0 {
            "no matches".to_string()
        } else {
            let at: usize = match self.current {
                Some(i) => i + 1,
                None => 0,
            };
            let a = crate::strings::usize_decimal(at);
            let b = crate::strings::concat(a.as_str(), "/");
            let n = crate::strings::usize_decimal(self.matches.len());
            crate::strings::concat(b.as_str(), n.as_str())
        }
    }
}

impl SpellCorrection {
    /// The chooser's heading, quoting the misspelled word.
    pub fn heading(&self) -> (r: String)
        ensures
            r@ == "Correct “"@ + self.issue.word@ + "”"@,
    {
        let a = crate::strings::concat("Correct “", self.issue.word.as_str());
        crate::strings::concat(a.as_str(), "”")
    }

    /// What stands in for the suggestion list: a note while they load or
    /// when there are none; nothing when there are suggestions to show.
    pub fn suggestions_note(&self) -> (r: Option<String>)
        ensures
            self.loading ==> (r matches Some(t) && t@ == "Finding suggestions…"@),
            !self.loading && self.suggestions@.len() == 0 ==> (r matches Some(t) && t@
                == "No dictionary suggestions — type a replacement above."@),
            !self.loading && self.suggestions@.len() > 0 ==> r is None,
    {
        if self.loading {
            Some("Finding suggestions…".to_string())
        } else if self.suggestions.len() == 0 {
            Some("No dictionary suggestions — type a replacement above.".to_string())
        } else {
            None
        }
    }
}

} // verus!
