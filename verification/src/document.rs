//! Per-document bookkeeping that does not depend on the editor widget: how
//! a buffer is persisted, when it counts as modified, and the spelling
//! state that keeps asynchronous scan results from landing on a changed
//! buffer.

use vstd::prelude::*;

use crate::spell::{issue_view, issues_view, SpellIssue};
use crate::strings::{concat, str_eq, trim, trimmed};
use crate::text::chars_of;

verus! {

/// Where documents are read from and written to; the file system in the
/// application, anything else in tests.
pub trait DocumentStorage {
    fn read(&self, path: &str) -> Result<String, String>;

    fn write(&self, path: &str, contents: &str) -> Result<(), String>;
}

/// A write's answer as plain values.
pub open spec fn unit_result(r: Result<(), String>) -> Result<(), Seq<char>> {
    match r {
        Ok(()) => Ok(()),
        Err(e) => Err(e@),
    }
}

/// What a save returns for the storage's answer `w` to writing the file at
/// `path`: the path on success, the storage's error unchanged otherwise.
pub open spec fn saved_as(w: Result<(), Seq<char>>, path: Seq<char>, r: Result<String, String>) -> bool {
    match w {
        Ok(()) => r matches Ok(q) && q@ == path,
        Err(e) => r matches Err(x) && x@ == e,
    }
}

/// The text a save writes for the buffer `text`: the buffer, ending in a
/// newline.
pub open spec fn saved_file_text(text: Seq<char>) -> Seq<char> {
    if text.len() > 0 && text.last() == '\n' {
        text
    } else {
        text.push('\n')
    }
}

/// The text a save writes for the buffer `text`.
pub fn file_text(text: &str) -> (r: String)
    ensures
        r@ == saved_file_text(text@),
{
    let cs = chars_of(text);
    if cs.len() == 0 || cs[cs.len() - 1] != '\n' {
        proof {
            reveal_strlit("\n");
        }
        concat(text, "\n")
    } else {
        text.to_string()
    }
}

/// The message for saving a buffer that has no file yet.
pub open spec fn no_filename_message() -> Seq<char> {
    "no filename — create one in the sidebar"@
}

/// What a save of the buffer `text` of a document at `path` hands the
/// storage: the path, and the buffer ending in a newline. A document
/// without a path is refused.
pub fn save_request(path: Option<&str>, text: &str) -> (r: Result<(String, String), String>)
    ensures
        match path {
            None => r matches Err(e) && e@ == no_filename_message(),
            Some(p) => r matches Ok((q, c)) && q@ == p@ && c@ == saved_file_text(text@),
        },
{
    match path {
        None => Err("no filename — create one in the sidebar".to_string()),
        Some(p) => Ok((p.to_string(), file_text(text))),
    }
}

/// What a save returns once the storage answered `w` to writing the file at
/// `path`: the path on success, the storage's error unchanged otherwise.
pub fn save_result(path: &str, w: Result<(), String>) -> (r: Result<String, String>)
    ensures
        saved_as(unit_result(w), path@, r),
{
    match w {
        Ok(()) => Ok(path.to_string()),
        Err(e) => Err(e),
    }
}

/// Save the buffer `text` to `path` through `storage`: the storage is
/// handed what [`save_request`] gives, and its answer becomes the result as
/// [`save_result`] says.
pub fn save_with<S: DocumentStorage>(storage: &S, path: Option<&str>, text: &str) -> (r: Result<
    String,
    String,
>)
    ensures
        path is None ==> (r matches Err(e) && e@ == no_filename_message()),
        path matches Some(p) ==> (r matches Ok(q) ==> q@ == p@),
{
    match save_request(path, text) {
        Err(e) => Err(e),
        Ok((p, contents)) => save_result(p.as_str(), storage.write(p.as_str(), contents.as_str())),
    }
}

/// The buffer a document opens with, given what reading its file gave: the
/// file's text, or an empty buffer when it could not be read.
pub fn opened_text(read: Result<String, String>) -> (r: String)
    ensures
        r@ == (match read {
            Ok(t) => t@,
            Err(_) => Seq::<char>::empty(),
        }),
{
    match read {
        Ok(text) => text,
        Err(_) => String::new(),
    }
}

/// The buffer a document at `path` opens with, read through `storage`: what
/// [`opened_text`] makes of the storage's answer.
pub fn open_with<S: DocumentStorage>(storage: &S, path: &str) -> String {
    opened_text(storage.read(path))
}

/// A document has unsaved changes when a phantom is pending (a deletion the
/// next save commits) or its buffer differs from the text last saved or
/// loaded.
pub fn is_modified(phantom: bool, text: &str, saved: &str) -> (r: bool)
    ensures
        r == (phantom || text@ != saved@),
{
    phantom || !str_eq(text, saved)
}

/// A fresh, never-edited scratch buffer: no path, no unsaved changes, and
/// nothing but white space in it. Opening a file may replace it, since it
/// holds nothing the user typed.
pub open spec fn pristine(has_path: bool, modified: bool, text: Seq<char>) -> bool {
    !has_path && !modified && trimmed(text).len() == 0
}

/// Whether a document is a pristine scratch buffer (see [`pristine`]).
pub fn is_pristine(has_path: bool, modified: bool, text: &str) -> (r: bool)
    ensures
        r == pristine(has_path, modified, text@),
{
    if has_path || modified {
        return false;
    }
    let t = trim(text);
    t.unicode_len() == 0
}

/// The abstract spelling state: the current issues, the revision that gates
/// scan results, when the buffer last became due for a scan, and whether a
/// scan is running.
pub struct SpellModel {
    pub issues: Seq<((int, int), (int, int), Seq<char>)>,
    pub revision: u64,
    pub dirty_since: Option<u64>,
    pub in_flight: bool,
}

/// The successor of a revision, wrapping.
pub open spec fn next_revision(r: u64) -> u64 {
    if r == u64::MAX {
        0
    } else {
        (r + 1) as u64
    }
}

/// After a text change: a new revision, no issues, and (when checking is
/// enabled and no phantom is pending) due for a scan from `now`.
pub open spec fn invalidated(m: SpellModel, enabled: bool, phantom: bool, now: u64) -> SpellModel {
    SpellModel {
        issues: Seq::empty(),
        revision: next_revision(m.revision),
        dirty_since: if enabled && !phantom {
            Some(now)
        } else {
            None
        },
        in_flight: m.in_flight,
    }
}

/// Spell checking switched off or the dictionary replaced: a new revision,
/// nothing due, nothing running.
pub open spec fn cleared(m: SpellModel) -> SpellModel {
    SpellModel { issues: Seq::empty(), revision: next_revision(m.revision), dirty_since: None, in_flight: false }
}

/// A scan may start: the buffer has been due for at least `debounce` and no
/// scan is running.
pub open spec fn scan_due(m: SpellModel, now: u64, debounce: u64) -> bool {
    m.dirty_since matches Some(since) && (if now >= since {
        now - since
    } else {
        0
    }) >= debounce && !m.in_flight
}

/// Starting a scan (when due): no longer due, now running.
pub open spec fn scan_started(m: SpellModel, now: u64, debounce: u64) -> SpellModel {
    if scan_due(m, now, debounce) {
        SpellModel { dirty_since: None, in_flight: true, ..m }
    } else {
        m
    }
}

/// A scan for `revision` finished with `issues`: nothing runs any more, and
/// the issues are taken only when checking is on, no phantom is pending and
/// the buffer is still at that revision.
pub open spec fn scan_completed(
    m: SpellModel,
    revision: u64,
    enabled: bool,
    phantom: bool,
    issues: Seq<((int, int), (int, int), Seq<char>)>,
) -> SpellModel {
    SpellModel {
        issues: if enabled && revision == m.revision && !phantom {
            issues
        } else {
            m.issues
        },
        in_flight: false,
        ..m
    }
}

/// The spelling diagnostics of one document and the bookkeeping that keeps
/// stale scan results out.
#[derive(Debug)]
pub struct SpellState {
    pub issues: Vec<SpellIssue>,
    pub revision: u64,
    pub dirty_since: Option<u64>,
    pub in_flight: bool,
}

impl View for SpellState {
    type V = SpellModel;

    open spec fn view(&self) -> SpellModel {
        SpellModel {
            issues: issues_view(self.issues@),
            revision: self.revision,
            dirty_since: self.dirty_since,
            in_flight: self.in_flight,
        }
    }
}

fn bump(r: u64) -> (n: u64)
    ensures
        n == next_revision(r),
{
    if r == u64::MAX {
        0
    } else {
        r + 1
    }
}

impl SpellState {
    /// No issues, revision zero, nothing due or running.
    pub fn new() -> (s: Self)
        ensures
            s@.issues.len() == 0,
            s@.revision == 0,
            s@.dirty_since is None,
            !s@.in_flight,
    {
        SpellState { issues: Vec::new(), revision: 0, dirty_since: None, in_flight: false }
    }

    /// The buffer changed at time `now`.
    pub fn invalidate(&mut self, enabled: bool, phantom: bool, now: u64)
        ensures
            final(self)@ == invalidated(old(self)@, enabled, phantom, now),
    {
        self.revision = bump(self.revision);
        self.issues = Vec::new();
        self.dirty_since = if enabled && !phantom {
            Some(now)
        } else {
            None
        };
        assert(issues_view(self.issues@) =~= Seq::empty());
    }

    /// Forget everything: checking was turned off or the dictionary changed.
    pub fn clear(&mut self)
        ensures
            final(self)@ == cleared(old(self)@),
    {
        self.revision = bump(self.revision);
        self.issues = Vec::new();
        self.dirty_since = None;
        self.in_flight = false;
        assert(issues_view(self.issues@) =~= Seq::empty());
    }

    /// Start a scan at time `now` if one is due after `debounce`, giving the
    /// revision it scans.
    pub fn begin_scan(&mut self, now: u64, debounce: u64) -> (r: Option<u64>)
        ensures
            final(self)@ == scan_started(old(self)@, now, debounce),
            r == (if scan_due(old(self)@, now, debounce) {
                Some(old(self)@.revision)
            } else {
                None
            }),
    {
        let due = match self.dirty_since {
            Some(since) => {
                let elapsed = if now >= since {
                    now - since
                } else {
                    0
                };
                elapsed >= debounce
            },
            None => false,
        };
        if due && !self.in_flight {
            self.dirty_since = None;
            self.in_flight = true;
            Some(self.revision)
        } else {
            None
        }
    }

    /// A scan of `revision` finished with `issues`.
    pub fn complete_scan(&mut self, revision: u64, enabled: bool, phantom: bool, issues: Vec<SpellIssue>)
        ensures
            final(self)@ == scan_completed(old(self)@, revision, enabled, phantom, issues_view(issues@)),
    {
        self.in_flight = false;
        if enabled && self.revision == revision && !phantom {
            self.issues = issues;
        }
    }

    /// A scan is due but has not started.
    pub fn pending(&self) -> (r: bool)
        ensures
            r == self@.dirty_since is Some,
    {
        self.dirty_since.is_some()
    }

    /// Drop every issue equal to `issue` (the writer chose to ignore it).
    pub fn ignore(&mut self, issue: &SpellIssue)
        ensures
            final(self)@.issues == old(self)@.issues.filter(other_than(issue_view(*issue))),
            final(self)@.revision == old(self)@.revision,
            final(self)@.dirty_since == old(self)@.dirty_since,
            final(self)@.in_flight == old(self)@.in_flight,
    {
        let ghost target = issue_view(*issue);
        let ghost all = issues_view(self.issues@);
        let mut out: Vec<SpellIssue> = Vec::new();
        let mut i: usize = 0;
        proof {
            reveal(Seq::filter);
            assert(all.take(0) =~= Seq::empty());
        }
        while i < self.issues.len()
            invariant
                i <= self.issues@.len(),
                all == issues_view(self.issues@),
                target == issue_view(*issue),
                issues_view(out@) == all.take(i as int).filter(other_than(target)),
            decreases self.issues@.len() - i,
        {
            proof {
                assert(all.take(i + 1) =~= all.take(i as int).push(all[i as int]));
                all.take(i as int).lemma_filter_push(all[i as int], other_than(target));
            }
            let x = &self.issues[i];
            let same = x.start.0 == issue.start.0 && x.start.1 == issue.start.1 && x.end.0
                == issue.end.0 && x.end.1 == issue.end.1 && str_eq(x.word.as_str(), issue.word.as_str());
            assert(same == (all[i as int] == target));
            if !same {
                let ghost prev = out@;
                out.push(x.clone());
                assert(issues_view(out@) =~= issues_view(prev).push(all[i as int]));
            }
            i = i + 1;
        }
        assert(all.take(self.issues@.len() as int) =~= all);
        self.issues = out;
    }
}

/// Keeps every issue but `target`.
pub open spec fn other_than(target: ((int, int), (int, int), Seq<char>)) -> spec_fn(
    ((int, int), (int, int), Seq<char>),
) -> bool {
    |x: ((int, int), (int, int), Seq<char>)| x != target
}

/// A scan started before a text change never lands: whatever it reports,
/// the changed buffer keeps no issues from it.
pub proof fn law_stale_scan_is_dropped(
    m: SpellModel,
    now: u64,
    debounce: u64,
    enabled: bool,
    phantom: bool,
    later: u64,
    issues: Seq<((int, int), (int, int), Seq<char>)>,
)
    requires
        scan_due(m, now, debounce),
    ensures
        scan_completed(
            invalidated(scan_started(m, now, debounce), enabled, phantom, later),
            m.revision,
            enabled,
            phantom,
            issues,
        ).issues.len() == 0,
{
}

/// A scan of an unchanged buffer lands: with checking on and no phantom,
/// the issues it reports become the document's issues.
pub proof fn law_current_scan_lands(
    m: SpellModel,
    now: u64,
    debounce: u64,
    issues: Seq<((int, int), (int, int), Seq<char>)>,
)
    requires
        scan_due(m, now, debounce),
    ensures
        scan_completed(scan_started(m, now, debounce), m.revision, true, false, issues).issues
            == issues,
        !scan_completed(scan_started(m, now, debounce), m.revision, true, false, issues).in_flight,
{
}

/// While a phantom is pending no scan becomes due, and invalidation always
/// clears the issues and moves to a different revision.
pub proof fn law_invalidation_clears(m: SpellModel, enabled: bool, now: u64)
    ensures
        invalidated(m, enabled, true, now).dirty_since is None,
        invalidated(m, enabled, false, now).issues.len() == 0,
        invalidated(m, enabled, false, now).revision != m.revision,
{
}

} // verus!
