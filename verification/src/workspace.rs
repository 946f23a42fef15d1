//! Which documents are open, the panes showing them, and which pane has
//! focus.
//!
//! The panes mirror the pane grid's contents: each pane's id and what it
//! shows, in the grid's order. Where a pane sits on screen, and which
//! neighbour takes over the space of a closed pane, is the grid's business
//! and comes in as an argument.

use vstd::prelude::*;

use crate::selection::DocId;
use crate::strings::{concat, str_eq};

verus! {

/// What a pane shows.
#[derive(Debug, Clone, Copy, PartialEq, Eq, Structural)]
pub enum PaneKind {
    Editor(DocId),
    Preview,
}

/// The outcome of a request to close a pane.
#[derive(Debug, Clone, Copy, PartialEq, Eq, Structural)]
pub enum ClosePaneResult {
    NotClosed,
    Closed { preview: bool },
}

/// Open documents (by id, ascending), the active one, the next id to hand
/// out, the panes, the focused pane and the fullscreen pane, if any.
#[derive(Debug)]
pub struct Workspace {
    pub documents: Vec<DocId>,
    pub active: DocId,
    pub next_id: DocId,
    pub panes: Vec<(usize, PaneKind)>,
    pub focused: usize,
    pub fullscreen: Option<usize>,
}

/// The workspace as plain values.
pub struct WorkspaceModel {
    pub documents: Seq<DocId>,
    pub active: DocId,
    pub next_id: DocId,
    pub panes: Seq<(usize, PaneKind)>,
    pub focused: usize,
    pub fullscreen: Option<usize>,
}

impl View for Workspace {
    type V = WorkspaceModel;

    open spec fn view(&self) -> WorkspaceModel {
        WorkspaceModel {
            documents: self.documents@,
            active: self.active,
            next_id: self.next_id,
            panes: self.panes@,
            focused: self.focused,
            fullscreen: self.fullscreen,
        }
    }
}

/// What the first pane with id `p` at or after index `i` shows.
pub open spec fn kind_from(panes: Seq<(usize, PaneKind)>, p: usize, i: int) -> Option<PaneKind>
    decreases panes.len() - i,
{
    if i < 0 || i >= panes.len() {
        None
    } else if panes[i].0 == p {
        Some(panes[i].1)
    } else {
        kind_from(panes, p, i + 1)
    }
}

/// What pane `p` shows, if the grid has it.
pub open spec fn kind_of(panes: Seq<(usize, PaneKind)>, p: usize) -> Option<PaneKind> {
    kind_from(panes, p, 0)
}

/// The first pane at or after index `i` editing document `d`.
pub open spec fn editor_from(panes: Seq<(usize, PaneKind)>, d: DocId, i: int) -> Option<usize>
    decreases panes.len() - i,
{
    if i < 0 || i >= panes.len() {
        None
    } else if panes[i].1 == PaneKind::Editor(d) {
        Some(panes[i].0)
    } else {
        editor_from(panes, d, i + 1)
    }
}

/// The first pane editing document `d`.
pub open spec fn editor_of(panes: Seq<(usize, PaneKind)>, d: DocId) -> Option<usize> {
    editor_from(panes, d, 0)
}

/// Some pane edits document `d`.
pub open spec fn shown(panes: Seq<(usize, PaneKind)>, d: DocId) -> bool {
    exists|i: int| 0 <= i < panes.len() && #[trigger] panes[i].1 == PaneKind::Editor(d)
}

/// The number of editor panes.
pub open spec fn editor_count(panes: Seq<(usize, PaneKind)>) -> nat
    decreases panes.len(),
{
    if panes.len() == 0 {
        0
    } else {
        editor_count(panes.drop_last()) + if panes.last().1 is Editor {
            1nat
        } else {
            0nat
        }
    }
}

/// The smallest document id an editor pane shows.
pub open spec fn min_shown(panes: Seq<(usize, PaneKind)>) -> Option<DocId>
    decreases panes.len(),
{
    if panes.len() == 0 {
        None
    } else {
        let rest = min_shown(panes.drop_last());
        match panes.last().1 {
            PaneKind::Editor(d) => match rest {
                Some(m) => Some(if d < m { d } else { m }),
                None => Some(d),
            },
            PaneKind::Preview => rest,
        }
    }
}

/// The panes without pane `p`.
pub open spec fn without_pane(panes: Seq<(usize, PaneKind)>, p: usize) -> Seq<(usize, PaneKind)>
    decreases panes.len(),
{
    if panes.len() == 0 {
        Seq::empty()
    } else if panes.last().0 == p {
        without_pane(panes.drop_last(), p)
    } else {
        without_pane(panes.drop_last(), p).push(panes.last())
    }
}

/// The documents some editor pane still shows, in order.
pub open spec fn kept_documents(docs: Seq<DocId>, panes: Seq<(usize, PaneKind)>) -> Seq<DocId>
    decreases docs.len(),
{
    if docs.len() == 0 {
        Seq::empty()
    } else if shown(panes, docs.last()) {
        kept_documents(docs.drop_last(), panes).push(docs.last())
    } else {
        kept_documents(docs.drop_last(), panes)
    }
}

/// Focus pane `p`: it becomes the focused (and, when one is shown, the
/// fullscreen) pane, and when it edits a document that document becomes
/// active.
pub open spec fn focused_on(m: WorkspaceModel, p: usize) -> WorkspaceModel {
    WorkspaceModel {
        focused: p,
        fullscreen: match m.fullscreen {
            Some(_) => Some(p),
            None => None,
        },
        active: match kind_of(m.panes, p) {
            Some(PaneKind::Editor(d)) => d,
            _ => m.active,
        },
        ..m
    }
}

/// Restore the invariants after panes went away: only documents with an
/// editor pane stay open, the active document falls back to the smallest
/// shown id, and a focus on a pane that is gone moves to the active
/// document's editor (or else the first pane).
pub open spec fn validated(m: WorkspaceModel) -> WorkspaceModel {
    let active = if shown(m.panes, m.active) {
        m.active
    } else {
        match min_shown(m.panes) {
            Some(d) => d,
            None => m.active,
        }
    };
    let focused = if kind_of(m.panes, m.focused) is Some {
        m.focused
    } else {
        match editor_of(m.panes, active) {
            Some(p) => p,
            None => m.panes[0].0,
        }
    };
    WorkspaceModel { documents: kept_documents(m.documents, m.panes), active, focused, ..m }
}

/// Closing `pane` is refused for the last editor and for a pane the grid
/// does not have.
pub open spec fn close_refused(m: WorkspaceModel, pane: usize) -> bool {
    ||| kind_of(m.panes, pane) is None
    ||| (kind_of(m.panes, pane) matches Some(PaneKind::Editor(_)) && editor_count(m.panes) <= 1)
}

/// The workspace after closing `pane`, whose space `sibling` takes over: the
/// pane is gone, focus moves to the sibling if it was on the closed pane,
/// and the invariants are restored.
pub open spec fn closed(m: WorkspaceModel, pane: usize, sibling: usize) -> WorkspaceModel {
    let gone = WorkspaceModel { panes: without_pane(m.panes, pane), ..m };
    let refocused = if m.focused == pane {
        focused_on(gone, sibling)
    } else {
        gone
    };
    validated(refocused)
}

/// The pane ids are distinct.
pub open spec fn distinct_panes(panes: Seq<(usize, PaneKind)>) -> bool {
    forall|i: int, j: int| 0 <= i < j < panes.len() ==> (#[trigger] panes[i]).0 != (#[trigger] panes[j]).0
}

proof fn lemma_kind_from(panes: Seq<(usize, PaneKind)>, p: usize, i: int)
    requires
        0 <= i <= panes.len(),
    ensures
        kind_from(panes, p, i) is None <==> forall|j: int| i <= j < panes.len() ==> (#[trigger] panes[j]).0 != p,
        kind_from(panes, p, i) matches Some(k) ==> exists|j: int|
            i <= j < panes.len() && (#[trigger] panes[j]).0 == p && panes[j].1 == k,
    decreases panes.len() - i,
{
    if i < panes.len() {
        lemma_kind_from(panes, p, i + 1);
    }
}

proof fn lemma_editor_from(panes: Seq<(usize, PaneKind)>, d: DocId, i: int)
    requires
        0 <= i <= panes.len(),
    ensures
        editor_from(panes, d, i) is None <==> forall|j: int|
            i <= j < panes.len() ==> (#[trigger] panes[j]).1 != PaneKind::Editor(d),
    decreases panes.len() - i,
{
    if i < panes.len() {
        lemma_editor_from(panes, d, i + 1);
    }
}

proof fn lemma_editor_count_shown(panes: Seq<(usize, PaneKind)>)
    ensures
        editor_count(panes) >= 1 <==> exists|i: int| 0 <= i < panes.len() && (#[trigger] panes[i]).1 is Editor,
        editor_count(panes) <= panes.len(),
    decreases panes.len(),
{
    if panes.len() > 0 {
        let rest = panes.drop_last();
        lemma_editor_count_shown(rest);
        if exists|i: int| 0 <= i < rest.len() && (#[trigger] rest[i]).1 is Editor {
            let i = choose|i: int| 0 <= i < rest.len() && (#[trigger] rest[i]).1 is Editor;
            assert(panes[i] == rest[i]);
        }
        if exists|i: int| 0 <= i < panes.len() && (#[trigger] panes[i]).1 is Editor {
            let i = choose|i: int| 0 <= i < panes.len() && (#[trigger] panes[i]).1 is Editor;
            if i < rest.len() {
                assert(rest[i] == panes[i]);
            }
        }
    }
}

proof fn lemma_min_shown(panes: Seq<(usize, PaneKind)>)
    ensures
        min_shown(panes) is Some <==> editor_count(panes) >= 1,
        min_shown(panes) matches Some(d) ==> shown(panes, d),
    decreases panes.len(),
{
    if panes.len() > 0 {
        let rest = panes.drop_last();
        lemma_min_shown(rest);
        match min_shown(rest) {
            Some(m) => {
                let i = choose|i: int| 0 <= i < rest.len() && #[trigger] rest[i].1 == PaneKind::Editor(m);
                assert(panes[i] == rest[i]);
            },
            None => {},
        }
        if panes.last().1 is Editor {
            assert(panes[panes.len() - 1] == panes.last());
        }
    }
}

impl Workspace {
    /// A workspace with one document, `first_id`, in one editor pane.
    pub fn new(first_id: DocId, first_pane: usize) -> (w: Self)
        requires
            first_id < usize::MAX,
        ensures
            w@.documents == seq![first_id],
            w@.active == first_id,
            w@.next_id == first_id + 1,
            w@.panes == seq![(first_pane, PaneKind::Editor(first_id))],
            w@.focused == first_pane,
            w@.fullscreen is None,
    {
        let mut documents = Vec::new();
        documents.push(first_id);
        let mut panes = Vec::new();
        panes.push((first_pane, PaneKind::Editor(first_id)));
        Workspace { documents, active: first_id, next_id: first_id + 1, panes, focused: first_pane, fullscreen: None }
    }

    /// The id of the active document.
    pub fn active_id(&self) -> (r: DocId)
        ensures
            r == self@.active,
    {
        self.active
    }

    /// What pane `pane` shows, if the grid has it.
    pub fn kind(&self, pane: usize) -> (r: Option<PaneKind>)
        ensures
            r == kind_of(self@.panes, pane),
    {
        let mut i: usize = 0;
        while i < self.panes.len()
            invariant
                i <= self.panes@.len(),
                kind_of(self.panes@, pane) == kind_from(self.panes@, pane, i as int),
            decreases self.panes@.len() - i,
        {
            if self.panes[i].0 == pane {
                return Some(self.panes[i].1);
            }
            i = i + 1;
        }
        None
    }

    /// The pane editing document `id`, if any.
    pub fn pane_of_document(&self, id: DocId) -> (r: Option<usize>)
        ensures
            r == editor_of(self@.panes, id),
    {
        let mut i: usize = 0;
        while i < self.panes.len()
            invariant
                i <= self.panes@.len(),
                editor_of(self.panes@, id) == editor_from(self.panes@, id, i as int),
            decreases self.panes@.len() - i,
        {
            if self.panes[i].1 == PaneKind::Editor(id) {
                return Some(self.panes[i].0);
            }
            i = i + 1;
        }
        None
    }

    /// How many editor panes there are.
    pub fn editor_count(&self) -> (r: usize)
        ensures
            r == editor_count(self@.panes),
    {
        let mut n: usize = 0;
        let mut i: usize = 0;
        while i < self.panes.len()
            invariant
                i <= self.panes@.len(),
                n == editor_count(self.panes@.take(i as int)),
                n <= i,
            decreases self.panes@.len() - i,
        {
            assert(self.panes@.take(i + 1).drop_last() =~= self.panes@.take(i as int));
            match self.panes[i].1 {
                PaneKind::Editor(_) => {
                    n = n + 1;
                },
                PaneKind::Preview => {},
            }
            i = i + 1;
        }
        assert(self.panes@.take(self.panes@.len() as int) =~= self.panes@);
        n
    }

    /// Focus pane `pane` (see [`focused_on`]).
    pub fn focus(&mut self, pane: usize)
        ensures
            final(self)@ == focused_on(old(self)@, pane),
    {
        self.focused = pane;
        self.fullscreen = match self.fullscreen {
            Some(_) => Some(pane),
            None => None,
        };
        match self.kind(pane) {
            Some(PaneKind::Editor(id)) => {
                self.active = id;
            },
            _ => {},
        }
    }

    /// Hand out a fresh document id.
    pub fn allocate_document_id(&mut self) -> (r: DocId)
        requires
            old(self).next_id < usize::MAX,
        ensures
            r == old(self)@.next_id,
            final(self)@ == (WorkspaceModel { next_id: (old(self)@.next_id + 1) as usize, ..old(self)@ }),
    {
        let id = self.next_id;
        self.next_id = self.next_id + 1;
        id
    }

    /// Open a new document under a fresh id.
    pub fn insert_document(&mut self) -> (r: DocId)
        requires
            old(self).next_id < usize::MAX,
        ensures
            r == old(self)@.next_id,
            final(self)@ == (WorkspaceModel {
                documents: old(self)@.documents.push(r),
                next_id: (old(self)@.next_id + 1) as usize,
                ..old(self)@
            }),
    {
        let id = self.allocate_document_id();
        self.documents.push(id);
        id
    }

    /// The pane a new editor is split from: the active document's editor,
    /// else the focused pane.
    pub fn split_anchor(&self) -> (r: usize)
        ensures
            r == (match editor_of(self@.panes, self@.active) {
                Some(p) => p,
                None => self@.focused,
            }),
    {
        match self.pane_of_document(self.active) {
            Some(p) => p,
            None => self.focused,
        }
    }

    /// Show document `id` in the pane `new_pane` the grid split off the
    /// anchor, and focus it; when the grid could not split, `id` just becomes
    /// the active document.
    pub fn split_editor(&mut self, id: DocId, new_pane: Option<usize>)
        ensures
            final(self)@ == (match new_pane {
                Some(p) => focused_on(
                    WorkspaceModel {
                        panes: old(self)@.panes.push((p, PaneKind::Editor(id))),
                        ..old(self)@
                    },
                    p,
                ),
                None => WorkspaceModel { active: id, ..old(self)@ },
            }),
    {
        match new_pane {
            Some(p) => {
                self.panes.push((p, PaneKind::Editor(id)));
                self.focus(p);
            },
            None => {
                self.active = id;
            },
        }
    }

    /// Move the focus `direction` panes along the grid's order (1 next,
    /// -1 previous), wrapping, and tell what the newly focused pane shows;
    /// nothing happens when the focused pane is not in the grid.
    pub fn cycle_focus(&mut self, direction: isize) -> (r: Option<PaneKind>)
        requires
            old(self)@.panes.len() <= isize::MAX,
            old(self)@.panes.len() - 1 + direction <= isize::MAX,
        ensures
            match cycle_target(old(self)@, direction as int) {
                Some(next) => final(self)@ == focused_on(old(self)@, next) && r == kind_of(
                    old(self)@.panes,
                    next,
                ),
                None => final(self)@ == old(self)@ && r is None,
            },
    {
        let n = self.panes.len();
        let mut i: usize = 0;
        while i < n
            invariant
                n == self.panes@.len(),
                i <= n,
                index_from(self.panes@, self.focused, 0) == index_from(self.panes@, self.focused, i as int),
            ensures
                i <= n,
                index_from(self.panes@, self.focused, 0) == index_from(self.panes@, self.focused, i as int),
                i < n ==> self.panes@[i as int].0 == self.focused,
            decreases n - i,
        {
            if self.panes[i].0 == self.focused {
                break;
            }
            i = i + 1;
        }
        if i >= n {
            return None;
        }
        proof {
            lemma_index_from(self.panes@, self.focused, 0);
        }
        let s: i128 = i as i128 + direction as i128;
        let m: i128 = n as i128;
        let k: i128 = if s >= 0 {
            s % m
        } else {
            let q = (-s) % m;
            proof {
                lemma_euclid_mod(s as int, m as int, q as int);
            }
            if q == 0 {
                0
            } else {
                m - q
            }
        };
        assert(k == (i as int + direction as int) % (n as int));
        let next = self.panes[k as usize].0;
        self.focus(next);
        self.kind(next)
    }

    /// Restore the invariants (see [`validated`]).
    pub fn validate(&mut self)
        requires
            editor_count(old(self)@.panes) >= 1,
        ensures
            final(self)@ == validated(old(self)@),
    {
        let ghost m = self@;
        proof {
            lemma_editor_count_shown(m.panes);
            lemma_min_shown(m.panes);
        }
        // documents some editor still shows
        let mut kept: Vec<DocId> = Vec::new();
        let mut i: usize = 0;
        while i < self.documents.len()
            invariant
                i <= self.documents@.len(),
                self@ == m,
                kept@ == kept_documents(m.documents.take(i as int), m.panes),
            decreases self.documents@.len() - i,
        {
            assert(m.documents.take(i + 1).drop_last() =~= m.documents.take(i as int));
            if self.is_shown(self.documents[i]) {
                kept.push(self.documents[i]);
            }
            i = i + 1;
        }
        assert(m.documents.take(m.documents.len() as int) =~= m.documents);
        if !self.is_shown(self.active) {
            match self.smallest_shown() {
                Some(d) => {
                    self.active = d;
                },
                None => {},
            }
        }
        if self.kind(self.focused).is_none() {
            self.focused = match self.pane_of_document(self.active) {
                Some(p) => p,
                None => self.panes[0].0,
            };
        }
        self.documents = kept;
    }

    fn is_shown(&self, d: DocId) -> (r: bool)
        ensures
            r == shown(self@.panes, d),
    {
        let mut i: usize = 0;
        while i < self.panes.len()
            invariant
                i <= self.panes@.len(),
                forall|k: int| 0 <= k < i ==> (#[trigger] self.panes@[k]).1 != PaneKind::Editor(d),
            decreases self.panes@.len() - i,
        {
            if self.panes[i].1 == PaneKind::Editor(d) {
                return true;
            }
            i = i + 1;
        }
        false
    }

    fn smallest_shown(&self) -> (r: Option<DocId>)
        ensures
            r == min_shown(self@.panes),
    {
        let mut best: Option<DocId> = None;
        let mut i: usize = 0;
        while i < self.panes.len()
            invariant
                i <= self.panes@.len(),
                best == min_shown(self.panes@.take(i as int)),
            decreases self.panes@.len() - i,
        {
            assert(self.panes@.take(i + 1).drop_last() =~= self.panes@.take(i as int));
            match self.panes[i].1 {
                PaneKind::Editor(d) => {
                    best = match best {
                        Some(m) => Some(if d < m { d } else { m }),
                        None => Some(d),
                    };
                },
                PaneKind::Preview => {},
            }
            i = i + 1;
        }
        assert(self.panes@.take(self.panes@.len() as int) =~= self.panes@);
        best
    }

    fn remove_pane(&mut self, pane: usize)
        ensures
            final(self)@ == (WorkspaceModel { panes: without_pane(old(self)@.panes, pane), ..old(self)@ }),
    {
        let ghost all = self.panes@;
        let mut out: Vec<(usize, PaneKind)> = Vec::new();
        let mut i: usize = 0;
        while i < self.panes.len()
            invariant
                i <= self.panes@.len(),
                all == self.panes@,
                out@ == without_pane(all.take(i as int), pane),
            decreases self.panes@.len() - i,
        {
            assert(all.take(i + 1).drop_last() =~= all.take(i as int));
            if self.panes[i].0 != pane {
                out.push(self.panes[i]);
            }
            i = i + 1;
        }
        assert(all.take(all.len() as int) =~= all);
        self.panes = out;
    }

    /// Close `pane`, whose space the grid gives to `sibling`. The last editor
    /// never closes; an editor's document is dropped with it unless another
    /// editor shows it.
    pub fn close_pane(&mut self, pane: usize, sibling: usize) -> (r: ClosePaneResult)
        requires
            editor_count(old(self)@.panes) >= 1,
            distinct_panes(old(self)@.panes),
        ensures
            close_refused(old(self)@, pane) ==> r == ClosePaneResult::NotClosed && final(self)@
                == old(self)@,
            !close_refused(old(self)@, pane) ==> r == (ClosePaneResult::Closed {
                preview: kind_of(old(self)@.panes, pane) == Some(PaneKind::Preview),
            }) && final(self)@ == closed(old(self)@, pane, sibling),
    {
        let kind = self.kind(pane);
        let count = self.editor_count();
        let refuse = match kind {
            Some(PaneKind::Editor(_)) => count <= 1,
            Some(PaneKind::Preview) => false,
            None => true,
        };
        if refuse {
            return ClosePaneResult::NotClosed;
        }
        let ghost m = self@;
        self.remove_pane(pane);
        proof {
            lemma_without_pane_count(m.panes, pane);
        }
        if self.focused == pane {
            self.focus(sibling);
        }
        self.validate();
        ClosePaneResult::Closed { preview: kind == Some(PaneKind::Preview) }
    }
}

/// Some pane shows the preview.
pub open spec fn has_preview(panes: Seq<(usize, PaneKind)>) -> bool {
    exists|i: int| 0 <= i < panes.len() && #[trigger] panes[i].1 == PaneKind::Preview
}

/// Where a preview pane is split off: the active document's editor, when
/// the active document wants a preview and no pane shows one yet. There is
/// one preview pane, which follows the focus.
pub open spec fn preview_anchor_of(m: WorkspaceModel, wants_preview: bool) -> Option<usize> {
    if wants_preview && !has_preview(m.panes) {
        editor_of(m.panes, m.active)
    } else {
        None
    }
}

/// The workspace after the grid split the preview pane `pane` off: the
/// focus stays where it was.
pub open spec fn with_preview(m: WorkspaceModel, pane: usize) -> WorkspaceModel {
    WorkspaceModel { panes: m.panes.push((pane, PaneKind::Preview)), ..m }
}

/// Focusing an open document: its editor pane when it has one, else it just
/// becomes the active document.
pub open spec fn document_focused(m: WorkspaceModel, id: DocId) -> WorkspaceModel {
    match editor_of(m.panes, id) {
        Some(p) => focused_on(m, p),
        None => WorkspaceModel { active: id, ..m },
    }
}

impl Workspace {
    /// Where to split off a preview pane, if one is needed (see
    /// [`preview_anchor_of`]).
    pub fn preview_anchor(&self, wants_preview: bool) -> (r: Option<usize>)
        ensures
            r == preview_anchor_of(self@, wants_preview),
    {
        if !wants_preview {
            return None;
        }
        let mut i: usize = 0;
        while i < self.panes.len()
            invariant
                i <= self.panes@.len(),
                forall|j: int| 0 <= j < i ==> (#[trigger] self.panes@[j]).1 != PaneKind::Preview,
            decreases self.panes@.len() - i,
        {
            if self.panes[i].1 == PaneKind::Preview {
                return None;
            }
            i = i + 1;
        }
        self.pane_of_document(self.active)
    }

    /// Record the preview pane `pane` that the grid split off the anchor.
    pub fn add_preview(&mut self, pane: usize)
        ensures
            final(self)@ == with_preview(old(self)@, pane),
    {
        self.panes.push((pane, PaneKind::Preview));
    }

    /// Bring the open document `id` to the front (see
    /// [`document_focused`]).
    pub fn focus_document(&mut self, id: DocId)
        ensures
            final(self)@ == document_focused(old(self)@, id),
    {
        match self.pane_of_document(id) {
            Some(p) => self.focus(p),
            None => {
                self.active = id;
            },
        }
    }
}

/// There is never a second preview pane: once one is added, no further
/// anchor is offered, whatever the active document wants.
pub proof fn law_one_preview_pane(m: WorkspaceModel, pane: usize, wants_preview: bool)
    ensures
        preview_anchor_of(with_preview(m, pane), wants_preview) is None,
{
    let panes = with_preview(m, pane).panes;
    assert(panes[panes.len() - 1].1 == PaneKind::Preview);
}

/// Where a file being opened goes.
#[derive(Debug, Clone, Copy, PartialEq, Eq, Structural)]
pub enum OpenTarget {
    /// The file is already open as this document: focus it.
    Focus(DocId),
    /// Load it into the active pane, which holds a pristine scratch buffer.
    ReplaceScratch,
    /// Load it as a new document in a new editor pane.
    NewPane,
}

/// The first open document, at or after index `i`, whose path is `path`,
/// compared component by component.
pub open spec fn open_with_path(open: Seq<(DocId, Option<Seq<char>>)>, path: Seq<char>, i: int) -> Option<DocId>
    decreases open.len() - i,
{
    if i < 0 || i >= open.len() {
        None
    } else if open[i].1 matches Some(q) && crate::paths::same_path_spec(q, path) {
        Some(open[i].0)
    } else {
        open_with_path(open, path, i + 1)
    }
}

/// Opening `path`, with documents `open` (id and path, in id order): an open
/// file is focused; otherwise a pristine scratch buffer in the active pane
/// is replaced, and else a new pane opens.
pub open spec fn open_target_for(
    open: Seq<(DocId, Option<Seq<char>>)>,
    path: Seq<char>,
    active_pristine: bool,
) -> OpenTarget {
    match open_with_path(open, path, 0) {
        Some(id) => OpenTarget::Focus(id),
        None => if active_pristine {
            OpenTarget::ReplaceScratch
        } else {
            OpenTarget::NewPane
        },
    }
}

proof fn lemma_open_with_path(open: Seq<(DocId, Option<Seq<char>>)>, path: Seq<char>, i: int, k: int)
    requires
        0 <= i <= k < open.len(),
        open[k].1 matches Some(q) && crate::paths::same_path_spec(q, path),
    ensures
        open_with_path(open, path, i) is Some,
    decreases k - i,
{
    if i < k && !(open[i].1 matches Some(q) && crate::paths::same_path_spec(q, path)) {
        lemma_open_with_path(open, path, i + 1, k);
    }
}

proof fn lemma_open_with_path_found(open: Seq<(DocId, Option<Seq<char>>)>, path: Seq<char>, i: int)
    requires
        0 <= i,
    ensures
        open_with_path(open, path, i) matches Some(id) ==> exists|k: int|
            #![trigger open[k]]
            i <= k < open.len() && open[k].0 == id && (open[k].1 matches Some(q) && crate::paths::same_path_spec(
                q,
                path,
            )),
    decreases open.len() - i,
{
    if i < open.len() && !(open[i].1 matches Some(q) && crate::paths::same_path_spec(q, path)) {
        lemma_open_with_path_found(open, path, i + 1);
    }
}

/// Focusing goes to the file being opened: when opening `path` focuses
/// document `id`, an open document with that id holds a path naming the
/// same file.
pub proof fn law_focus_goes_to_that_file(
    open: Seq<(DocId, Option<Seq<char>>)>,
    path: Seq<char>,
    active_pristine: bool,
)
    ensures
        open_target_for(open, path, active_pristine) matches OpenTarget::Focus(id) ==> exists|k: int|
            #![trigger open[k]]
            0 <= k < open.len() && open[k].0 == id && (open[k].1 matches Some(q) && crate::paths::same_path_spec(
                q,
                path,
            )),
{
    lemma_open_with_path_found(open, path, 0);
}

/// Opening a file that is already open focuses its document rather than
/// loading it again, whatever the active pane holds.
pub proof fn law_open_file_is_focused(
    open: Seq<(DocId, Option<Seq<char>>)>,
    path: Seq<char>,
    k: int,
    active_pristine: bool,
)
    requires
        0 <= k < open.len(),
        open[k].1 matches Some(q) && crate::paths::same_path_spec(q, path),
    ensures
        open_target_for(open, path, active_pristine) is Focus,
{
    lemma_open_with_path(open, path, 0, k);
}

/// The documents' paths as plain values.
pub open spec fn paths_view(open: Seq<(DocId, Option<String>)>) -> Seq<(DocId, Option<Seq<char>>)> {
    open.map_values(
        |e: (DocId, Option<String>)|
            (
                e.0,
                match e.1 {
                    Some(p) => Some(p@),
                    None => None,
                },
            ),
    )
}

/// Where opening `path` puts it (see [`open_target_for`]).
pub fn open_target(open: &Vec<(DocId, Option<String>)>, path: &str, active_pristine: bool) -> (r: OpenTarget)
    ensures
        r == open_target_for(paths_view(open@), path@, active_pristine),
{
    let ghost v = paths_view(open@);
    let mut i: usize = 0;
    while i < open.len()
        invariant
            i <= open@.len(),
            v == paths_view(open@),
            open_with_path(v, path@, 0) == open_with_path(v, path@, i as int),
        decreases open@.len() - i,
    {
        let found = match &open[i].1 {
            Some(p) => crate::paths::same_path(p.as_str(), path),
            None => false,
        };
        assert(v[i as int] == (open@[i as int].0, match open@[i as int].1 {
            Some(p) => Some(p@),
            None => None::<Seq<char>>,
        }));
        if found {
            return OpenTarget::Focus(open[i].0);
        }
        i = i + 1;
    }
    if active_pristine {
        OpenTarget::ReplaceScratch
    } else {
        OpenTarget::NewPane
    }
}

/// The index of the first pane with id `p` at or after `i`.
pub open spec fn index_from(panes: Seq<(usize, PaneKind)>, p: usize, i: int) -> Option<int>
    decreases panes.len() - i,
{
    if i < 0 || i >= panes.len() {
        None
    } else if panes[i].0 == p {
        Some(i)
    } else {
        index_from(panes, p, i + 1)
    }
}

/// Cycling the focus `direction` panes along the grid's order, wrapping:
/// the pane it lands on, when the focused pane is in the grid.
pub open spec fn cycle_target(m: WorkspaceModel, direction: int) -> Option<usize> {
    match index_from(m.panes, m.focused, 0) {
        Some(i) => Some(m.panes[(i + direction) % (m.panes.len() as int)].0),
        None => None,
    }
}

proof fn lemma_index_from(panes: Seq<(usize, PaneKind)>, p: usize, i: int)
    requires
        0 <= i <= panes.len(),
    ensures
        index_from(panes, p, i) matches Some(k) ==> i <= k < panes.len(),
    decreases panes.len() - i,
{
    if i < panes.len() {
        lemma_index_from(panes, p, i + 1);
    }
}

proof fn lemma_euclid_mod(s: int, m: int, q: int)
    requires
        m > 0,
        s < 0,
        q == (-s) % m,
    ensures
        s % m == (if q == 0 {
            0
        } else {
            m - q
        }),
{
    let k = (-s) / m;
    assert((-s) == k * m + q && 0 <= q < m) by (nonlinear_arith)
        requires
            m > 0,
            k == (-s) / m,
            q == (-s) % m,
    ;
    if q == 0 {
        assert(s == (-k) * m + 0) by (nonlinear_arith)
            requires
                (-s) == k * m,
        ;
        vstd::arithmetic::div_mod::lemma_fundamental_div_mod_converse(s, m, -k, 0);
    } else {
        assert(s == (-k - 1) * m + (m - q)) by (nonlinear_arith)
            requires
                (-s) == k * m + q,
        ;
        vstd::arithmetic::div_mod::lemma_fundamental_div_mod_converse(s, m, -k - 1, m - q);
    }
}

proof fn lemma_kind_push(s: Seq<(usize, PaneKind)>, x: (usize, PaneKind), p: usize, i: int)
    requires
        0 <= i <= s.len(),
    ensures
        kind_from(s.push(x), p, i) == (match kind_from(s, p, i) {
            Some(k) => Some(k),
            None => if x.0 == p {
                Some(x.1)
            } else {
                None
            },
        }),
    decreases s.len() - i,
{
    if i < s.len() {
        assert(s.push(x)[i] == s[i]);
        lemma_kind_push(s, x, p, i + 1);
    } else {
        assert(s.push(x)[i] == x);
        assert(kind_from(s.push(x), p, i + 1) is None);
        assert(kind_from(s, p, i) is None);
    }
}

proof fn lemma_without_pane_count(panes: Seq<(usize, PaneKind)>, p: usize)
    requires
        distinct_panes(panes),
    ensures
        (kind_of(panes, p) matches Some(PaneKind::Editor(_))) ==> editor_count(without_pane(panes, p)) + 1
            == editor_count(panes),
        !(kind_of(panes, p) matches Some(PaneKind::Editor(_))) ==> editor_count(without_pane(panes, p))
            == editor_count(panes),
    decreases panes.len(),
{
    if panes.len() > 0 {
        let rest = panes.drop_last();
        let x = panes.last();
        assert(panes =~= rest.push(x));
        assert(distinct_panes(rest)) by {
            assert forall|i: int, j: int| 0 <= i < j < rest.len() implies (#[trigger] rest[i]).0 != (
            #[trigger] rest[j]).0 by {
                assert(rest[i] == panes[i] && rest[j] == panes[j]);
            }
        }
        lemma_without_pane_count(rest, p);
        lemma_kind_push(rest, x, p, 0);
        assert(without_pane(rest, p).push(x).drop_last() =~= without_pane(rest, p));
        assert(without_pane(rest, p).push(x).last() == x);
        if x.0 == p {
            lemma_kind_from(rest, p, 0);
            assert forall|j: int| 0 <= j < rest.len() implies (#[trigger] rest[j]).0 != p by {
                assert(rest[j] == panes[j]);
                assert(panes[panes.len() - 1] == x);
            }
        }
    }
}

proof fn lemma_kept_documents(docs: Seq<DocId>, panes: Seq<(usize, PaneKind)>)
    ensures
        forall|k: int| 0 <= k < kept_documents(docs, panes).len() ==> shown(panes, #[trigger] kept_documents(docs, panes)[k]),
        forall|d: DocId| kept_documents(docs, panes).contains(d) ==> shown(panes, d),
    decreases docs.len(),
{
    if docs.len() > 0 {
        lemma_kept_documents(docs.drop_last(), panes);
        let rest = kept_documents(docs.drop_last(), panes);
        assert forall|k: int| 0 <= k < kept_documents(docs, panes).len() implies shown(panes, #[trigger] kept_documents(docs, panes)[k]) by {
            if k < rest.len() {
                assert(kept_documents(docs, panes)[k] == rest[k]);
            }
        }
    }
}

proof fn lemma_editor_from_found(panes: Seq<(usize, PaneKind)>, d: DocId, i: int)
    requires
        0 <= i <= panes.len(),
    ensures
        editor_from(panes, d, i) matches Some(p) ==> exists|j: int| i <= j < panes.len() && (#[trigger] panes[j]).0 == p,
    decreases panes.len() - i,
{
    if i < panes.len() {
        lemma_editor_from_found(panes, d, i + 1);
    }
}

proof fn lemma_without_pane_entries(panes: Seq<(usize, PaneKind)>, p: usize)
    ensures
        forall|k: int| 0 <= k < without_pane(panes, p).len() ==> (exists|j: int| 0 <= j < panes.len() && panes[j] == #[trigger] without_pane(panes, p)[k] && panes[j].0 != p),
    decreases panes.len(),
{
    if panes.len() > 0 {
        let rest = panes.drop_last();
        lemma_without_pane_entries(rest, p);
        let w = without_pane(panes, p);
        let wr = without_pane(rest, p);
        assert forall|k: int| 0 <= k < w.len() implies (exists|j: int| 0 <= j < panes.len() && panes[j] == #[trigger] w[k] && panes[j].0 != p) by {
            if k < wr.len() {
                assert(w[k] == wr[k]);
                let j = choose|j: int| 0 <= j < rest.len() && rest[j] == #[trigger] wr[k] && rest[j].0 != p;
                assert(panes[j] == rest[j]);
            } else {
                assert(w[k] == panes.last());
                assert(panes[panes.len() - 1] == panes.last());
            }
        }
    }
}

/// After the invariants are restored, every open document has an editor
/// pane, the active document is one of them, and the focused pane exists.
pub proof fn law_validated_is_consistent(m: WorkspaceModel)
    requires
        editor_count(m.panes) >= 1,
    ensures
        forall|d: DocId| validated(m).documents.contains(d) ==> shown(validated(m).panes, d),
        shown(validated(m).panes, validated(m).active),
        kind_of(validated(m).panes, validated(m).focused) is Some,
        validated(m).panes == m.panes,
{
    let v = validated(m);
    lemma_kept_documents(m.documents, m.panes);
    lemma_min_shown(m.panes);
    lemma_editor_count_shown(m.panes);
    lemma_kind_from(m.panes, v.focused, 0);
    if kind_of(m.panes, m.focused) is None {
        match editor_of(m.panes, v.active) {
            Some(p) => {
                lemma_editor_from_found(m.panes, v.active, 0);
            },
            None => {
                assert(m.panes.len() > 0);
                assert(m.panes[0].0 == v.focused);
            },
        }
    }
}

/// Closing a pane never leaves the workspace without an editor.
pub proof fn law_close_keeps_an_editor(m: WorkspaceModel, pane: usize, sibling: usize)
    requires
        editor_count(m.panes) >= 1,
        distinct_panes(m.panes),
    ensures
        !close_refused(m, pane) ==> editor_count(closed(m, pane, sibling).panes) >= 1,
        kind_of(m.panes, pane) matches Some(PaneKind::Editor(_)) && editor_count(m.panes) == 1 ==> close_refused(m, pane),
{
    lemma_without_pane_count(m.panes, pane);
}

/// The preview reopens on the next save: once the only preview pane is
/// closed, a new one is offered beside the active document's editor.
pub proof fn law_preview_reopens_after_close(m: WorkspaceModel, pane: usize, sibling: usize)
    requires
        editor_count(m.panes) >= 1,
        distinct_panes(m.panes),
        kind_of(m.panes, pane) == Some(PaneKind::Preview),
        forall|i: int| 0 <= i < m.panes.len() && (#[trigger] m.panes[i]).1 == PaneKind::Preview ==> m.panes[i].0 == pane,
    ensures
        !close_refused(m, pane),
        preview_anchor_of(closed(m, pane, sibling), true) is Some,
        preview_anchor_of(closed(m, pane, sibling), true) == editor_of(
            closed(m, pane, sibling).panes,
            closed(m, pane, sibling).active,
        ),
{
    let gone = WorkspaceModel { panes: without_pane(m.panes, pane), ..m };
    let refocused = if m.focused == pane {
        focused_on(gone, sibling)
    } else {
        gone
    };
    let c = closed(m, pane, sibling);
    assert(refocused.panes == gone.panes);
    lemma_without_pane_count(m.panes, pane);
    lemma_without_pane_entries(m.panes, pane);
    let w = without_pane(m.panes, pane);
    assert forall|k: int| 0 <= k < w.len() implies (#[trigger] w[k]).1 != PaneKind::Preview by {
        let j = choose|j: int| 0 <= j < m.panes.len() && m.panes[j] == #[trigger] w[k] && m.panes[j].0 != pane;
        assert(m.panes[j] == w[k]);
    }
    assert(!has_preview(c.panes));
    law_validated_is_consistent(refocused);
    assert(shown(c.panes, c.active));
    lemma_editor_from(c.panes, c.active, 0);
    let i = choose|i: int| 0 <= i < c.panes.len() && #[trigger] c.panes[i].1 == PaneKind::Editor(c.active);
    assert(c.panes[i].1 == PaneKind::Editor(c.active));
}

/// Closing the only editor of a document drops the document.
pub proof fn law_closing_an_editor_drops_its_document(m: WorkspaceModel, pane: usize, sibling: usize, d: DocId)
    requires
        editor_count(m.panes) >= 2,
        distinct_panes(m.panes),
        kind_of(m.panes, pane) == Some(PaneKind::Editor(d)),
        forall|i: int| 0 <= i < m.panes.len() && (#[trigger] m.panes[i]).1 == PaneKind::Editor(d) ==> m.panes[i].0 == pane,
    ensures
        !close_refused(m, pane),
        !closed(m, pane, sibling).documents.contains(d),
{
    let c = closed(m, pane, sibling);
    let w = without_pane(m.panes, pane);
    lemma_without_pane_entries(m.panes, pane);
    lemma_without_pane_count(m.panes, pane);
    assert(c.panes == w);
    assert(!shown(w, d)) by {
        if shown(w, d) {
            let k = choose|k: int| 0 <= k < w.len() && #[trigger] w[k].1 == PaneKind::Editor(d);
            let j = choose|j: int| 0 <= j < m.panes.len() && m.panes[j] == #[trigger] w[k] && m.panes[j].0 != pane;
            assert(m.panes[j].1 == PaneKind::Editor(d));
        }
    }
    lemma_kept_documents(
        (if m.focused == pane {
            focused_on(WorkspaceModel { panes: w, ..m }, sibling)
        } else {
            WorkspaceModel { panes: w, ..m }
        }).documents,
        w,
    );
}

/// Focusing an editor pane makes its document active, and a fullscreen view
/// follows the focus.
pub proof fn law_focus_follows(m: WorkspaceModel, p: usize, d: DocId)
    ensures
        kind_of(m.panes, p) == Some(PaneKind::Editor(d)) ==> focused_on(m, p).active == d,
        focused_on(m, p).focused == p,
        m.fullscreen is Some ==> focused_on(m, p).fullscreen == Some(p),
        m.fullscreen is None ==> focused_on(m, p).fullscreen is None,
        focused_on(m, p).documents == m.documents && focused_on(m, p).panes == m.panes,
{
}

proof fn lemma_index_of_distinct(panes: Seq<(usize, PaneKind)>, j: int, i: int)
    requires
        distinct_panes(panes),
        0 <= i <= j < panes.len(),
    ensures
        index_from(panes, panes[j].0, i) == Some(j),
    decreases j - i,
{
    if i < j {
        assert(panes[i].0 != panes[j].0);
        lemma_index_of_distinct(panes, j, i + 1);
    }
}

/// Cycling the focus one pane forward and then one back returns to the pane
/// that had it.
pub proof fn law_cycle_forward_then_back(m: WorkspaceModel)
    requires
        distinct_panes(m.panes),
        index_from(m.panes, m.focused, 0) is Some,
    ensures
        cycle_target(m, 1) matches Some(next) && cycle_target(focused_on(m, next), -1) == Some(m.focused),
{
    let n = m.panes.len() as int;
    let i = index_from(m.panes, m.focused, 0).unwrap();
    lemma_index_from(m.panes, m.focused, 0);
    assert(m.panes[i].0 == m.focused) by {
        lemma_index_found(m.panes, m.focused, 0);
    }
    let j = (i + 1) % n;
    if i + 1 < n {
        vstd::arithmetic::div_mod::lemma_small_mod((i + 1) as nat, n as nat);
    } else {
        vstd::arithmetic::div_mod::lemma_fundamental_div_mod_converse(i + 1, n, 1, 0);
    }
    let next = m.panes[j].0;
    lemma_index_of_distinct(m.panes, j, 0);
    let f = focused_on(m, next);
    assert(index_from(f.panes, f.focused, 0) == Some(j));
    if j == 0 {
        vstd::arithmetic::div_mod::lemma_fundamental_div_mod_converse(-1, n, -1, n - 1);
    } else {
        vstd::arithmetic::div_mod::lemma_small_mod((j - 1) as nat, n as nat);
    }
}

proof fn lemma_index_found(panes: Seq<(usize, PaneKind)>, p: usize, i: int)
    requires
        0 <= i <= panes.len(),
    ensures
        index_from(panes, p, i) matches Some(k) ==> panes[k].0 == p,
    decreases panes.len() - i,
{
    if i < panes.len() {
        lemma_index_found(panes, p, i + 1);
    }
}

/// A document's name for titles and the status bar: its path, or
/// `[untitled]` when it has none.
pub fn display_name(path: Option<&str>) -> (r: String)
    ensures
        r@ == (match path {
            Some(p) => p@,
            None => "[untitled]"@,
        }),
{
    match path {
        Some(p) => p.to_string(),
        None => "[untitled]".to_string(),
    }
}

/// A pane's title: the document's `name`, marked ` ●` while it has unsaved
/// changes, or `preview`.
pub fn pane_title(kind: PaneKind, name: &str, modified: bool) -> (r: String)
    ensures
        r@ == (match kind {
            PaneKind::Editor(_) => if modified {
                name@ + " ●"@
            } else {
                name@
            },
            PaneKind::Preview => "preview"@,
        }),
{
    match kind {
        PaneKind::Editor(_) => if modified {
            concat(name, " ●")
        } else {
            name.to_string()
        },
        PaneKind::Preview => "preview".to_string(),
    }
}

/// A pane shows a close control: the preview always, an editor only while
/// another editor remains.
pub fn closable(kind: PaneKind, editor_count: usize) -> (r: bool)
    ensures
        r == (match kind {
            PaneKind::Preview => true,
            PaneKind::Editor(_) => editor_count > 1,
        }),
{
    match kind {
        PaneKind::Preview => true,
        PaneKind::Editor(_) => editor_count > 1,
    }
}

/// What asking to close a pane leads to.
#[derive(Debug, Clone, Copy, PartialEq, Eq, Structural)]
pub enum CloseRequest {
    /// Ask first: the editor's document has unsaved changes.
    Confirm,
    /// Close it.
    Close,
    /// No such pane.
    Ignore,
}

/// Closing a pane that shows `kind` (if the grid has it), whose document
/// has unsaved changes or not.
pub fn close_request(kind: Option<PaneKind>, modified: bool) -> (r: CloseRequest)
    ensures
        r == (match kind {
            Some(PaneKind::Editor(_)) => if modified {
                CloseRequest::Confirm
            } else {
                CloseRequest::Close
            },
            Some(PaneKind::Preview) => CloseRequest::Close,
            None => CloseRequest::Ignore,
        }),
{
    match kind {
        Some(PaneKind::Editor(_)) => if modified {
            CloseRequest::Confirm
        } else {
            CloseRequest::Close
        },
        Some(PaneKind::Preview) => CloseRequest::Close,
        None => CloseRequest::Ignore,
    }
}

/// The close control is shown exactly on the panes that closing accepts.
pub proof fn law_close_control_matches_closing(m: WorkspaceModel, pane: usize, kind: PaneKind)
    requires
        kind_of(m.panes, pane) == Some(kind),
    ensures
        (match kind {
            PaneKind::Preview => true,
            PaneKind::Editor(_) => editor_count(m.panes) > 1,
        }) <==> !close_refused(m, pane),
{
}

} // verus!
