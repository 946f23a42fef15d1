//! The left sidebar: a collapsible directory tree plus a new-file input.
//!
//! The tree is a cached flat list built from directory listings: only
//! expanded directories are descended into, hidden entries are skipped, and
//! each directory lists its folders first, then its files, by name.

use vstd::prelude::*;

use crate::spell::pairs_view;
use crate::paths::{
    bad_name_message, child_path, file_name_of, join_path, parent_of, path_file_name, path_parent,
    prefix_stripped, remap_descendant, single_plain_name, strip_prefix,
};
use crate::strings::{
    concat, lemma_name_lt_asymmetric, lemma_name_lt_transitive, name_lt, name_lt_exec, str_eq,
    string_views, trimmed,
};
use crate::text::chars_of;

verus! {

/// One entry of a directory listing as the file system reported it.
#[derive(Debug)]
pub struct RawEntry {
    pub path: String,
    pub name: String,
    pub is_dir: bool,
}

impl View for RawEntry {
    type V = (Seq<char>, Seq<char>, bool);

    open spec fn view(&self) -> (Seq<char>, Seq<char>, bool) {
        (self.path@, self.name@, self.is_dir)
    }
}

impl Clone for RawEntry {
    fn clone(&self) -> (r: Self)
        ensures
            r@ == self@,
    {
        RawEntry { path: self.path.clone(), name: self.name.clone(), is_dir: self.is_dir }
    }
}

/// The entries read from one directory.
#[derive(Debug)]
pub struct Listing {
    pub dir: String,
    pub entries: Vec<RawEntry>,
}

/// The abstract entries of a listing.
pub open spec fn raw_views(v: Seq<RawEntry>) -> Seq<(Seq<char>, Seq<char>, bool)> {
    v.map_values(|e: RawEntry| e@)
}

/// A name that starts with `.` is hidden from the tree.
pub open spec fn is_hidden(name: Seq<char>) -> bool {
    name.len() > 0 && name[0] == '.'
}

/// The entries of `items` that are not hidden, in their order.
pub open spec fn visible(items: Seq<(Seq<char>, Seq<char>, bool)>) -> Seq<(Seq<char>, Seq<char>, bool)>
    decreases items.len(),
{
    if items.len() == 0 {
        Seq::empty()
    } else if is_hidden(items.last().1) {
        visible(items.drop_last())
    } else {
        visible(items.drop_last()).push(items.last())
    }
}

/// `a` strictly precedes `b` in the tree: folders before files, then by name.
pub open spec fn tree_before(a: (Seq<char>, Seq<char>, bool), b: (Seq<char>, Seq<char>, bool)) -> bool {
    (a.2 && !b.2) || (a.2 == b.2 && name_lt(a.1, b.1))
}

/// Where a stable insertion puts `x` into `t`: before the first entry (at or
/// after `i`) that `x` strictly precedes.
pub open spec fn insert_pos(t: Seq<(Seq<char>, Seq<char>, bool)>, x: (Seq<char>, Seq<char>, bool), i: int) -> int
    decreases t.len() - i,
{
    if i >= t.len() {
        t.len() as int
    } else if tree_before(x, t[i]) {
        i
    } else {
        insert_pos(t, x, i + 1)
    }
}

/// `items` stably sorted into tree order.
pub open spec fn tree_sorted(items: Seq<(Seq<char>, Seq<char>, bool)>) -> Seq<(Seq<char>, Seq<char>, bool)>
    decreases items.len(),
{
    if items.len() == 0 {
        Seq::empty()
    } else {
        let t = tree_sorted(items.drop_last());
        t.insert(insert_pos(t, items.last(), 0), items.last())
    }
}

/// The listing as the tree shows one directory: hidden entries dropped, the
/// rest stably sorted into tree order.
pub open spec fn shown(items: Seq<(Seq<char>, Seq<char>, bool)>) -> Seq<(Seq<char>, Seq<char>, bool)> {
    tree_sorted(visible(items))
}

proof fn lemma_insert_pos_bounds(t: Seq<(Seq<char>, Seq<char>, bool)>, x: (Seq<char>, Seq<char>, bool), i: int)
    requires
        0 <= i <= t.len(),
    ensures
        i <= insert_pos(t, x, i) <= t.len(),
        forall|j: int| i <= j < insert_pos(t, x, i) ==> !tree_before(x, #[trigger] t[j]),
        insert_pos(t, x, i) < t.len() ==> tree_before(x, t[insert_pos(t, x, i)]),
    decreases t.len() - i,
{
    if i < t.len() && !tree_before(x, t[i]) {
        lemma_insert_pos_bounds(t, x, i + 1);
    }
}

proof fn lemma_tree_before_order(
    a: (Seq<char>, Seq<char>, bool),
    b: (Seq<char>, Seq<char>, bool),
    c: (Seq<char>, Seq<char>, bool),
)
    ensures
        tree_before(a, b) ==> !tree_before(b, a),
        tree_before(a, b) && tree_before(b, c) ==> tree_before(a, c),
{
    lemma_name_lt_asymmetric(a.1, b.1);
    lemma_name_lt_transitive(a.1, b.1, c.1);
}

/// No entry of `s` strictly precedes an earlier one.
pub open spec fn in_tree_order(s: Seq<(Seq<char>, Seq<char>, bool)>) -> bool {
    forall|i: int, j: int| 0 <= i < j < s.len() ==> !tree_before(#[trigger] s[j], #[trigger] s[i])
}

proof fn lemma_tree_sorted(items: Seq<(Seq<char>, Seq<char>, bool)>)
    ensures
        in_tree_order(tree_sorted(items)),
        tree_sorted(items).to_multiset() == items.to_multiset(),
    decreases items.len(),
{
    broadcast use vstd::seq_lib::to_multiset_insert, vstd::seq_lib::to_multiset_build;

    if items.len() == 0 {
        assert(items =~= Seq::empty());
    } else {
        let rest = items.drop_last();
        let x = items.last();
        lemma_tree_sorted(rest);
        let t = tree_sorted(rest);
        lemma_insert_pos_bounds(t, x, 0);
        let p = insert_pos(t, x, 0);
        let r = t.insert(p, x);
        assert(items =~= rest.push(x));
        assert(rest.push(x).to_multiset() == rest.to_multiset().insert(x));
        assert(r.to_multiset() == t.to_multiset().insert(x));
        assert forall|i: int, j: int| 0 <= i < j < r.len() implies !tree_before(
            #[trigger] r[j],
            #[trigger] r[i],
        ) by {
            if j < p {
                assert(r[i] == t[i] && r[j] == t[j]);
            } else if j == p {
                assert(r[i] == t[i]);
                assert(!tree_before(x, t[i]));
            } else if i == p {
                assert(r[j] == t[j - 1]);
                assert(tree_before(x, t[p]));
                lemma_tree_before_order(t[j - 1], x, t[p]);
                lemma_tree_before_order(x, t[p], x);
                if j - 1 > p {
                    assert(!tree_before(t[j - 1], t[p]));
                }
            } else if i < p {
                assert(r[i] == t[i] && r[j] == t[j - 1]);
            } else {
                assert(r[i] == t[i - 1] && r[j] == t[j - 1]);
            }
        }
    }
}

/// Within one directory the tree lists folders before files and each group
/// by name, shows every visible entry exactly once, and shows no hidden
/// entry.
pub proof fn law_shown_is_tree_ordered(items: Seq<(Seq<char>, Seq<char>, bool)>)
    ensures
        in_tree_order(shown(items)),
        shown(items).to_multiset() == visible(items).to_multiset(),
        forall|k: int| 0 <= k < shown(items).len() ==> !is_hidden(#[trigger] shown(items)[k].1),
{
    broadcast use vstd::seq_lib::to_multiset_contains;

    lemma_tree_sorted(visible(items));
    lemma_visible_not_hidden(items);
    assert forall|k: int| 0 <= k < shown(items).len() implies !is_hidden(
        #[trigger] shown(items)[k].1,
    ) by {
        let e = shown(items)[k];
        assert(shown(items).contains(e));
        assert(shown(items).to_multiset().count(e) > 0);
        assert(visible(items).contains(e));
    }
}

proof fn lemma_visible_not_hidden(items: Seq<(Seq<char>, Seq<char>, bool)>)
    ensures
        forall|k: int| 0 <= k < visible(items).len() ==> !is_hidden(#[trigger] visible(items)[k].1),
    decreases items.len(),
{
    if items.len() > 0 {
        let rest = visible(items.drop_last());
        lemma_visible_not_hidden(items.drop_last());
        assert forall|k: int| 0 <= k < visible(items).len() implies !is_hidden(
            #[trigger] visible(items)[k].1,
        ) by {
            if k < rest.len() {
                assert(visible(items)[k] == rest[k]);
            }
        }
    }
}


/// One row of the tree: a file or folder, how deep it sits, and (for a
/// folder) whether it is expanded.
#[derive(Debug)]
pub struct Entry {
    pub path: String,
    pub name: String,
    pub depth: u16,
    pub is_dir: bool,
    pub expanded: bool,
}

impl View for Entry {
    type V = (Seq<char>, Seq<char>, u16, bool, bool);

    open spec fn view(&self) -> (Seq<char>, Seq<char>, u16, bool, bool) {
        (self.path@, self.name@, self.depth, self.is_dir, self.expanded)
    }
}

/// The abstract rows.
pub open spec fn entry_views(v: Seq<Entry>) -> Seq<(Seq<char>, Seq<char>, u16, bool, bool)> {
    v.map_values(|e: Entry| e@)
}

/// The entries read for `dir`: the first listing of that directory at or
/// after `i`, or `None` when it could not be read.
pub open spec fn listing_from(ls: Seq<Listing>, dir: Seq<char>, i: int) -> Option<
    Seq<(Seq<char>, Seq<char>, bool)>,
>
    decreases ls.len() - i,
{
    if i < 0 || i >= ls.len() {
        None
    } else if ls[i].dir@ == dir {
        Some(raw_views(ls[i].entries@))
    } else {
        listing_from(ls, dir, i + 1)
    }
}

/// The deepest level the tree descends to.
pub open spec fn max_depth() -> int {
    0xffff
}

/// The rows for `items` shown at `depth`: each entry, followed, when it is
/// an expanded folder, by the rows of that folder one level deeper.
pub open spec fn tree_rows(
    ls: Seq<Listing>,
    expanded: Set<Seq<char>>,
    items: Seq<(Seq<char>, Seq<char>, bool)>,
    depth: int,
) -> Seq<(Seq<char>, Seq<char>, u16, bool, bool)>
    decreases max_depth() - depth, items.len(),
{
    if items.len() == 0 || depth < 0 || depth > max_depth() {
        Seq::empty()
    } else {
        let x = items.last();
        let open = x.2 && expanded.contains(x.0);
        let below = if open && depth < max_depth() {
            match listing_from(ls, x.0, 0) {
                Some(raw) => tree_rows(ls, expanded, shown(raw), depth + 1),
                None => Seq::empty(),
            }
        } else {
            Seq::empty()
        };
        tree_rows(ls, expanded, items.drop_last(), depth) + seq![(x.0, x.1, depth as u16, x.2, open)]
            + below
    }
}

proof fn lemma_first_row(
    ls: Seq<Listing>,
    expanded: Set<Seq<char>>,
    items: Seq<(Seq<char>, Seq<char>, bool)>,
    depth: int,
)
    requires
        items.len() > 0,
        0 <= depth <= max_depth(),
    ensures
        tree_rows(ls, expanded, items, depth).len() > 0,
        tree_rows(ls, expanded, items, depth)[0].0 == items[0].0,
        tree_rows(ls, expanded, items, depth)[0].1 == items[0].1,
        tree_rows(ls, expanded, items, depth)[0].2 as int == depth,
    decreases items.len(),
{
    let x = items.last();
    let open = x.2 && expanded.contains(x.0);
    let prefix = tree_rows(ls, expanded, items.drop_last(), depth);
    let below = if open && depth + 1 <= max_depth() {
        match listing_from(ls, x.0, 0) {
            Some(r) => tree_rows(ls, expanded, shown(r), depth + 1),
            None => Seq::empty(),
        }
    } else {
        Seq::empty()
    };
    let rows = tree_rows(ls, expanded, items, depth);
    assert(rows == prefix + seq![(x.0, x.1, depth as u16, x.2, open)] + below);
    assert(depth as u16 as int == depth);
    if items.len() > 1 {
        lemma_first_row(ls, expanded, items.drop_last(), depth);
        assert(rows[0] == prefix[0]);
        assert(items.drop_last()[0] == items[0]);
    } else {
        assert(prefix.len() == 0);
        assert(rows[0] == (x.0, x.1, depth as u16, x.2, open));
    }
}

/// An expanded folder shows what is in it: in the rows of the tree at any
/// depth below the deepest, a row for an expanded folder whose listing was
/// read, and which has entries to show, is followed directly by the first
/// of those entries, one level deeper.
pub proof fn law_expanded_folder_shows_its_entries(
    ls: Seq<Listing>,
    expanded: Set<Seq<char>>,
    items: Seq<(Seq<char>, Seq<char>, bool)>,
    depth: int,
    i: int,
    raw: Seq<(Seq<char>, Seq<char>, bool)>,
)
    requires
        0 <= depth <= max_depth(),
        0 <= i < tree_rows(ls, expanded, items, depth).len(),
        tree_rows(ls, expanded, items, depth)[i].4,
        (tree_rows(ls, expanded, items, depth)[i].2 as int) < max_depth(),
        listing_from(ls, tree_rows(ls, expanded, items, depth)[i].0, 0) == Some(raw),
        shown(raw).len() > 0,
    ensures
        i + 1 < tree_rows(ls, expanded, items, depth).len(),
        tree_rows(ls, expanded, items, depth)[i + 1].0 == shown(raw)[0].0,
        tree_rows(ls, expanded, items, depth)[i + 1].1 == shown(raw)[0].1,
        tree_rows(ls, expanded, items, depth)[i + 1].2 as int == tree_rows(ls, expanded, items, depth)[i].2 as int
            + 1,
    decreases max_depth() - depth, items.len(),
{
    let rows = tree_rows(ls, expanded, items, depth);
    let x = items.last();
    let open = x.2 && expanded.contains(x.0);
    let prefix = tree_rows(ls, expanded, items.drop_last(), depth);
    let below = if open && depth + 1 <= max_depth() {
        match listing_from(ls, x.0, 0) {
            Some(r) => tree_rows(ls, expanded, shown(r), depth + 1),
            None => Seq::empty(),
        }
    } else {
        Seq::empty()
    };
    assert(rows == prefix + seq![(x.0, x.1, depth as u16, x.2, open)] + below);
    if i < prefix.len() {
        assert(prefix[i] == rows[i]);
        law_expanded_folder_shows_its_entries(ls, expanded, items.drop_last(), depth, i, raw);
        assert(rows[i + 1] == prefix[i + 1]);
    } else if i == prefix.len() {
        assert(rows[i] == (x.0, x.1, depth as u16, x.2, open));
        assert(depth as u16 as int == depth);
        lemma_first_row(ls, expanded, shown(raw), depth + 1);
        assert(below == tree_rows(ls, expanded, shown(raw), depth + 1));
        assert(rows[i + 1] == below[0]);
    } else {
        let j = i - prefix.len() - 1;
        assert(rows[i] == below[j]);
        let r = listing_from(ls, x.0, 0)->0;
        assert(below == tree_rows(ls, expanded, shown(r), depth + 1));
        law_expanded_folder_shows_its_entries(ls, expanded, shown(r), depth + 1, j, raw);
        assert(rows[i + 1] == below[j + 1]);
    }
}

/// The whole tree under `root`.
pub open spec fn tree_of(ls: Seq<Listing>, expanded: Set<Seq<char>>, root: Seq<char>) -> Seq<
    (Seq<char>, Seq<char>, u16, bool, bool),
> {
    match listing_from(ls, root, 0) {
        Some(raw) => tree_rows(ls, expanded, shown(raw), 0),
        None => Seq::empty(),
    }
}

fn find_listing(ls: &Vec<Listing>, dir: &str) -> (r: Option<usize>)
    ensures
        match r {
            Some(k) => k < ls@.len() && listing_from(ls@, dir@, 0) == Some(
                raw_views(ls@[k as int].entries@),
            ),
            None => listing_from(ls@, dir@, 0) is None,
        },
{
    let mut i: usize = 0;
    while i < ls.len()
        invariant
            i <= ls@.len(),
            listing_from(ls@, dir@, 0) == listing_from(ls@, dir@, i as int),
        decreases ls@.len() - i,
    {
        if str_eq(ls[i].dir.as_str(), dir) {
            return Some(i);
        }
        i = i + 1;
    }
    None
}

fn list_contains(v: &Vec<String>, p: &str) -> (r: bool)
    ensures
        r == string_views(v@).contains(p@),
{
    let mut i: usize = 0;
    while i < v.len()
        invariant
            i <= v@.len(),
            forall|k: int| 0 <= k < i ==> v@[k]@ != p@,
        decreases v@.len() - i,
    {
        if str_eq(v[i].as_str(), p) {
            assert(string_views(v@)[i as int] == p@);
            return true;
        }
        i = i + 1;
    }
    assert forall|k: int| 0 <= k < string_views(v@).len() implies string_views(v@)[k] != p@ by {
        assert(string_views(v@)[k] == v@[k]@);
    }
    false
}

fn walk(ls: &Vec<Listing>, expanded: &Vec<String>, items: &Vec<RawEntry>, depth: u16, out: &mut Vec<Entry>)
    ensures
        entry_views(final(out)@) == entry_views(old(out)@) + tree_rows(
            ls@,
            string_views(expanded@).to_set(),
            raw_views(items@),
            depth as int,
        ),
    decreases max_depth() - depth,
{
    let ghost ex = string_views(expanded@).to_set();
    let ghost all = raw_views(items@);
    let ghost base = entry_views(out@);
    let mut i: usize = 0;
    assert(all.take(0) =~= Seq::<(Seq<char>, Seq<char>, bool)>::empty());
    while i < items.len()
        invariant
            i <= items@.len(),
            ex == string_views(expanded@).to_set(),
            all == raw_views(items@),
            entry_views(out@) == base + tree_rows(ls@, ex, all.take(i as int), depth as int),
        decreases items@.len() - i,
    {
        let ghost before = entry_views(out@);
        assert(all.take(i + 1).drop_last() =~= all.take(i as int));
        assert(all.take(i + 1).last() == all[i as int]);
        let item = &items[i];
        let open = item.is_dir && list_contains(expanded, item.path.as_str());
        proof {
            assert(string_views(expanded@).to_set().contains(item.path@) == string_views(
                expanded@,
            ).contains(item.path@));
        }
        out.push(
            Entry {
                path: item.path.clone(),
                name: item.name.clone(),
                depth,
                is_dir: item.is_dir,
                expanded: open,
            },
        );
        assert(entry_views(out@) =~= before + seq![(all[i as int].0, all[i as int].1, depth, all[i as int].2, open)]);
        let ghost mid = entry_views(out@);
        if open && depth < 0xffff {
            match find_listing(ls, item.path.as_str()) {
                Some(k) => {
                    let sub = order_entries(&ls[k].entries);
                    walk(ls, expanded, &sub, depth + 1, out);
                },
                None => {},
            }
        }
        assert(entry_views(out@) =~= base + tree_rows(ls@, ex, all.take(i + 1), depth as int));
        i = i + 1;
    }
    assert(all.take(items@.len() as int) =~= all);
}


/// What the sidebar's right-click panel is doing.
#[derive(Debug, Clone, Copy, PartialEq, Eq, Structural)]
pub enum ContextMode {
    Menu,
    CreateFile,
    CreateFolder,
    Rename,
    ConfirmDelete,
}

/// The status line after the panel's file-system action in `mode` ended in
/// `result` (the path made or renamed to, or the error): none for the
/// modes that act on nothing.
pub open spec fn context_status_for(mode: ContextMode, result: Result<Seq<char>, Seq<char>>) -> Option<Seq<char>> {
    match mode {
        ContextMode::Menu | ContextMode::ConfirmDelete => None,
        _ => Some(
            match result {
                Ok(p) => match mode {
                    ContextMode::CreateFile => "created "@ + p,
                    ContextMode::CreateFolder => "created folder "@ + p,
                    _ => "renamed to "@ + p,
                },
                Err(e) => "filesystem action failed: "@ + e,
            },
        ),
    }
}

/// The status line after a panel action (see [`context_status_for`]).
pub fn context_status(mode: ContextMode, result: &Result<String, String>) -> (r: Option<String>)
    ensures
        (match r {
            Some(t) => Some(t@),
            None => None,
        }) == context_status_for(
            mode,
            match result {
                Ok(p) => Ok(p@),
                Err(e) => Err(e@),
            },
        ),
{
    proof {
        reveal_strlit("created ");
        reveal_strlit("created folder ");
        reveal_strlit("renamed to ");
        reveal_strlit("filesystem action failed: ");
    }
    match mode {
        ContextMode::Menu | ContextMode::ConfirmDelete => None,
        _ => Some(
            match result {
                Ok(p) => match mode {
                    ContextMode::CreateFile => concat("created ", p.as_str()),
                    ContextMode::CreateFolder => concat("created folder ", p.as_str()),
                    _ => concat("renamed to ", p.as_str()),
                },
                Err(e) => concat("filesystem action failed: ", e.as_str()),
            },
        ),
    }
}

/// The right-click panel open on one file or folder of the tree.
#[derive(Debug)]
pub struct ContextMenu {
    pub target: String,
    pub is_dir: bool,
    pub mode: ContextMode,
    pub input: String,
}

/// The file-system action a submitted context panel asks for.
#[derive(Debug)]
pub enum ContextAction {
    /// Nothing to submit in this mode.
    Nothing,
    /// Create the file (or, with `folder`, the directory) at `path`.
    Create { path: String, folder: bool },
    /// Rename `target` to the plain name `name`.
    Rename { target: String, name: String },
    /// The entered name was refused, with this message.
    Refused(String),
}

/// The modes in which the panel shows a name input.
pub open spec fn is_editing_mode(mode: ContextMode) -> bool {
    mode == ContextMode::CreateFile || mode == ContextMode::CreateFolder || mode == ContextMode::Rename
}

/// The directory a new file or folder goes into: the target itself when it
/// is a folder, else the folder holding it (or `root` when it has none).
pub open spec fn creation_parent(target: Seq<char>, is_dir: bool, root: Seq<char>) -> Seq<char> {
    if is_dir {
        target
    } else {
        match parent_of(target) {
            Some(p) => p,
            None => root,
        }
    }
}

impl ContextMenu {
    /// Switch the panel to `mode`; renaming starts from the target's current
    /// name, the other modes from an empty input.
    pub fn begin(&mut self, mode: ContextMode)
        ensures
            final(self).mode == mode,
            final(self).target == old(self).target,
            final(self).is_dir == old(self).is_dir,
            final(self).input@ == (if mode == ContextMode::Rename {
                match file_name_of(old(self).target@) {
                    Some(n) => n,
                    None => Seq::empty(),
                }
            } else {
                Seq::<char>::empty()
            }),
    {
        self.mode = mode;
        if mode == ContextMode::Rename {
            self.input = match path_file_name(self.target.as_str()) {
                Some(n) => n,
                None => String::new(),
            };
        } else {
            self.input = String::new();
        }
    }

    /// What submitting the panel asks the file system to do. Creation joins
    /// the entered name onto [`creation_parent`], refusing anything but a
    /// single plain name; renaming hands the name on; the menu and the delete
    /// confirmation have nothing to submit.
    pub fn submission(&self, root: &str) -> (r: ContextAction)
        ensures
            (self.mode == ContextMode::Menu || self.mode == ContextMode::ConfirmDelete) ==> r
                is Nothing,
            self.mode == ContextMode::Rename ==> (r matches ContextAction::Rename { target, name }
                && target@ == self.target@ && name@ == self.input@),
            (self.mode == ContextMode::CreateFile || self.mode == ContextMode::CreateFolder) ==> {
                let parent = creation_parent(self.target@, self.is_dir, root@);
                let name = trimmed(self.input@);
                if single_plain_name(name) {
                    r matches ContextAction::Create { path, folder } && path@ == join_path(
                        parent,
                        name,
                    ) && folder == (self.mode == ContextMode::CreateFolder)
                } else {
                    r matches ContextAction::Refused(e) && e@ == bad_name_message()
                }
            },
    {
        match self.mode {
            ContextMode::CreateFile | ContextMode::CreateFolder => {
                let parent = if self.is_dir {
                    self.target.clone()
                } else {
                    match path_parent(self.target.as_str()) {
                        Some(p) => p,
                        None => root.to_string(),
                    }
                };
                match child_path(parent.as_str(), self.input.as_str()) {
                    Ok(path) => ContextAction::Create {
                        path,
                        folder: self.mode == ContextMode::CreateFolder,
                    },
                    Err(e) => ContextAction::Refused(e),
                }
            },
            ContextMode::Rename => ContextAction::Rename {
                target: self.target.clone(),
                name: self.input.clone(),
            },
            ContextMode::Menu | ContextMode::ConfirmDelete => ContextAction::Nothing,
        }
    }
}

/// One action of the context panel's menu.
#[derive(Debug, Clone, Copy, PartialEq, Eq, Structural)]
pub enum ContextItem {
    ChangeDirectory,
    NewFile,
    NewFolder,
    Rename,
    Delete,
}

/// The menu the panel offers on `target` in a tree rooted at `root`: a
/// folder other than the root can become the current directory; new files
/// and folders can always be made; anything but the root can be renamed or
/// deleted. Paths are compared component by component.
pub open spec fn menu_items_for(target: Seq<char>, is_dir: bool, root: Seq<char>) -> Seq<ContextItem> {
    (if is_dir && !crate::paths::same_path_spec(target, root) {
        seq![ContextItem::ChangeDirectory]
    } else {
        seq![]
    }) + seq![ContextItem::NewFile, ContextItem::NewFolder] + (if !crate::paths::same_path_spec(
        target,
        root,
    ) {
        seq![ContextItem::Rename, ContextItem::Delete]
    } else {
        seq![]
    })
}

impl ContextMenu {
    /// The actions the panel's menu offers (see [`menu_items_for`]).
    pub fn menu_items(&self, root: &str) -> (r: Vec<ContextItem>)
        ensures
            r@ == menu_items_for(self.target@, self.is_dir, root@),
    {
        let not_root = !crate::paths::same_path(self.target.as_str(), root);
        let mut v: Vec<ContextItem> = Vec::new();
        if self.is_dir && not_root {
            v.push(ContextItem::ChangeDirectory);
        }
        v.push(ContextItem::NewFile);
        v.push(ContextItem::NewFolder);
        if not_root {
            v.push(ContextItem::Rename);
            v.push(ContextItem::Delete);
        }
        assert(v@ =~= menu_items_for(self.target@, self.is_dir, root@));
        v
    }

    /// The target's name as the panel shows it: its file name, or the whole
    /// path when it has none.
    pub fn target_name(&self) -> (r: String)
        ensures
            r@ == (match file_name_of(self.target@) {
                Some(n) => n,
                None => self.target@,
            }),
    {
        match path_file_name(self.target.as_str()) {
            Some(n) => n,
            None => self.target.clone(),
        }
    }

    /// `FOLDER` or `FILE`.
    pub fn target_kind(&self) -> (r: &'static str)
        ensures
            r@ == (if self.is_dir {
                "FOLDER"@
            } else {
                "FILE"@
            }),
    {
        if self.is_dir {
            "FOLDER"
        } else {
            "FILE"
        }
    }

    /// The hint in the name input of the editing modes.
    pub fn placeholder(&self) -> (r: Option<&'static str>)
        ensures
            r == (match self.mode {
                ContextMode::CreateFile => Some("new file name"),
                ContextMode::CreateFolder => Some("new folder name"),
                ContextMode::Rename => Some("new name"),
                _ => None::<&'static str>,
            }),
    {
        match self.mode {
            ContextMode::CreateFile => Some("new file name"),
            ContextMode::CreateFolder => Some("new folder name"),
            ContextMode::Rename => Some("new name"),
            _ => None,
        }
    }

    /// The question the delete confirmation asks.
    pub fn delete_prompt(&self) -> (r: String)
        ensures
            r@ == "Delete "@ + (match file_name_of(self.target@) {
                Some(n) => n,
                None => self.target@,
            }) + (if self.is_dir {
                " and all its contents?"@
            } else {
                "?"@
            }),
    {
        let name = self.target_name();
        let a = concat("Delete ", name.as_str());
        concat(
            a.as_str(),
            if self.is_dir {
                " and all its contents?"
            } else {
                "?"
            },
        )
    }
}

/// A row's label: folders carry an expanded (`▾`) or collapsed (`▸`) mark.
pub fn entry_label(entry: &Entry) -> (r: String)
    ensures
        r@ == (if entry.is_dir {
            (if entry.expanded {
                "▾ "@
            } else {
                "▸ "@
            }) + entry.name@
        } else {
            entry.name@
        }),
{
    if entry.is_dir {
        concat(
            if entry.expanded {
                "▾ "
            } else {
                "▸ "
            },
            entry.name.as_str(),
        )
    } else {
        entry.name.clone()
    }
}

/// The sidebar: the root folder, whether it is collapsed, which folders are
/// expanded, the cached rows, the new-file input and the context panel.
#[derive(Debug)]
pub struct Sidebar {
    pub root: String,
    pub collapsed: bool,
    pub expanded: Vec<String>,
    pub entries: Vec<Entry>,
    pub new_file: String,
    pub context: Option<ContextMenu>,
}

impl Sidebar {
    /// The expanded folders.
    pub open spec fn expanded_set(&self) -> Set<Seq<char>> {
        string_views(self.expanded@).to_set()
    }

    /// The cached rows of the tree.
    pub open spec fn rows(&self) -> Seq<(Seq<char>, Seq<char>, u16, bool, bool)> {
        entry_views(self.entries@)
    }

    /// The expanded set is held without repeats.
    pub open spec fn wf(&self) -> bool {
        string_views(self.expanded@).no_duplicates()
    }

    /// A sidebar on `root` with nothing expanded, built from `listings`.
    pub fn new(root: String, listings: &Vec<Listing>) -> (s: Self)
        ensures
            s.wf(),
            s.root == root,
            !s.collapsed,
            s.expanded_set() == Set::<Seq<char>>::empty(),
            s.rows() == tree_of(listings@, Set::empty(), root@),
            s.new_file@ == Seq::<char>::empty(),
            s.context is None,
    {
        let mut s = Sidebar {
            root,
            collapsed: false,
            expanded: Vec::new(),
            entries: Vec::new(),
            new_file: String::new(),
            context: None,
        };
        assert(string_views(s.expanded@).to_set() =~= Set::<Seq<char>>::empty());
        s.rebuild(listings);
        s
    }

    /// Re-read the tree from `listings`, the directories as the file system
    /// lists them now.
    pub fn rebuild(&mut self, listings: &Vec<Listing>)
        ensures
            final(self).rows() == tree_of(listings@, old(self).expanded_set(), old(self).root@),
            final(self).expanded == old(self).expanded,
            final(self).root == old(self).root,
            final(self).collapsed == old(self).collapsed,
            final(self).new_file == old(self).new_file,
            final(self).context == old(self).context,
    {
        let mut out: Vec<Entry> = Vec::new();
        match find_listing(listings, self.root.as_str()) {
            Some(k) => {
                let items = order_entries(&listings[k].entries);
                walk(listings, &self.expanded, &items, 0, &mut out);
                assert(entry_views(out@) =~= tree_of(listings@, self.expanded_set(), self.root@));
            },
            None => {
                assert(entry_views(out@) =~= tree_of(listings@, self.expanded_set(), self.root@));
            },
        }
        self.entries = out;
    }

    /// Expand a collapsed folder or collapse an expanded one, then rebuild.
    pub fn toggle(&mut self, path: String, listings: &Vec<Listing>)
        requires
            old(self).wf(),
        ensures
            final(self).wf(),
            final(self).expanded_set() == (if old(self).expanded_set().contains(path@) {
                old(self).expanded_set().remove(path@)
            } else {
                old(self).expanded_set().insert(path@)
            }),
            final(self).rows() == tree_of(listings@, final(self).expanded_set(), old(self).root@),
            final(self).root == old(self).root,
            final(self).collapsed == old(self).collapsed,
            final(self).new_file == old(self).new_file,
            final(self).context == old(self).context,
    {
        let ghost old_views = string_views(self.expanded@);
        let mut i: usize = 0;
        let mut found: Option<usize> = None;
        while i < self.expanded.len()
            invariant_except_break
                found is None,
            invariant
                i <= self.expanded@.len(),
                old_views == string_views(self.expanded@),
                forall|k: int| 0 <= k < i ==> old_views[k] != path@,
            ensures
                match found {
                    Some(j) => j < self.expanded@.len() && old_views[j as int] == path@,
                    None => forall|k: int| 0 <= k < old_views.len() ==> old_views[k] != path@,
                },
            decreases self.expanded@.len() - i,
        {
            if str_eq(self.expanded[i].as_str(), path.as_str()) {
                found = Some(i);
                break;
            }
            i = i + 1;
        }
        match found {
            Some(j) => {
                self.expanded.remove(j);
                let ghost nv = string_views(self.expanded@);
                assert(nv =~= old_views.remove(j as int));
                assert(nv.to_set() =~= old_views.to_set().remove(path@)) by {
                    assert forall|q: Seq<char>| nv.contains(q) implies old_views.contains(q) && q != path@ by {
                        let k = choose|k: int| 0 <= k < nv.len() && nv[k] == q;
                        if k < j {
                            assert(old_views[k] == q);
                        } else {
                            assert(old_views[k + 1] == q);
                        }
                    }
                    assert forall|q: Seq<char>| old_views.contains(q) && q != path@ implies nv.contains(q) by {
                        let k = choose|k: int| 0 <= k < old_views.len() && old_views[k] == q;
                        if k < j {
                            assert(nv[k] == q);
                        } else {
                            assert(k != j);
                            assert(nv[k - 1] == q);
                        }
                    }
                }
                assert(old_views.contains(path@)) by {
                    assert(old_views[j as int] == path@);
                }
                assert(nv.no_duplicates());
            },
            None => {
                let ghost p = path@;
                self.expanded.push(path);
                let ghost nv = string_views(self.expanded@);
                assert(nv =~= old_views.push(p));
                assert(nv.to_set() =~= old_views.to_set().insert(p)) by {
                    assert forall|q: Seq<char>| nv.contains(q) implies old_views.contains(q) || q == p by {
                        let k = choose|k: int| 0 <= k < nv.len() && nv[k] == q;
                        if k < old_views.len() {
                            assert(old_views[k] == q);
                        }
                    }
                    assert forall|q: Seq<char>| old_views.contains(q) || q == p implies nv.contains(q) by {
                        if q == p {
                            assert(nv[old_views.len() as int] == q);
                        } else {
                            let k = choose|k: int| 0 <= k < old_views.len() && old_views[k] == q;
                            assert(nv[k] == q);
                        }
                    }
                }
                assert(!old_views.contains(p));
            },
        }
        self.rebuild(listings);
    }

    /// Fold the sidebar away, or bring it back.
    pub fn toggle_collapsed(&mut self)
        ensures
            final(self).collapsed == !old(self).collapsed,
            final(self).root == old(self).root,
            final(self).expanded_set() == old(self).expanded_set(),
            final(self).rows() == old(self).rows(),
            final(self).wf() == old(self).wf(),
            final(self).new_file == old(self).new_file,
            final(self).context == old(self).context,
    {
        self.collapsed = !self.collapsed;
    }

    /// Re-root the tree at the folder `root`: nothing expanded, no context
    /// panel, rows rebuilt from `listings`.
    pub fn set_root(&mut self, root: String, listings: &Vec<Listing>)
        ensures
            final(self).wf(),
            final(self).root == root,
            final(self).expanded_set() == Set::<Seq<char>>::empty(),
            final(self).rows() == tree_of(listings@, Set::empty(), root@),
            final(self).context is None,
            final(self).collapsed == old(self).collapsed,
            final(self).new_file == old(self).new_file,
    {
        self.root = root;
        self.expanded = Vec::new();
        assert(string_views(self.expanded@).to_set() =~= Set::<Seq<char>>::empty());
        self.context = None;
        self.rebuild(listings);
    }

    /// Open the context panel on `target`, showing its menu.
    pub fn open_context(&mut self, target: String, is_dir: bool)
        ensures
            final(self).context matches Some(c) && c.target == target && c.is_dir == is_dir
                && c.mode == ContextMode::Menu && c.input@ == Seq::<char>::empty(),
            final(self).root == old(self).root,
            final(self).collapsed == old(self).collapsed,
            final(self).expanded_set() == old(self).expanded_set(),
            final(self).rows() == old(self).rows(),
            final(self).wf() == old(self).wf(),
            final(self).new_file == old(self).new_file,
    {
        self.context = Some(
            ContextMenu { target, is_dir, mode: ContextMode::Menu, input: String::new() },
        );
    }

    /// Close the context panel.
    pub fn close_context(&mut self)
        ensures
            final(self).context is None,
            final(self).root == old(self).root,
            final(self).collapsed == old(self).collapsed,
            final(self).expanded_set() == old(self).expanded_set(),
            final(self).rows() == old(self).rows(),
            final(self).wf() == old(self).wf(),
            final(self).new_file == old(self).new_file,
    {
        self.context = None;
    }

    /// The folder the context panel is open on; `None` for a file, or when no
    /// panel is open.
    pub fn context_directory(&self) -> (r: Option<String>)
        ensures
            match self.context {
                Some(c) => if c.is_dir {
                    r matches Some(d) && d@ == c.target@
                } else {
                    r is None
                },
                None => r is None,
            },
    {
        match &self.context {
            Some(c) => if c.is_dir {
                Some(c.target.clone())
            } else {
                None
            },
            None => None,
        }
    }

    /// The context panel is taking a name (new file, new folder, rename).
    pub fn context_is_editing(&self) -> (r: bool)
        ensures
            r == (self.context matches Some(c) && is_editing_mode(c.mode)),
    {
        match &self.context {
            Some(c) => c.mode == ContextMode::CreateFile || c.mode == ContextMode::CreateFolder
                || c.mode == ContextMode::Rename,
            None => false,
        }
    }

    /// The cached rows.
    pub fn entries(&self) -> (r: &Vec<Entry>)
        ensures
            entry_views(r@) == self.rows(),
    {
        &self.entries
    }

    /// The expanded folders, so their listings can be read before a rebuild.
    pub fn expanded_dirs(&self) -> (r: Vec<String>)
        ensures
            string_views(r@).to_set() == self.expanded_set(),
    {
        let mut out: Vec<String> = Vec::new();
        let mut i: usize = 0;
        while i < self.expanded.len()
            invariant
                i <= self.expanded@.len(),
                string_views(out@) == string_views(self.expanded@).take(i as int),
            decreases self.expanded@.len() - i,
        {
            let ghost prev = out@;
            let c = self.expanded[i].clone();
            assert(c@ == string_views(self.expanded@)[i as int]);
            out.push(c);
            assert(out@ =~= prev.push(c));
            assert(string_views(out@) =~= string_views(prev).push(c@));
            assert(string_views(out@) =~= string_views(self.expanded@).take(i + 1));
            i = i + 1;
        }
        assert(string_views(self.expanded@).take(self.expanded@.len() as int) =~= string_views(
            self.expanded@,
        ));
        out
    }
}


/// How a tree row is shown.
#[derive(Debug, Clone, Copy, PartialEq, Eq, Structural)]
pub enum RowTone {
    /// The active document's file: the accent colour.
    Active,
    /// Another open file: readable.
    Open,
    /// Anything else, folders included: dimmed.
    Inactive,
}

/// The tone of a row for an entry that is a folder (`is_dir`) or a file
/// whose canonical path is `path` (none when it cannot be resolved), with
/// the open documents' canonical paths `open` and the active document's
/// `active`.
pub open spec fn tone_of(is_dir: bool, path: Option<Seq<char>>, open: Seq<Seq<char>>, active: Option<Seq<char>>) -> RowTone {
    match path {
        Some(p) => if is_dir {
            RowTone::Inactive
        } else if active matches Some(a) && crate::paths::same_path_spec(a, p) {
            RowTone::Active
        } else if exists|k: int| 0 <= k < open.len() && crate::paths::same_path_spec(#[trigger] open[k], p) {
            RowTone::Open
        } else {
            RowTone::Inactive
        },
        None => RowTone::Inactive,
    }
}

/// The tone of a tree row (see [`tone_of`]).
pub fn row_tone(is_dir: bool, path: Option<&str>, open: &Vec<String>, active: Option<&str>) -> (r: RowTone)
    ensures
        r == tone_of(
            is_dir,
            match path {
                Some(p) => Some(p@),
                None => None,
            },
            crate::strings::string_views(open@),
            match active {
                Some(a) => Some(a@),
                None => None,
            },
        ),
{
    let p = match path {
        Some(p) => p,
        None => return RowTone::Inactive,
    };
    if is_dir {
        return RowTone::Inactive;
    }
    let is_active = match active {
        Some(a) => crate::paths::same_path(a, p),
        None => false,
    };
    if is_active {
        return RowTone::Active;
    }
    let ghost v = crate::strings::string_views(open@);
    let mut i: usize = 0;
    while i < open.len()
        invariant
            i <= open@.len(),
            v == crate::strings::string_views(open@),
            forall|k: int| 0 <= k < i ==> !crate::paths::same_path_spec(#[trigger] v[k], p@),
            !is_dir,
            path == Some(p),
            active matches Some(a) ==> !crate::paths::same_path_spec(a@, p@),
        decreases open@.len() - i,
    {
        assert(v[i as int] == open@[i as int]@);
        if crate::paths::same_path(open[i].as_str(), p) {
            assert(crate::paths::same_path_spec(v[i as int], p@));
            return RowTone::Open;
        }
        i = i + 1;
    }
    assert(v.len() == open@.len());
    RowTone::Inactive
}

/// What the new-file input does when submitted.
#[derive(Debug)]
pub enum NewFile {
    /// Nothing was entered.
    Nothing,
    /// The name was refused, with this message.
    Refused(String),
    /// The untitled buffer takes the new file's path.
    NameUntitled { path: String, status: String },
    /// A new empty document opens at the path in its own pane.
    OpenNew { path: String, status: String },
}

/// The status line after creating `name`.
pub open spec fn created_status(name: Seq<char>) -> Seq<char> {
    "created "@ + name + " — CTRL+S to save"@
}

/// Submitting the new-file input holding `input` in the tree rooted at
/// `root`: the trimmed name must be one plain file name; an untitled focused
/// buffer is named after it, otherwise a new document opens.
pub fn new_file_plan(input: &str, root: &str, untitled: bool) -> (r: NewFile)
    ensures
        ({
            let name = trimmed(input@);
            if name.len() == 0 {
                r is Nothing
            } else if !single_plain_name(trimmed(name)) {
                r matches NewFile::Refused(e) && e@ == bad_name_message()
            } else if untitled {
                r matches NewFile::NameUntitled { path, status } && path@ == join_path(root@, trimmed(name))
                    && status@ == created_status(name)
            } else {
                r matches NewFile::OpenNew { path, status } && path@ == join_path(root@, trimmed(name))
                    && status@ == created_status(name)
            }
        }),
{
    let name = crate::strings::trim(input);
    if name.as_str().is_empty() {
        return NewFile::Nothing;
    }
    match child_path(root, name.as_str()) {
        Err(e) => NewFile::Refused(e),
        Ok(path) => {
            let a = crate::strings::concat("created ", name.as_str());
            let status = crate::strings::concat(a.as_str(), " — CTRL+S to save");
            if untitled {
                NewFile::NameUntitled { path, status }
            } else {
                NewFile::OpenNew { path, status }
            }
        },
    }
}

/// The message for a path with no folder above it.
pub open spec fn no_parent_message() -> Seq<char> {
    "cannot rename this path"@
}

/// Where renaming `source` to `name` puts it: the entered plain name joined
/// onto the folder holding `source`.
pub fn rename_destination(source: &str, name: &str) -> (r: Result<String, String>)
    ensures
        match parent_of(source@) {
            None => r matches Err(e) && e@ == no_parent_message(),
            Some(p) => if single_plain_name(trimmed(name@)) {
                r matches Ok(d) && d@ == join_path(p, trimmed(name@))
            } else {
                r matches Err(e) && e@ == bad_name_message()
            },
        },
{
    match path_parent(source) {
        Some(parent) => child_path(parent.as_str(), name),
        None => Err(String::from_str("cannot rename this path")),
    }
}

/// The documents that move when `from` is renamed to `to`: each one whose
/// path lies below `from`, with that path re-rooted under `to`, in order.
pub open spec fn moved_documents(docs: Seq<(usize, Seq<char>)>, from: Seq<char>, to: Seq<char>) -> Seq<
    (usize, Seq<char>),
>
    decreases docs.len(),
{
    if docs.len() == 0 {
        Seq::empty()
    } else {
        let rest = moved_documents(docs.drop_last(), from, to);
        match prefix_stripped(docs.last().1, from) {
            Some(tail) => rest.push((docs.last().0, join_path(to, tail))),
            None => rest,
        }
    }
}

/// The abstract (id, path) pairs.
pub open spec fn doc_path_views(v: Seq<(usize, String)>) -> Seq<(usize, Seq<char>)> {
    v.map_values(|d: (usize, String)| (d.0, d.1@))
}

/// The new paths of the open documents `docs` (id and canonical path) after
/// `from` is renamed to `to`.
pub fn remapped_documents(docs: &Vec<(usize, String)>, from: &str, to: &str) -> (r: Vec<(usize, String)>)
    ensures
        doc_path_views(r@) == moved_documents(doc_path_views(docs@), from@, to@),
{
    let ghost all = doc_path_views(docs@);
    let mut out: Vec<(usize, String)> = Vec::new();
    let mut i: usize = 0;
    while i < docs.len()
        invariant
            i <= docs@.len(),
            all == doc_path_views(docs@),
            doc_path_views(out@) == moved_documents(all.take(i as int), from@, to@),
        decreases docs@.len() - i,
    {
        assert(all.take(i + 1).drop_last() =~= all.take(i as int));
        assert(all.take(i + 1).last() == all[i as int]);
        let ghost prev = out@;
        match remap_descendant(docs[i].1.as_str(), from, to) {
            Some(p) => {
                out.push((docs[i].0, p));
                assert(doc_path_views(out@) =~= doc_path_views(prev).push(out@.last()@));
            },
            None => {},
        }
        i = i + 1;
    }
    assert(all.take(docs@.len() as int) =~= all);
    out
}

/// Some open document (by canonical path) lies at or below `target`, which
/// therefore may not be deleted.
pub fn contains_open_document(open: &Vec<String>, target: &str) -> (r: bool)
    ensures
        r == exists|i: int| 0 <= i < open@.len() && prefix_stripped(#[trigger] open@[i]@, target@) is Some,
{
    let mut i: usize = 0;
    while i < open.len()
        invariant
            i <= open@.len(),
            forall|k: int| 0 <= k < i ==> prefix_stripped(#[trigger] open@[k]@, target@) is None,
        decreases open@.len() - i,
    {
        if strip_prefix(open[i].as_str(), target).is_some() {
            return true;
        }
        i = i + 1;
    }
    false
}


/// The keybind cheat-sheet for the held modifiers: while a phantom is
/// active, its controls; otherwise exactly the bindings that need the held
/// keys (CTRL+SHIFT, then CTRL, SHIFT, ALT), or a legend of what each key
/// reveals when none is held.
pub open spec fn hint_table(phantom: bool, control: bool, shift: bool, alt: bool) -> (
    Seq<char>,
    Seq<(Seq<char>, Seq<char>)>,
) {
    if phantom {
        (
            "phantom"@,
            seq![("⇥"@, "accept"@), ("⌃⌫"@, "drop last word"@), ("⇧⌫"@, "discard"@)],
        )
    } else if control && shift {
        ("⌃⇧"@, seq![("⌃⇧Z"@, "redo"@)])
    } else if control {
        (
            "⌃ held"@,
            seq![
                ("⌃S"@, "save & preview"@),
                ("⌃Z"@, "undo"@),
                ("⌃Y"@, "redo"@),
                ("⌃H/J/K/L"@, "move ←/↓/↑/→"@),
                ("⌃."@, "next / correct spelling"@),
                ("⌃⌫"@, "delete word"@),
            ],
        )
    } else if shift {
        ("⇧ held"@, seq![("⇧⌫"@, "delete sentence"@)])
    } else if alt {
        ("⌥ held"@, seq![("⌥W / ⌥B"@, "next / prev word"@), ("⌥N / ⌥⇧N"@, "next / prev paragraph"@)])
    } else {
        (
            "hold a key"@,
            seq![("⌃"@, "save · undo · word"@), ("⇧"@, "delete sentence"@), ("⌥"@, "word · paragraph nav"@)],
        )
    }
}

fn push_hint(rows: &mut Vec<(String, String)>, key: &str, action: &str)
    ensures
        pairs_view(final(rows)@) == pairs_view(old(rows)@).push((key@, action@)),
{
    let ghost prev = rows@;
    rows.push((key.to_string(), action.to_string()));
    assert(pairs_view(rows@) =~= pairs_view(prev).push((key@, action@)));
}

/// The heading and rows of the keybind cheat-sheet shown above the new-file
/// input, for the held modifiers and whether a phantom is active.
pub fn keybind_hints(phantom: bool, control: bool, shift: bool, alt: bool) -> (r: (String, Vec<(String, String)>))
    ensures
        r.0@ == hint_table(phantom, control, shift, alt).0,
        pairs_view(r.1@) == hint_table(phantom, control, shift, alt).1,
{
    let mut rows: Vec<(String, String)> = Vec::new();
    let heading;
    if phantom {
        heading = "phantom";
        push_hint(&mut rows, "⇥", "accept");
        push_hint(&mut rows, "⌃⌫", "drop last word");
        push_hint(&mut rows, "⇧⌫", "discard");
    } else if control && shift {
        heading = "⌃⇧";
        push_hint(&mut rows, "⌃⇧Z", "redo");
    } else if control {
        heading = "⌃ held";
        push_hint(&mut rows, "⌃S", "save & preview");
        push_hint(&mut rows, "⌃Z", "undo");
        push_hint(&mut rows, "⌃Y", "redo");
        push_hint(&mut rows, "⌃H/J/K/L", "move ←/↓/↑/→");
        push_hint(&mut rows, "⌃.", "next / correct spelling");
        push_hint(&mut rows, "⌃⌫", "delete word");
    } else if shift {
        heading = "⇧ held";
        push_hint(&mut rows, "⇧⌫", "delete sentence");
    } else if alt {
        heading = "⌥ held";
        push_hint(&mut rows, "⌥W / ⌥B", "next / prev word");
        push_hint(&mut rows, "⌥N / ⌥⇧N", "next / prev paragraph");
    } else {
        heading = "hold a key";
        push_hint(&mut rows, "⌃", "save · undo · word");
        push_hint(&mut rows, "⇧", "delete sentence");
        push_hint(&mut rows, "⌥", "word · paragraph nav");
    }
    proof {
        let t = hint_table(phantom, control, shift, alt).1;
        assert(pairs_view(rows@) =~= t);
    }
    (heading.to_string(), rows)
}

fn tree_before_exec(a: &RawEntry, b: &RawEntry) -> (r: bool)
    ensures
        r == tree_before(a@, b@),
{
    if a.is_dir && !b.is_dir {
        true
    } else if a.is_dir == b.is_dir {
        name_lt_exec(a.name.as_str(), b.name.as_str())
    } else {
        false
    }
}

/// One directory's entries as the tree shows them.
pub fn order_entries(entries: &Vec<RawEntry>) -> (r: Vec<RawEntry>)
    ensures
        raw_views(r@) == shown(raw_views(entries@)),
{
    let ghost all = raw_views(entries@);
    let mut kept: Vec<RawEntry> = Vec::new();
    let mut i: usize = 0;
    while i < entries.len()
        invariant
            i <= entries@.len(),
            all == raw_views(entries@),
            raw_views(kept@) == visible(all.take(i as int)),
        decreases entries@.len() - i,
    {
        assert(all.take(i + 1).drop_last() =~= all.take(i as int));
        if !is_hidden_exec(&entries[i].name) {
            kept.push(entries[i].clone());
            assert(raw_views(kept@) =~= visible(all.take(i as int)).push(all[i as int]));
        }
        i = i + 1;
    }
    assert(all.take(entries@.len() as int) =~= all);
    let ghost vis = raw_views(kept@);
    let mut out: Vec<RawEntry> = Vec::new();
    let mut k: usize = 0;
    while k < kept.len()
        invariant
            k <= kept@.len(),
            vis == raw_views(kept@),
            raw_views(out@) == tree_sorted(vis.take(k as int)),
        decreases kept@.len() - k,
    {
        assert(vis.take(k + 1).drop_last() =~= vis.take(k as int));
        let ghost t = raw_views(out@);
        let ghost x = vis[k as int];
        let mut p: usize = 0;
        while p < out.len() && !tree_before_exec(&kept[k], &out[p])
            invariant
                p <= out@.len(),
                t == raw_views(out@),
                x == kept@[k as int]@,
                k < kept@.len(),
                insert_pos(t, x, 0) == insert_pos(t, x, p as int),
            decreases out@.len() - p,
        {
            p = p + 1;
        }
        out.insert(p, kept[k].clone());
        assert(raw_views(out@) =~= t.insert(p as int, x));
        k = k + 1;
    }
    assert(vis.take(kept@.len() as int) =~= vis);
    out
}

fn is_hidden_exec(name: &String) -> (r: bool)
    ensures
        r == is_hidden(name@),
{
    let cs = chars_of(name.as_str());
    cs.len() > 0 && cs[0] == '.'
}

} // verus!
