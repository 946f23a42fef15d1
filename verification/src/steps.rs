//! What the editor's commands do to a document: the phantom of a deleted
//! sentence (made, accepted, trimmed, discarded), and naming or opening a
//! file created from the sidebar.
//!
//! A document is its lines (as the editor widget holds them, without line
//! breaks), the caret as a line and a byte column, the phantom (the ghost
//! text sitting just after the caret), the unsaved marker and its undo
//! history. Undo snapshots hold the lines joined with `'\n'`.

use vstd::prelude::*;

use crate::document::{
    no_filename_message, save_request, save_result, saved_as, saved_file_text, unit_result,
    DocumentStorage,
};
use crate::editing::sentence_phantom;
use crate::paths::{bad_name_message, join_path, single_plain_name};
use crate::selection::{joined, joined_chars, line_chars, slice_of, DocId};
use crate::sidebar::{created_status, new_file_plan, NewFile};
use crate::strings::{piece_views, pieces_on, split_on, string_from_chars, trimmed};
use crate::text::{
    byte_len, byte_offset, char_width, chars_of, is_whitespace, is_ws, lemma_byte_offset_full,
    lemma_byte_offset_mono, lemma_byte_offset_step, sentence_start, str_byte_len, utf8_width, Pos,
};
use crate::undo::{History, HistoryModel, Snapshot};
use crate::workspace::{Workspace, WorkspaceModel};

verus! {

/// Where the caret lands after stepping over `c` from `p`: a line break
/// starts the next line, anything else moves right by its UTF-8 width.
pub open spec fn step_over(p: (int, int), c: char) -> (int, int) {
    if c == '\n' {
        (p.0 + 1, 0)
    } else {
        (p.0, p.1 + char_width(c))
    }
}

/// The position reached by stepping over the text `s` from `p`.
pub open spec fn advance(p: (int, int), s: Seq<char>) -> (int, int)
    decreases s.len(),
{
    if s.len() == 0 {
        p
    } else {
        step_over(advance(p, s.drop_last()), s.last())
    }
}

/// A position as integers.
pub open spec fn pos_view(p: Pos) -> (int, int) {
    (p.0 as int, p.1 as int)
}

/// Accepting a phantom (TAB) keeps its ghost text as real text and moves the
/// caret from `cursor` to the end of it.
pub fn accept_phantom(cursor: Pos, phantom: &str) -> (r: Pos)
    requires
        cursor.0 + phantom@.len() <= usize::MAX,
        cursor.1 + byte_len(phantom@) <= usize::MAX,
    ensures
        pos_view(r) == advance(pos_view(cursor), phantom@),
{
    let cs = chars_of(phantom);
    let mut line = cursor.0;
    let mut col = cursor.1;
    let mut i: usize = 0;
    proof {
        lemma_byte_offset_full(cs@);
        assert(cs@.take(0) =~= Seq::<char>::empty());
        assert(vstd::utf8::encode_utf8(Seq::<char>::empty()) =~= Seq::<u8>::empty());
    }
    while i < cs.len()
        invariant
            cs@ == phantom@,
            i <= cs@.len(),
            (line as int, col as int) == advance(pos_view(cursor), cs@.take(i as int)),
            line <= cursor.0 + i,
            col <= cursor.1 + byte_offset(cs@, i as int),
            byte_offset(cs@, cs@.len() as int) == byte_len(cs@),
            cursor.0 + cs@.len() <= usize::MAX,
            cursor.1 + byte_len(cs@) <= usize::MAX,
        decreases cs@.len() - i,
    {
        proof {
            lemma_byte_offset_step(cs@, i as int);
            lemma_byte_offset_mono(cs@, i + 1, cs@.len() as int);
            assert(cs@.take(i + 1).drop_last() =~= cs@.take(i as int));
        }
        let c = cs[i];
        if c == '\n' {
            line = line + 1;
            col = 0;
        } else {
            col = col + utf8_width(c);
        }
        i = i + 1;
    }
    assert(cs@.take(cs@.len() as int) =~= cs@);
    (line, col)
}

/// The start of the white space that ends at character `i` of `s`.
pub open spec fn space_back(s: Seq<char>, i: int) -> int
    decreases i,
{
    if 0 < i <= s.len() && is_ws(s[i - 1]) {
        space_back(s, i - 1)
    } else {
        i
    }
}

/// The start of the run of non-space characters that ends at `i` of `s`.
pub open spec fn word_back(s: Seq<char>, i: int) -> int
    decreases i,
{
    if 0 < i <= s.len() && !is_ws(s[i - 1]) {
        word_back(s, i - 1)
    } else {
        i
    }
}

/// Where the last word of `s` begins, taken with the white space before it
/// (and any after it): the number of characters that stay when the last
/// word is dropped.
pub open spec fn last_word_start(s: Seq<char>) -> int {
    space_back(s, word_back(s, space_back(s, s.len() as int)))
}

proof fn lemma_space_back(s: Seq<char>, i: int)
    requires
        0 <= i <= s.len(),
    ensures
        0 <= space_back(s, i) <= i,
    decreases i,
{
    if 0 < i && is_ws(s[i - 1]) {
        lemma_space_back(s, i - 1);
    }
}

proof fn lemma_word_back(s: Seq<char>, i: int)
    requires
        0 <= i <= s.len(),
    ensures
        0 <= word_back(s, i) <= i,
    decreases i,
{
    if 0 < i && !is_ws(s[i - 1]) {
        lemma_word_back(s, i - 1);
    }
}

/// Scan back from `i` while the characters are (`space`) or are not white
/// space.
fn scan_back(cs: &Vec<char>, i: usize, space: bool) -> (r: usize)
    requires
        i <= cs@.len(),
    ensures
        r as int == (if space {
            space_back(cs@, i as int)
        } else {
            word_back(cs@, i as int)
        }),
{
    let mut j = i;
    while j > 0 && is_whitespace(cs[j - 1]) == space
        invariant
            j <= i <= cs@.len(),
            space ==> space_back(cs@, i as int) == space_back(cs@, j as int),
            !space ==> word_back(cs@, i as int) == word_back(cs@, j as int),
        decreases j,
    {
        j = j - 1;
    }
    j
}

/// The number of characters [`last_word_start`] keeps.
fn last_word_chars(cs: &Vec<char>) -> (r: usize)
    ensures
        r as int == last_word_start(cs@),
        r <= cs@.len(),
{
    proof {
        lemma_space_back(cs@, cs@.len() as int);
    }
    let a = scan_back(cs, cs.len(), true);
    proof {
        lemma_word_back(cs@, a as int);
    }
    let b = scan_back(cs, a, false);
    proof {
        lemma_space_back(cs@, b as int);
    }
    scan_back(cs, b, true)
}

/// Dropping the last word off a phantom (CTRL+BACKSPACE): the last word
/// goes with the white space before it (and any after it). The result is
/// the number of bytes that leave the buffer (the end of the ghost text),
/// and what stays of the phantom (nothing, when only white space is left).
pub fn trim_phantom_word(phantom: &str) -> (r: (usize, Option<String>))
    ensures
        r.0 == byte_len(phantom@.skip(last_word_start(phantom@))),
        ({
            let kept = phantom@.take(last_word_start(phantom@));
            if trimmed(kept).len() == 0 {
                r.1 is None
            } else {
                r.1 matches Some(t) && t@ == kept
            }
        }),
{
    let cs = chars_of(phantom);
    let k = last_word_chars(&cs);
    let mut kept: Vec<char> = Vec::new();
    let mut i: usize = 0;
    while i < k
        invariant
            k <= cs@.len(),
            i <= k,
            kept@ == cs@.take(i as int),
        decreases k - i,
    {
        kept.push(cs[i]);
        i = i + 1;
        assert(kept@ =~= cs@.take(i as int));
    }
    let mut gone: Vec<char> = Vec::new();
    let mut j = k;
    while j < cs.len()
        invariant
            k <= j <= cs@.len(),
            gone@ == cs@.subrange(k as int, j as int),
        decreases cs@.len() - j,
    {
        gone.push(cs[j]);
        j = j + 1;
        assert(gone@ =~= cs@.subrange(k as int, j as int));
    }
    assert(gone@ =~= cs@.skip(k as int));
    let g = string_from_chars(gone.as_slice());
    let bytes = str_byte_len(g.as_str());
    let t = string_from_chars(kept.as_slice());
    let rest = crate::strings::trim(t.as_str());
    if rest.unicode_len() == 0 {
        (bytes, None)
    } else {
        (bytes, Some(t))
    }
}

/// The first character index at or after `i` at which stepping over `t`
/// from the start of the buffer reaches `p`.
pub open spec fn index_at(t: Seq<char>, p: (int, int), i: int) -> Option<int>
    decreases t.len() + 1 - i,
{
    if i < 0 || i > t.len() {
        None
    } else if advance((0, 0), t.take(i)) == p {
        Some(i)
    } else {
        index_at(t, p, i + 1)
    }
}

/// The text `t` with the `n` characters after the caret `p` removed (fewer
/// at the end of the text); unchanged when `p` is not a position of `t`.
pub open spec fn removed_after(t: Seq<char>, p: (int, int), n: int) -> Seq<char> {
    cut(t, p, 0, n)
}

/// The text `t` with `n` characters removed, starting `a` characters after
/// the caret `p` (fewer at the end of the text); unchanged when `p` is not a
/// position of `t`.
pub open spec fn cut(t: Seq<char>, p: (int, int), a: int, n: int) -> Seq<char> {
    match index_at(t, p, 0) {
        Some(k) => {
            let i = if k + a < t.len() {
                k + a
            } else {
                t.len() as int
            };
            let j = if i + n < t.len() {
                i + n
            } else {
                t.len() as int
            };
            t.take(i) + t.skip(j)
        },
        None => t,
    }
}

proof fn lemma_index_at(t: Seq<char>, p: (int, int), i: int)
    requires
        0 <= i,
    ensures
        index_at(t, p, i) matches Some(k) ==> i <= k <= t.len(),
    decreases t.len() + 1 - i,
{
    if i <= t.len() && advance((0, 0), t.take(i)) != p {
        lemma_index_at(t, p, i + 1);
    }
}

/// The text `t` with the span from position `a` to position `b` replaced
/// by `r`; unchanged when either is not a position of `t` or `b` comes
/// before `a`.
pub open spec fn replaced(t: Seq<char>, a: (int, int), b: (int, int), r: Seq<char>) -> Seq<char> {
    match (index_at(t, a, 0), index_at(t, b, 0)) {
        (Some(i), Some(j)) => if i <= j {
            t.take(i) + r + t.skip(j)
        } else {
            t
        },
        _ => t,
    }
}

/// The span from `a` to `b` is a span of `t`.
pub open spec fn span_in(t: Seq<char>, a: (int, int), b: (int, int)) -> bool {
    match (index_at(t, a, 0), index_at(t, b, 0)) {
        (Some(i), Some(j)) => i <= j,
        _ => false,
    }
}

/// The character index of the caret in the buffer text.
fn caret_index(t: &Vec<char>, cursor: Pos) -> (r: Option<usize>)
    requires
        byte_len(t@) <= usize::MAX,
    ensures
        match r {
            Some(k) => index_at(t@, pos_view(cursor), 0) == Some(k as int),
            None => index_at(t@, pos_view(cursor), 0) is None,
        },
{
    let n = t.len();
    let mut j: usize = 0;
    let mut line: usize = 0;
    let mut col: usize = 0;
    proof {
        lemma_byte_offset_full(t@);
        assert(t@.take(0) =~= Seq::<char>::empty());
        assert(vstd::utf8::encode_utf8(Seq::<char>::empty()) =~= Seq::<u8>::empty());
    }
    while j < n
        invariant
            n == t@.len(),
            j <= n,
            (line as int, col as int) == advance((0, 0), t@.take(j as int)),
            line <= j,
            col <= byte_offset(t@, j as int),
            byte_offset(t@, n as int) == byte_len(t@),
            byte_len(t@) <= usize::MAX,
            index_at(t@, pos_view(cursor), 0) == index_at(t@, pos_view(cursor), j as int),
        decreases n - j,
    {
        if line == cursor.0 && col == cursor.1 {
            return Some(j);
        }
        proof {
            lemma_byte_offset_step(t@, j as int);
            lemma_byte_offset_mono(t@, j + 1, n as int);
            assert(t@.take(j + 1).drop_last() =~= t@.take(j as int));
        }
        let c = t[j];
        if c == '\n' {
            line = line + 1;
            col = 0;
        } else {
            col = col + utf8_width(c);
        }
        j = j + 1;
    }
    assert(index_at(t@, pos_view(cursor), n + 1) is None);
    if line == cursor.0 && col == cursor.1 {
        Some(n)
    } else {
        None
    }
}

/// The lines of a text, split at every `'\n'`.
fn lines_of_text(t: &Vec<char>) -> (r: Vec<String>)
    ensures
        line_chars(r@) == pieces_on(t@, '\n', 0),
{
    let ps = split_on(t.as_slice(), '\n');
    let mut out: Vec<String> = Vec::new();
    let mut i: usize = 0;
    while i < ps.len()
        invariant
            i <= ps@.len(),
            line_chars(out@) == piece_views(ps@).take(i as int),
        decreases ps@.len() - i,
    {
        let line = string_from_chars(ps[i].as_slice());
        let ghost before = out@;
        out.push(line);
        assert(out@ == before.push(line));
        assert(piece_views(ps@)[i as int] == ps@[i as int]@);
        assert(line_chars(out@) =~= line_chars(before).push(line@));
        assert(piece_views(ps@).take(i + 1) =~= piece_views(ps@).take(i as int).push(piece_views(ps@)[i as int]));
        i = i + 1;
    }
    assert(piece_views(ps@).take(ps@.len() as int) =~= piece_views(ps@));
    out
}

/// The lines after removing `n` characters starting `a` characters after
/// the caret.
fn cut_after_caret(lines: &Vec<String>, cursor: Pos, a: usize, n: usize) -> (r: Vec<String>)
    ensures
        line_chars(r@) == pieces_on(cut(joined(lines@), pos_view(cursor), a as int, n as int), '\n', 0),
{
    let (t, _) = joined_chars(lines.as_slice());
    proof {
        lemma_index_at(t@, pos_view(cursor), 0);
    }
    match caret_index(&t, cursor) {
        None => lines_of_text(&t),
        Some(k) => {
            let start = if a < t.len() - k {
                k + a
            } else {
                t.len()
            };
            let end = if n < t.len() - start {
                start + n
            } else {
                t.len()
            };
            let mut u: Vec<char> = Vec::new();
            let mut i: usize = 0;
            while i < start
                invariant
                    start <= t@.len(),
                    i <= start,
                    u@ == t@.take(i as int),
                decreases start - i,
            {
                u.push(t[i]);
                i = i + 1;
                assert(u@ =~= t@.take(i as int));
            }
            let mut j = end;
            while j < t.len()
                invariant
                    start <= end <= j <= t@.len(),
                    u@ == t@.take(start as int) + t@.subrange(end as int, j as int),
                decreases t@.len() - j,
            {
                u.push(t[j]);
                j = j + 1;
                assert(u@ =~= t@.take(start as int) + t@.subrange(end as int, j as int));
            }
            assert(t@.subrange(end as int, t@.len() as int) =~= t@.skip(end as int));
            lines_of_text(&u)
        },
    }
}

/// The lines after removing the `n` characters that follow the caret.
fn remove_after_caret(lines: &Vec<String>, cursor: Pos, n: usize) -> (r: Vec<String>)
    ensures
        line_chars(r@) == pieces_on(removed_after(joined(lines@), pos_view(cursor), n as int), '\n', 0),
{
    cut_after_caret(lines, cursor, 0, n)
}

/// The lines after replacing the span from `start` to `end` by `r`.
fn replace_in_lines(lines: &Vec<String>, start: Pos, end: Pos, r: &str) -> (out: Vec<String>)
    ensures
        line_chars(out@) == pieces_on(replaced(joined(lines@), pos_view(start), pos_view(end), r@), '\n', 0),
{
    let (t, _) = joined_chars(lines.as_slice());
    proof {
        lemma_index_at(t@, pos_view(start), 0);
        lemma_index_at(t@, pos_view(end), 0);
    }
    let i = match caret_index(&t, start) {
        Some(i) => i,
        None => return lines_of_text(&t),
    };
    let j = match caret_index(&t, end) {
        Some(j) => j,
        None => return lines_of_text(&t),
    };
    if j < i {
        return lines_of_text(&t);
    }
    let rc = chars_of(r);
    let mut u: Vec<char> = Vec::new();
    let mut k: usize = 0;
    while k < i
        invariant
            i <= t@.len(),
            k <= i,
            u@ == t@.take(k as int),
        decreases i - k,
    {
        u.push(t[k]);
        k = k + 1;
        assert(u@ =~= t@.take(k as int));
    }
    let mut m: usize = 0;
    while m < rc.len()
        invariant
            m <= rc@.len(),
            u@ == t@.take(i as int) + rc@.take(m as int),
        decreases rc@.len() - m,
    {
        u.push(rc[m]);
        m = m + 1;
        assert(u@ =~= t@.take(i as int) + rc@.take(m as int));
    }
    assert(rc@.take(rc@.len() as int) =~= rc@);
    let mut q = j;
    while q < t.len()
        invariant
            j <= q <= t@.len(),
            u@ == t@.take(i as int) + rc@ + t@.subrange(j as int, q as int),
        decreases t@.len() - q,
    {
        u.push(t[q]);
        q = q + 1;
        assert(u@ =~= t@.take(i as int) + rc@ + t@.subrange(j as int, q as int));
    }
    assert(t@.subrange(j as int, t@.len() as int) =~= t@.skip(j as int));
    lines_of_text(&u)
}

/// A document as the editor commands see it.
#[derive(Debug)]
pub struct DocState {
    pub path: Option<String>,
    pub lines: Vec<String>,
    pub cursor: Pos,
    pub phantom: Option<String>,
    pub modified: bool,
    pub history: History,
    /// The buffer text as last saved or loaded (the lines joined): what the
    /// unsaved marker is measured against.
    pub saved: String,
}

/// `h1` is `h0` with one fresh undo step recorded, holding the lines `ls`
/// (joined) and the caret `c`.
pub open spec fn step_recorded(h0: HistoryModel, h1: HistoryModel, ls: Seq<String>, c: Pos) -> bool {
    &&& h1 == h0.record(h1.undo.last(), false)
    &&& h1.undo.last().text@ == joined(ls)
    &&& h1.undo.last().cursor == c
}

/// The sentence SHIFT+BACKSPACE turns into a phantom from the caret `c`:
/// where the caret goes and the ghost text, when there is one.
pub open spec fn sentence_target(ls: Seq<String>, c: Pos) -> Option<(Pos, Seq<char>)> {
    match sentence_start(ls, pos_view(c)) {
        None => None,
        Some(s) => if s == pos_view(c) {
            None
        } else {
            match slice_of(ls, (s.0 as usize, s.1 as usize), c) {
                Some(t) => Some(((s.0 as usize, s.1 as usize), t)),
                None => None,
            }
        },
    }
}

/// The phantom's text.
pub open spec fn phantom_view(p: Option<String>) -> Option<Seq<char>> {
    match p {
        Some(s) => Some(s@),
        None => None,
    }
}

impl DocState {
    /// A new untitled document: one empty line, the caret at its start, no
    /// phantom, nothing to undo.
    pub fn untitled() -> (d: DocState)
        ensures
            d.path is None,
            line_chars(d.lines@) == seq![Seq::<char>::empty()],
            d.cursor == (0usize, 0usize),
            d.phantom is None,
            !d.modified,
            d.history@ == HistoryModel::empty(),
            d.saved@.len() == 0,
    {
        let mut lines: Vec<String> = Vec::new();
        lines.push(String::new());
        assert(line_chars(lines@) =~= seq![Seq::<char>::empty()]);
        DocState {
            path: None,
            lines,
            cursor: (0, 0),
            phantom: None,
            modified: false,
            history: History::default(),
            saved: String::new(),
        }
    }

    /// The state an undo step records: the lines joined, and the caret.
    pub fn snapshot(&self) -> (s: Snapshot)
        ensures
            s.text@ == joined(self.lines@),
            s.cursor == self.cursor,
    {
        let (t, _) = joined_chars(self.lines.as_slice());
        Snapshot { text: string_from_chars(t.as_slice()), cursor: self.cursor }
    }

    /// Discard the phantom: its ghost text is removed from the buffer after
    /// the caret, and the deleted sentence stays gone.
    pub fn phantom_discard(&mut self)
        ensures
            final(self).saved == old(self).saved,
            final(self).phantom is None,
            final(self).cursor == old(self).cursor,
            final(self).path == old(self).path,
            final(self).history@ == old(self).history@,
            match old(self).phantom {
                Some(rem) => final(self).modified && line_chars(final(self).lines@) == pieces_on(
                    removed_after(joined(old(self).lines@), pos_view(old(self).cursor), rem@.len() as int),
                    '\n',
                    0,
                ),
                None => final(self).modified == old(self).modified && final(self).lines@ == old(self).lines@,
            },
    {
        match self.phantom.take() {
            None => {},
            Some(rem) => {
                let n = rem.unicode_len();
                self.lines = remove_after_caret(&self.lines, self.cursor, n);
                self.modified = true;
            },
        }
    }

    /// Accept the phantom: its ghost text becomes real text and the caret
    /// moves to its end.
    pub fn phantom_accept(&mut self)
        requires
            old(self).phantom matches Some(rem) ==> old(self).cursor.0 + rem@.len() <= usize::MAX
                && old(self).cursor.1 + byte_len(rem@) <= usize::MAX,
        ensures
            final(self).saved == old(self).saved,
            final(self).phantom is None,
            final(self).lines@ == old(self).lines@,
            final(self).path == old(self).path,
            final(self).history@ == old(self).history@,
            match old(self).phantom {
                Some(rem) => final(self).modified && pos_view(final(self).cursor) == advance(
                    pos_view(old(self).cursor),
                    rem@,
                ),
                None => final(self).modified == old(self).modified && final(self).cursor == old(self).cursor,
            },
    {
        match self.phantom.take() {
            None => {},
            Some(rem) => {
                self.cursor = accept_phantom(self.cursor, rem.as_str());
                self.modified = true;
            },
        }
    }

    /// Drop the phantom's last word, with the white space before it, from
    /// the end of the ghost text in the buffer; the rest stays a phantom
    /// unless only white space is left.
    pub fn phantom_trim_word(&mut self)
        ensures
            final(self).saved == old(self).saved,
            final(self).cursor == old(self).cursor,
            final(self).path == old(self).path,
            final(self).history@ == old(self).history@,
            match old(self).phantom {
                Some(rem) => {
                    let k = last_word_start(rem@);
                    let kept = rem@.take(k);
                    &&& final(self).modified
                    &&& line_chars(final(self).lines@) == pieces_on(
                        cut(joined(old(self).lines@), pos_view(old(self).cursor), k, rem@.len() - k),
                        '\n',
                        0,
                    )
                    &&& phantom_view(final(self).phantom) == if trimmed(kept).len() == 0 {
                        None
                    } else {
                        Some(kept)
                    }
                },
                None => final(self).phantom is None && final(self).modified == old(self).modified
                    && final(self).lines@ == old(self).lines@,
            },
    {
        match self.phantom.take() {
            None => {},
            Some(rem) => {
                let (_, kept) = trim_phantom_word(rem.as_str());
                let cs = chars_of(rem.as_str());
                let k = last_word_chars(&cs);
                self.lines = cut_after_caret(&self.lines, self.cursor, k, cs.len() - k);
                self.modified = true;
                self.phantom = kept;
            },
        }
    }

    /// Replace the span from `start` to `end` by `replacement` as one undo
    /// step (a spelling correction): the pre-edit state is recorded, the
    /// caret lands after the replacement and the document is modified. When
    /// the span is not one of the buffer, the text and caret stay.
    pub fn replace_span(&mut self, start: Pos, end: Pos, replacement: &str)
        requires
            start.0 + replacement@.len() <= usize::MAX,
            start.1 + byte_len(replacement@) <= usize::MAX,
        ensures
            step_recorded(old(self).history@, final(self).history@, old(self).lines@, old(self).cursor),
            line_chars(final(self).lines@) == pieces_on(
                replaced(joined(old(self).lines@), pos_view(start), pos_view(end), replacement@),
                '\n',
                0,
            ),
            span_in(joined(old(self).lines@), pos_view(start), pos_view(end)) ==> pos_view(final(self).cursor)
                == advance(pos_view(start), replacement@),
            !span_in(joined(old(self).lines@), pos_view(start), pos_view(end)) ==> final(self).cursor
                == old(self).cursor,
            final(self).modified,
            final(self).phantom == old(self).phantom,
            final(self).path == old(self).path,
            final(self).saved == old(self).saved,
    {
        let before = self.snapshot();
        self.history.record(before, false);
        let (t, _) = joined_chars(self.lines.as_slice());
        let valid = match (caret_index(&t, start), caret_index(&t, end)) {
            (Some(i), Some(j)) => i <= j,
            _ => false,
        };
        self.lines = replace_in_lines(&self.lines, start, end, replacement);
        if valid {
            self.cursor = accept_phantom(start, replacement);
        }
        self.modified = true;
    }

    /// Bring back a recorded state: the buffer is rebuilt from its text
    /// (so any phantom is dropped) and the caret put back.
    pub fn restore(&mut self, s: Snapshot)
        ensures
            line_chars(final(self).lines@) == pieces_on(s.text@, '\n', 0),
            final(self).cursor == s.cursor,
            final(self).phantom is None,
            final(self).modified,
            final(self).path == old(self).path,
            final(self).history@ == old(self).history@,
            final(self).saved == old(self).saved,
    {
        let cs = chars_of(s.text.as_str());
        self.lines = lines_of_text(&cs);
        self.cursor = s.cursor;
        self.phantom = None;
        self.modified = true;
    }

    /// CTRL+Z: step back to the last recorded state, if there is one (the
    /// current state becomes redoable). Tells whether there was one.
    pub fn undo(&mut self) -> (r: bool)
        ensures
            r == (old(self).history@.undo.len() > 0),
            final(self).path == old(self).path,
            final(self).saved == old(self).saved,
            !r ==> doc_unchanged(*final(self), *old(self)),
            r ==> {
                let prev = old(self).history@.undo.last();
                &&& final(self).history@.undo == old(self).history@.undo.drop_last()
                &&& final(self).history@.redo.len() == old(self).history@.redo.len() + 1
                &&& final(self).history@.redo.drop_last() == old(self).history@.redo
                &&& final(self).history@.redo.last().text@ == joined(old(self).lines@)
                &&& final(self).history@.redo.last().cursor == old(self).cursor
                &&& line_chars(final(self).lines@) == pieces_on(prev.text@, '\n', 0)
                &&& final(self).cursor == prev.cursor
                &&& final(self).phantom is None
                &&& final(self).modified
            },
    {
        let current = self.snapshot();
        match self.history.undo(current) {
            Some(prev) => {
                self.restore(prev);
                true
            },
            None => false,
        }
    }

    /// CTRL+SHIFT+Z: step forward again, if something was undone. Tells
    /// whether there was something to redo.
    pub fn redo(&mut self) -> (r: bool)
        ensures
            r == (old(self).history@.redo.len() > 0),
            final(self).path == old(self).path,
            final(self).saved == old(self).saved,
            !r ==> doc_unchanged(*final(self), *old(self)),
            r ==> {
                let next = old(self).history@.redo.last();
                &&& final(self).history@.redo == old(self).history@.redo.drop_last()
                &&& final(self).history@.undo.len() == old(self).history@.undo.len() + 1
                &&& final(self).history@.undo.drop_last() == old(self).history@.undo
                &&& final(self).history@.undo.last().text@ == joined(old(self).lines@)
                &&& final(self).history@.undo.last().cursor == old(self).cursor
                &&& line_chars(final(self).lines@) == pieces_on(next.text@, '\n', 0)
                &&& final(self).cursor == next.cursor
                &&& final(self).phantom is None
                &&& final(self).modified
            },
    {
        let current = self.snapshot();
        match self.history.redo(current) {
            Some(next) => {
                self.restore(next);
                true
            },
            None => false,
        }
    }

    /// Recompute the unsaved marker: a pending phantom (a deletion the next
    /// save commits) or a buffer that differs from the saved text.
    pub fn refresh_modified(&mut self)
        ensures
            final(self).modified == (old(self).phantom is Some || joined(old(self).lines@) != old(self).saved@),
            final(self).lines@ == old(self).lines@,
            final(self).cursor == old(self).cursor,
            final(self).phantom == old(self).phantom,
            final(self).path == old(self).path,
            final(self).history@ == old(self).history@,
            final(self).saved == old(self).saved,
    {
        let text = self.snapshot().text;
        self.modified = crate::document::is_modified(self.phantom.is_some(), text.as_str(), self.saved.as_str());
    }

    /// What a save hands the storage. A pending phantom is discarded first,
    /// so it never reaches the file; then the path and the buffer (the lines
    /// joined) ending in a newline, as [`save_request`] gives them. A
    /// document without a path is refused.
    ///
    /// [`save_request`]: crate::document::save_request
    pub fn save_request(&mut self) -> (r: Result<(String, String), String>)
        ensures
            final(self).phantom is None,
            final(self).cursor == old(self).cursor,
            final(self).path == old(self).path,
            final(self).history@ == old(self).history@,
            final(self).saved == old(self).saved,
            final(self).modified == (old(self).modified || old(self).phantom is Some),
            match old(self).phantom {
                Some(rem) => line_chars(final(self).lines@) == pieces_on(
                    removed_after(joined(old(self).lines@), pos_view(old(self).cursor), rem@.len() as int),
                    '\n',
                    0,
                ),
                None => final(self).lines@ == old(self).lines@,
            },
            match old(self).path {
                None => r matches Err(e) && e@ == no_filename_message(),
                Some(p) => r matches Ok((q, c)) && q@ == p@ && c@ == saved_file_text(joined(final(self).lines@)),
            },
    {
        self.phantom_discard();
        let text = self.snapshot().text;
        match &self.path {
            None => save_request(None, text.as_str()),
            Some(p) => save_request(Some(p.as_str()), text.as_str()),
        }
    }

    /// A save the storage answered `w` to, writing the file at `path`: on
    /// success the buffer becomes the saved text and the document is
    /// unmodified; the result is [`save_result`]'s.
    ///
    /// [`save_result`]: crate::document::save_result
    pub fn finish_save(&mut self, path: &str, w: Result<(), String>) -> (r: Result<String, String>)
        ensures
            saved_as(unit_result(w), path@, r),
            final(self).lines@ == old(self).lines@,
            final(self).cursor == old(self).cursor,
            final(self).phantom == old(self).phantom,
            final(self).path == old(self).path,
            final(self).history@ == old(self).history@,
            w is Ok ==> !final(self).modified && final(self).saved@ == joined(final(self).lines@),
            w is Err ==> final(self).saved == old(self).saved && final(self).modified == old(self).modified,
    {
        if w.is_ok() {
            self.saved = self.snapshot().text;
            self.modified = false;
        }
        save_result(path, w)
    }

    /// Save through `storage`: the storage is handed what
    /// [`DocState::save_request`] gives (so a phantom never reaches the
    /// file, even when the save fails), and its answer is taken as
    /// [`DocState::finish_save`] says.
    pub fn save_with<S: DocumentStorage>(&mut self, storage: &S) -> (r: Result<String, String>)
        ensures
            final(self).phantom is None,
            final(self).cursor == old(self).cursor,
            final(self).path == old(self).path,
            final(self).history@ == old(self).history@,
            match old(self).phantom {
                Some(rem) => line_chars(final(self).lines@) == pieces_on(
                    removed_after(joined(old(self).lines@), pos_view(old(self).cursor), rem@.len() as int),
                    '\n',
                    0,
                ),
                None => final(self).lines@ == old(self).lines@,
            },
            old(self).path is None ==> (r matches Err(e) && e@ == no_filename_message()),
            r matches Ok(p) ==> (old(self).path matches Some(q) && p@ == q@) && !final(self).modified
                && final(self).saved@ == joined(final(self).lines@),
            r is Err ==> final(self).saved == old(self).saved && final(self).modified == (old(self).modified
                || old(self).phantom is Some),
    {
        match self.save_request() {
            Err(e) => Err(e),
            Ok((p, contents)) => {
                let w = storage.write(p.as_str(), contents.as_str());
                self.finish_save(p.as_str(), w)
            },
        }
    }

    /// SHIFT+BACKSPACE. With a phantom pending it is discarded (one undo step
    /// brings it back). Otherwise the sentence before the caret becomes a
    /// phantom: the caret moves to the sentence's start, the text stays in
    /// the buffer as ghost text after it, the document is modified, and one
    /// undo step gives back the text and caret from before. Nothing happens
    /// when there is no sentence before the caret.
    pub fn delete_sentence(&mut self)
        ensures
            final(self).saved == old(self).saved,
            final(self).path == old(self).path,
            match old(self).phantom {
                Some(rem) => {
                    &&& final(self).phantom is None
                    &&& final(self).modified
                    &&& final(self).cursor == old(self).cursor
                    &&& line_chars(final(self).lines@) == pieces_on(
                        removed_after(joined(old(self).lines@), pos_view(old(self).cursor), rem@.len() as int),
                        '\n',
                        0,
                    )
                    &&& step_recorded(old(self).history@, final(self).history@, old(self).lines@, old(self).cursor)
                },
                None => match sentence_target(old(self).lines@, old(self).cursor) {
                    Some((p, t)) => {
                        &&& final(self).lines@ == old(self).lines@
                        &&& final(self).cursor == p
                        &&& phantom_view(final(self).phantom) == Some(t)
                        &&& final(self).modified
                        &&& step_recorded(old(self).history@, final(self).history@, old(self).lines@, old(self).cursor)
                    },
                    None => {
                        &&& final(self).lines@ == old(self).lines@
                        &&& final(self).cursor == old(self).cursor
                        &&& final(self).phantom is None
                        &&& final(self).modified == old(self).modified
                        &&& final(self).history@ == old(self).history@
                    },
                },
            },
    {
        if self.phantom.is_some() {
            let before = self.snapshot();
            self.history.record(before, false);
            self.phantom_discard();
            return;
        }
        match sentence_phantom(self.lines.as_slice(), self.cursor) {
            None => {},
            Some((start, text)) => {
                let before = self.snapshot();
                self.history.record(before, false);
                self.phantom = Some(text);
                self.cursor = start;
                self.modified = true;
            },
        }
    }
}

/// `b` is `a`, field by field.
pub open spec fn doc_unchanged(a: DocState, b: DocState) -> bool {
    &&& a.path == b.path
    &&& a.lines@ == b.lines@
    &&& a.cursor == b.cursor
    &&& a.phantom == b.phantom
    &&& a.modified == b.modified
    &&& a.history@ == b.history@
    &&& a.saved == b.saved
}

/// What submitting the sidebar's new-file input did.
#[derive(Debug)]
pub enum Created {
    /// Nothing was entered.
    Nothing,
    /// The name was refused, with this message.
    Refused(String),
    /// The untitled active document took the file's path; the status line.
    Named(String),
    /// A new empty document `id` was opened at the file's path; its editor
    /// pane is split off the grid by the caller.
    Opened { id: DocId, doc: DocState, status: String },
}

/// Submit the new-file input `new_file` in the tree rooted at `root`. An
/// empty (or blank) input does nothing; otherwise the input is cleared and
/// the trimmed name must be a single plain file name. An untitled active
/// document then takes the new path, keeping its text, caret, phantom and
/// history, and becomes modified, with no document added. Otherwise a new
/// empty, modified document opens at the path under the next id.
pub fn create_file(new_file: &mut String, root: &str, active: &mut DocState, workspace: &mut Workspace) -> (r: Created)
    requires
        old(workspace).next_id < usize::MAX,
    ensures
        ({
            let name = trimmed(old(new_file)@);
            if name.len() == 0 {
                &&& r is Nothing
                &&& final(new_file)@ == old(new_file)@
                &&& doc_unchanged(*final(active), *old(active))
                &&& final(workspace)@ == old(workspace)@
            } else if !single_plain_name(trimmed(name)) {
                &&& final(new_file)@.len() == 0
                &&& (r matches Created::Refused(e) && e@ == bad_name_message())
                &&& doc_unchanged(*final(active), *old(active))
                &&& final(workspace)@ == old(workspace)@
            } else if old(active).path is None {
                &&& final(new_file)@.len() == 0
                &&& (r matches Created::Named(st) && st@ == created_status(name))
                &&& (final(active).path matches Some(p) && p@ == join_path(root@, trimmed(name)))
                &&& final(active).lines@ == old(active).lines@
                &&& final(active).cursor == old(active).cursor
                &&& final(active).phantom == old(active).phantom
                &&& final(active).history@ == old(active).history@
                &&& final(active).modified
                &&& final(workspace)@ == old(workspace)@
            } else {
                &&& final(new_file)@.len() == 0
                &&& (r matches Created::Opened { id, doc, status } && id == old(workspace)@.next_id
                    && status@ == created_status(name) && (doc.path matches Some(p) && p@ == join_path(
                    root@,
                    trimmed(name),
                )) && line_chars(doc.lines@) == seq![Seq::<char>::empty()] && doc.cursor == (0usize, 0usize)
                    && doc.phantom is None && doc.modified && doc.history@ == HistoryModel::empty())
                &&& doc_unchanged(*final(active), *old(active))
                &&& final(workspace)@ == (WorkspaceModel {
                    documents: old(workspace)@.documents.push(old(workspace)@.next_id),
                    next_id: (old(workspace)@.next_id + 1) as usize,
                    ..old(workspace)@
                })
            }
        }),
{
    let untitled = active.path.is_none();
    match new_file_plan(new_file.as_str(), root, untitled) {
        NewFile::Nothing => Created::Nothing,
        NewFile::Refused(e) => {
            *new_file = String::new();
            Created::Refused(e)
        },
        NewFile::NameUntitled { path, status } => {
            *new_file = String::new();
            active.path = Some(path);
            active.modified = true;
            Created::Named(status)
        },
        NewFile::OpenNew { path, status } => {
            *new_file = String::new();
            let id = workspace.insert_document();
            let mut doc = DocState::untitled();
            doc.path = Some(path);
            doc.modified = true;
            Created::Opened { id, doc, status }
        },
    }
}

/// One undo after a recorded step gives back the lines (joined) and caret
/// recorded before it, whatever the live state handed to undo is.
pub proof fn law_one_undo_restores_the_step(
    h0: HistoryModel,
    h1: HistoryModel,
    ls: Seq<String>,
    c: Pos,
    current: Snapshot,
)
    requires
        step_recorded(h0, h1, ls, c),
    ensures
        h1.undo(current).1 matches Some(s) && s.text@ == joined(ls) && s.cursor == c,
{
}

} // verus!
