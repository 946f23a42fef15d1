//! Stable text-selection value objects shared by selection-driven commands:
//! the markdown formats a selection can be wrapped in, and a captured
//! selection that can later be checked against the buffer.

use vstd::prelude::*;

use crate::latex::join_nl;
use crate::strings::{concat, string_from_chars};
use crate::text::{byte_len, byte_offset, chars_of, Pos};

verus! {

/// Identifies an open document.
pub type DocId = usize;

/// Inline markdown formats for a selection.
#[derive(Debug, Clone, Copy, PartialEq, Eq, Structural)]
pub enum SelectionFormat {
    Bold,
    Italic,
    Underline,
}

/// `selected` wrapped in the markup of `format`.
pub open spec fn formatted(format: SelectionFormat, selected: Seq<char>) -> Seq<char> {
    match format {
        SelectionFormat::Bold => "**"@ + selected + "**"@,
        SelectionFormat::Italic => "*"@ + selected + "*"@,
        SelectionFormat::Underline => "<u>"@ + selected + "</u>"@,
    }
}

impl SelectionFormat {
    /// Wrap `selected` in this format's markup. CommonMark has no underline
    /// syntax, so underline uses interoperable inline HTML.
    pub fn apply(self, selected: &str) -> (r: String)
        ensures
            r@ == formatted(self, selected@),
    {
        let (open, close) = match self {
            SelectionFormat::Bold => ("**", "**"),
            SelectionFormat::Italic => ("*", "*"),
            SelectionFormat::Underline => ("<u>", "</u>"),
        };
        let head = concat(open, selected);
        concat(head.as_str(), close)
    }
}

/// A selection captured from a document: which document, its span, and the
/// text it held.
#[derive(Debug, PartialEq, Eq)]
pub struct TextSelection {
    document: DocId,
    start: Pos,
    end: Pos,
    snapshot: String,
}

impl Clone for TextSelection {
    fn clone(&self) -> (r: Self)
        ensures
            r == *self,
    {
        TextSelection {
            document: self.document,
            start: self.start,
            end: self.end,
            snapshot: self.snapshot.clone(),
        }
    }
}

impl TextSelection {
    /// The document the selection was taken from.
    pub closed spec fn spec_document(&self) -> DocId {
        self.document
    }

    /// Where the selection begins.
    pub closed spec fn spec_start(&self) -> Pos {
        self.start
    }

    /// Where the selection ends.
    pub closed spec fn spec_end(&self) -> Pos {
        self.end
    }

    /// The selected text when it was captured.
    pub closed spec fn spec_text(&self) -> Seq<char> {
        self.snapshot@
    }

    /// A selection of `snapshot` spanning `start..end` in `document`.
    pub fn new(document: DocId, start: Pos, end: Pos, snapshot: String) -> (r: Self)
        ensures
            r.spec_document() == document,
            r.spec_start() == start,
            r.spec_end() == end,
            r.spec_text() == snapshot@,
    {
        TextSelection { document, start, end, snapshot }
    }

    pub fn document(&self) -> (r: DocId)
        ensures
            r == self.spec_document(),
    {
        self.document
    }

    pub fn start(&self) -> (r: Pos)
        ensures
            r == self.spec_start(),
    {
        self.start
    }

    pub fn end(&self) -> (r: Pos)
        ensures
            r == self.spec_end(),
    {
        self.end
    }

    pub fn text(&self) -> (r: &str)
        ensures
            r@ == self.spec_text(),
    {
        self.snapshot.as_str()
    }
}

// ---------------------------------------------------------------------------
// Locating a selection in the buffer
// ---------------------------------------------------------------------------

/// The editor's cursor: the caret position and, while text is selected, the
/// anchor the selection extends from.
#[derive(Debug, Clone, Copy, PartialEq, Eq)]
pub struct EditorCursor {
    pub position: Pos,
    pub selection: Option<Pos>,
}

/// The characters of each line.
pub open spec fn line_chars(ls: Seq<String>) -> Seq<Seq<char>> {
    ls.map_values(|l: String| l@)
}

/// The buffer as one text: the lines joined with `'\n'`.
pub open spec fn joined(ls: Seq<String>) -> Seq<char> {
    join_nl(line_chars(ls))
}

/// Byte offset, in the joined text, at which line `l` begins: the bytes of
/// every earlier line plus one newline each.
pub open spec fn line_base(ls: Seq<Seq<char>>, l: int) -> int
    decreases l,
{
    if l <= 0 {
        0
    } else {
        line_base(ls, l - 1) + byte_len(ls[l - 1]) + 1
    }
}

/// Byte offset of `p` in the joined text (a line past the end counts every
/// line before it).
pub open spec fn absolute(ls: Seq<String>, p: Pos) -> int {
    let n = ls.len() as int;
    line_base(line_chars(ls), if (p.0 as int) < n { p.0 as int } else { n }) + p.1
}

/// `Some(i)` for the first occurrence of `needle` at or after character `i`.
pub open spec fn first_occ(hay: Seq<char>, needle: Seq<char>, i: int) -> Option<int>
    decreases hay.len() + 1 - i,
{
    if 0 <= i <= hay.len() {
        if crate::strings::occurs_at(hay, needle, i) {
            Some(i)
        } else {
            first_occ(hay, needle, i + 1)
        }
    } else {
        None
    }
}

proof fn lemma_first_occ(hay: Seq<char>, needle: Seq<char>, from: int, r: Option<usize>)
    requires
        0 <= from,
        match r {
            Some(i) => from <= i && crate::strings::occurs_at(hay, needle, i as int) && forall|j: int|
                from <= j < i ==> !crate::strings::occurs_at(hay, needle, j),
            None => forall|j: int| from <= j ==> !crate::strings::occurs_at(hay, needle, j),
        },
    ensures
        first_occ(hay, needle, from) == match r {
            Some(i) => Some(i as int),
            None => None::<int>,
        },
    decreases hay.len() + 1 - from,
{
    if from <= hay.len() {
        if crate::strings::occurs_at(hay, needle, from) {
        } else {
            lemma_first_occ(hay, needle, from + 1, r);
        }
    }
}

pub proof fn lemma_first_occ_ge(hay: Seq<char>, needle: Seq<char>, i: int)
    ensures
        first_occ(hay, needle, i) matches Some(m) ==> i <= m && m + needle.len() <= hay.len(),
    decreases hay.len() + 1 - i,
{
    if 0 <= i <= hay.len() && !crate::strings::occurs_at(hay, needle, i) {
        lemma_first_occ_ge(hay, needle, i + 1);
    }
}

/// Scanning the non-overlapping matches of `needle` in `hay` left to right
/// from character `from` (as `str::match_indices` does), the first whose
/// byte span covers `[low, high]`.
pub open spec fn covering_match(hay: Seq<char>, needle: Seq<char>, from: int, low: int, high: int) -> Option<int>
    decreases hay.len() + 1 - from,
{
    if 0 <= from <= hay.len() {
        match first_occ(hay, needle, from) {
            None => None,
            Some(m) => {
                proof {
                    lemma_first_occ_ge(hay, needle, from);
                }
                if byte_offset(hay, m) <= low && byte_offset(hay, m + needle.len()) >= high {
                    Some(m)
                } else {
                    covering_match(
                        hay,
                        needle,
                        m + if needle.len() > 0 { needle.len() as int } else { 1 },
                        low,
                        high,
                    )
                }
            },
        }
    } else {
        None
    }
}

/// The `(line, column)` of byte offset `off` in the joined text, searching
/// from line `l`: the first line that reaches it, or the end of the last
/// line.
pub open spec fn position_from(ls: Seq<Seq<char>>, off: int, l: int) -> (int, int)
    decreases ls.len() - l,
{
    if 0 <= l < ls.len() {
        if off <= line_base(ls, l) + byte_len(ls[l]) {
            (l, off - line_base(ls, l))
        } else {
            position_from(ls, off, l + 1)
        }
    } else if ls.len() == 0 {
        (0, 0)
    } else {
        (ls.len() - 1, byte_len(ls[ls.len() - 1]) as int)
    }
}

/// `"\r\n"` and lone `'\r'` line endings turned into `'\n'`.
pub open spec fn normalized(s: Seq<char>) -> Seq<char>
    decreases s.len(),
{
    if s.len() == 0 {
        s
    } else if s[0] == '\r' {
        if s.len() > 1 && s[1] == '\n' {
            seq!['\n'] + normalized(s.skip(2))
        } else {
            seq!['\n'] + normalized(s.skip(1))
        }
    } else {
        seq![s[0]] + normalized(s.skip(1))
    }
}

/// Where the selected text lies: among the occurrences of the (normalized)
/// `selected` text in the joined buffer, the first that covers the span
/// between caret and anchor, as `(start, end)` positions.
pub open spec fn span_of(ls: Seq<String>, cursor: EditorCursor, selected: Seq<char>) -> Option<((int, int), (int, int))> {
    match cursor.selection {
        None => None,
        Some(anchor) => {
            let j = joined(ls);
            let s = normalized(selected);
            let a = absolute(ls, cursor.position);
            let b = absolute(ls, anchor);
            let low = if a < b { a } else { b };
            let high = if a < b { b } else { a };
            match covering_match(j, s, 0, low, high) {
                None => None,
                Some(m) => Some(
                    (
                        position_from(line_chars(ls), byte_offset(j, m) as int, 0),
                        position_from(line_chars(ls), byte_offset(j, m + s.len()) as int, 0),
                    ),
                ),
            }
        },
    }
}

/// `"\r\n"` and lone `'\r'` turned into `'\n'`.
pub fn normalize_newlines(s: &[char]) -> (r: Vec<char>)
    ensures
        r@ == normalized(s@),
{
    let n = s.len();
    let mut out: Vec<char> = Vec::new();
    let mut i: usize = 0;
    assert(s@.skip(0) =~= s@);
    assert(out@ + normalized(s@) =~= normalized(s@));
    while i < n
        invariant
            n == s@.len(),
            i <= n,
            out@ + normalized(s@.skip(i as int)) == normalized(s@),
        decreases n - i,
    {
        let ghost rest = s@.skip(i as int);
        if s[i] == '\r' {
            out.push('\n');
            if i + 1 < n && s[i + 1] == '\n' {
                assert(rest.skip(2) =~= s@.skip(i + 2));
                i = i + 2;
            } else {
                assert(rest.skip(1) =~= s@.skip(i + 1));
                i = i + 1;
            }
        } else {
            out.push(s[i]);
            assert(rest.skip(1) =~= s@.skip(i + 1));
            i = i + 1;
        }
    }
    assert(s@.skip(n as int) =~= Seq::<char>::empty());
    assert(out@ + normalized(s@.skip(n as int)) =~= out@);
    out
}

proof fn lemma_join_len(ls: Seq<Seq<char>>)
    requires
        ls.len() >= 1,
    ensures
        byte_len(join_nl(ls)) + 1 == line_base(ls, ls.len() as int),
    decreases ls.len(),
{
    if ls.len() == 1 {
        assert(line_base(ls, 0) == 0);
    } else {
        let d = ls.drop_last();
        lemma_join_len(d);
        lemma_base_prefix(ls, d, d.len() as int);
        crate::text::lemma_encode_concat(join_nl(d), seq!['\n']);
        crate::text::lemma_encode_concat(join_nl(d) + seq!['\n'], ls.last());
        assert(vstd::utf8::encode_utf8(seq!['\n']) =~= vstd::utf8::encode_scalar('\n' as u32)
            + vstd::utf8::encode_utf8(seq!['\n'].drop_first()));
        assert(seq!['\n'].drop_first() =~= Seq::<char>::empty());
    }
}

proof fn lemma_base_prefix(ls: Seq<Seq<char>>, d: Seq<Seq<char>>, l: int)
    requires
        0 <= l <= d.len() <= ls.len(),
        forall|i: int| 0 <= i < d.len() ==> d[i] == ls[i],
    ensures
        line_base(ls, l) == line_base(d, l),
    decreases l,
{
    if l > 0 {
        lemma_base_prefix(ls, d, l - 1);
    }
}

proof fn lemma_base_mono(ls: Seq<Seq<char>>, a: int, b: int)
    requires
        0 <= a <= b,
    ensures
        line_base(ls, a) + (b - a) <= line_base(ls, b),
    decreases b - a,
{
    if a < b {
        lemma_base_mono(ls, a, b - 1);
    }
}

/// The buffer joined with `'\n'` as characters, and the byte offset of
/// every character index (including the end).
pub(crate) fn joined_chars(lines: &[String]) -> (r: (Vec<char>, Vec<usize>))
    ensures
        r.0@ == joined(lines@),
        r.1@.len() == r.0@.len() + 1,
        forall|k: int| 0 <= k <= r.0@.len() ==> #[trigger] r.1@[k] == byte_offset(r.0@, k),
        byte_len(r.0@) <= usize::MAX,
{
    let mut j: Vec<char> = Vec::new();
    let mut i: usize = 0;
    let ghost ls = line_chars(lines@);
    while i < lines.len()
        invariant
            i <= lines@.len(),
            ls == line_chars(lines@),
            j@ == join_nl(ls.take(i as int)),
        decreases lines@.len() - i,
    {
        let ghost prev = ls.take(i as int);
        let ghost next = ls.take(i + 1);
        assert(next.drop_last() =~= prev);
        if i > 0 {
            j.push('\n');
        }
        let cs = chars_of(lines[i].as_str());
        let ghost base = j@;
        let mut k: usize = 0;
        while k < cs.len()
            invariant
                k <= cs@.len(),
                j@ == base + cs@.take(k as int),
            decreases cs@.len() - k,
        {
            j.push(cs[k]);
            k = k + 1;
            assert(j@ =~= base + cs@.take(k as int));
        }
        assert(cs@.take(cs@.len() as int) =~= cs@);
        assert(next.last() == lines@[i as int]@);
        assert(j@ =~= join_nl(next));
        i = i + 1;
    }
    assert(ls.take(lines@.len() as int) =~= ls);
    let text = string_from_chars(j.as_slice());
    let total = crate::text::str_byte_len(text.as_str());
    let mut offs: Vec<usize> = Vec::new();
    let mut off: usize = 0;
    let mut k: usize = 0;
    proof {
        assert(j@.take(0) =~= Seq::<char>::empty());
        assert(vstd::utf8::encode_utf8(Seq::<char>::empty()) =~= Seq::<u8>::empty());
        crate::text::lemma_byte_offset_full(j@);
    }
    while k < j.len()
        invariant
            k <= j@.len(),
            total == byte_len(j@),
            byte_offset(j@, j@.len() as int) == byte_len(j@),
            off == byte_offset(j@, k as int),
            offs@.len() == k,
            forall|t: int| 0 <= t < k ==> #[trigger] offs@[t] == byte_offset(j@, t),
        decreases j@.len() - k,
    {
        offs.push(off);
        proof {
            crate::text::lemma_byte_offset_step(j@, k as int);
            crate::text::lemma_byte_offset_mono(j@, k + 1, j@.len() as int);
        }
        off = off + crate::text::utf8_width(j[k]);
        k = k + 1;
    }
    offs.push(off);
    (j, offs)
}

/// Byte offset of `p` in the joined buffer.
fn absolute_exec(lines: &[String], p: Pos) -> (r: usize)
    requires
        absolute(lines@, p) <= usize::MAX,
    ensures
        r == absolute(lines@, p),
{
    let n = lines.len();
    let stop = if p.0 < n { p.0 } else { n };
    let ghost ls = line_chars(lines@);
    proof {
        lemma_base_mono(ls, stop as int, stop as int);
    }
    let mut base: usize = 0;
    let mut i: usize = 0;
    while i < stop
        invariant
            stop <= lines@.len(),
            i <= stop,
            ls == line_chars(lines@),
            base == line_base(ls, i as int),
            line_base(ls, stop as int) + p.1 <= usize::MAX,
        decreases stop - i,
    {
        proof {
            lemma_base_mono(ls, i + 1, stop as int);
        }
        let len = crate::text::str_byte_len(lines[i].as_str());
        base = base + len + 1;
        i = i + 1;
    }
    base + p.1
}

/// `(line, column)` of byte offset `off` in the joined buffer.
fn position_exec(lines: &[String], off: usize) -> (r: Pos)
    requires
        off <= byte_len(joined(lines@)),
        byte_len(joined(lines@)) <= usize::MAX,
    ensures
        (r.0 as int, r.1 as int) == position_from(line_chars(lines@), off as int, 0),
{
    let ghost ls = line_chars(lines@);
    let n = lines.len();
    if n == 0 {
        return (0, 0);
    }
    proof {
        lemma_join_len(ls);
    }
    let mut base: usize = 0;
    let mut l: usize = 0;
    while l < n
        invariant
            n == lines@.len(),
            n >= 1,
            l <= n,
            ls == line_chars(lines@),
            base == line_base(ls, l as int),
            byte_len(join_nl(ls)) + 1 == line_base(ls, n as int),
            l == 0 || off >= line_base(ls, l as int),
            byte_len(join_nl(ls)) <= usize::MAX,
            position_from(ls, off as int, l as int) == position_from(ls, off as int, 0),
        decreases n - l,
    {
        let len = crate::text::str_byte_len(lines[l].as_str());
        proof {
            lemma_base_mono(ls, l + 1, n as int);
        }
        if off <= base + len {
            return (l, off - base);
        }
        base = base + len + 1;
        l = l + 1;
    }
    (n - 1, crate::text::str_byte_len(lines[n - 1].as_str()))
}

/// Locate the selected text: the occurrence of `selected` in the buffer
/// that covers the span between the caret and the selection anchor.
pub fn selection_span(lines: &[String], cursor: EditorCursor, selected: &str) -> (r: Option<(Pos, Pos)>)
    requires
        absolute(lines@, cursor.position) <= usize::MAX,
        cursor.selection matches Some(anchor) ==> absolute(lines@, anchor) <= usize::MAX,
    ensures
        match r {
            Some((a, b)) => span_of(lines@, cursor, selected@) == Some(
                ((a.0 as int, a.1 as int), (b.0 as int, b.1 as int)),
            ),
            None => span_of(lines@, cursor, selected@) is None,
        },
{
    let anchor = match cursor.selection {
        None => return None,
        Some(a) => a,
    };
    let raw = chars_of(selected);
    let sel = normalize_newlines(raw.as_slice());
    let (j, offs) = joined_chars(lines);
    let a = absolute_exec(lines, cursor.position);
    let b = absolute_exec(lines, anchor);
    let low = if a < b { a } else { b };
    let high = if a < b { b } else { a };
    let ghost hay = j@;
    let ghost needle = sel@;
    let mut from: usize = 0;
    let jl = j.len();
    loop
        invariant
            jl == hay.len(),
            hay == j@,
            needle == sel@,
            hay == joined(lines@),
            byte_len(hay) <= usize::MAX,
            cursor.selection == Some(anchor),
            needle == normalized(selected@),
            a == absolute(lines@, cursor.position),
            b == absolute(lines@, anchor),
            low == (if a < b { a } else { b }),
            high == (if a < b { b } else { a }),
            offs@.len() == hay.len() + 1,
            forall|k: int| 0 <= k <= hay.len() ==> #[trigger] offs@[k] == byte_offset(hay, k),
            from <= hay.len() + 1,
            covering_match(hay, needle, from as int, low as int, high as int) == covering_match(
                hay,
                needle,
                0,
                low as int,
                high as int,
            ),
        decreases hay.len() + 1 - from,
    {
        let found = crate::strings::find_from(j.as_slice(), sel.as_slice(), from);
        proof {
            lemma_first_occ(hay, needle, from as int, found);
            lemma_first_occ_ge(hay, needle, from as int);
        }
        match found {
            None => {
                assert(covering_match(hay, needle, from as int, low as int, high as int) is None);
                return None;
            },
            Some(m) => {
                assert(crate::strings::occurs_at(hay, needle, m as int));
                let end = m + sel.len();
                if offs[m] <= low && offs[end] >= high {
                    assert(covering_match(hay, needle, from as int, low as int, high as int) == Some(
                        m as int,
                    ));
                    let start_off = offs[m];
                    let end_off = offs[end];
                    proof {
                        crate::text::lemma_byte_offset_mono(hay, m + needle.len(), hay.len() as int);
                        crate::text::lemma_byte_offset_mono(hay, m as int, hay.len() as int);
                        crate::text::lemma_byte_offset_full(hay);
                    }
                    let p = position_exec(lines, start_off);
                    let q = position_exec(lines, end_off);
                    return Some((p, q));
                }
                if sel.len() == 0 && m == j.len() {
                    assert(covering_match(hay, needle, from as int, low as int, high as int) is None);
                    return None;
                }
                assert(covering_match(hay, needle, from as int, low as int, high as int)
                    == covering_match(
                    hay,
                    needle,
                    m + if needle.len() > 0 { needle.len() as int } else { 1 },
                    low as int,
                    high as int,
                ));
                from = m + if sel.len() > 0 { sel.len() } else { 1 };
            },
        }
    }
}

// ---------------------------------------------------------------------------
// The text between two positions
// ---------------------------------------------------------------------------

/// Lines `i..j` of `ls`, each followed by a `'\n'`.
pub open spec fn lines_with_nl(ls: Seq<Seq<char>>, i: int, j: int) -> Seq<char>
    decreases j - i,
{
    if i < j {
        ls[i] + seq!['\n'] + lines_with_nl(ls, i + 1, j)
    } else {
        Seq::empty()
    }
}

/// `p` lies in the buffer, between two characters of its line.
pub open spec fn valid_pos(ls: Seq<String>, p: Pos) -> bool {
    p.0 < ls.len() && crate::spell::on_boundary(ls[p.0 as int]@, p.1 as int)
}

/// The buffer text from `a` to `b` (lines joined with `'\n'`), when both
/// positions are valid and `a` does not come after `b`.
pub open spec fn slice_of(ls: Seq<String>, a: Pos, b: Pos) -> Option<Seq<char>> {
    if valid_pos(ls, a) && valid_pos(ls, b) {
        let la = ls[a.0 as int]@;
        let lb = ls[b.0 as int]@;
        let ka = crate::spell::char_index(la, a.1 as int);
        let kb = crate::spell::char_index(lb, b.1 as int);
        if a.0 == b.0 {
            if ka <= kb {
                Some(la.subrange(ka, kb))
            } else {
                None
            }
        } else if a.0 < b.0 {
            Some(
                la.skip(ka) + seq!['\n'] + lines_with_nl(line_chars(ls), a.0 + 1, b.0 as int)
                    + lb.take(kb),
            )
        } else {
            None
        }
    } else {
        None
    }
}

/// The character index at byte offset `b` of `cs`, if `b` lies between two
/// characters.
fn char_index_checked(cs: &[char], b: usize) -> (r: Option<usize>)
    ensures
        match r {
            Some(k) => k <= cs@.len() && byte_offset(cs@, k as int) == b && k
                == crate::spell::char_index(cs@, b as int),
            None => !crate::spell::on_boundary(cs@, b as int),
        },
{
    let ghost s = cs@;
    let n = cs.len();
    let mut k: usize = 0;
    let mut off: usize = 0;
    proof {
        assert(s.take(0) =~= Seq::<char>::empty());
        assert(vstd::utf8::encode_utf8(Seq::<char>::empty()) =~= Seq::<u8>::empty());
    }
    while off < b && k < n
        invariant
            s == cs@,
            n == s.len(),
            k <= n,
            off == byte_offset(s, k as int),
            off <= b,
            forall|t: int| 0 <= t < k ==> byte_offset(s, t) < b,
        decreases n - k,
    {
        proof {
            crate::text::lemma_byte_offset_step(s, k as int);
        }
        let w = crate::text::utf8_width(cs[k]);
        if w > b - off {
            // The next character straddles `b`.
            assert forall|t: int| 0 <= t <= s.len() implies byte_offset(s, t) != b by {
                if t > k {
                    crate::text::lemma_byte_offset_mono(s, k + 1, t);
                }
            }
            return None;
        }
        off = off + w;
        k = k + 1;
    }
    if off == b {
        proof {
            assert forall|t: int| 0 <= t <= s.len() && byte_offset(s, t) == b implies t == k by {
                if t < k {
                } else if t > k {
                    crate::text::lemma_byte_offset_mono(s, k as int + 1, t);
                    crate::text::lemma_byte_offset_step(s, k as int);
                }
            }
        }
        Some(k)
    } else {
        // The whole line ends before `b`.
        assert forall|t: int| 0 <= t <= s.len() implies byte_offset(s, t) != b by {
            if t < k {
            } else {
                assert(t == k);
            }
        }
        None
    }
}

fn push_range(out: &mut Vec<char>, cs: &Vec<char>, lo: usize, hi: usize)
    requires
        lo <= hi <= cs@.len(),
    ensures
        final(out)@ == old(out)@ + cs@.subrange(lo as int, hi as int),
{
    let ghost base = out@;
    let mut k = lo;
    while k < hi
        invariant
            lo <= k <= hi <= cs@.len(),
            out@ == base + cs@.subrange(lo as int, k as int),
        decreases hi - k,
    {
        out.push(cs[k]);
        k = k + 1;
        assert(out@ =~= base + cs@.subrange(lo as int, k as int));
    }
}

/// The text between positions `start` and `end`, lines joined with `'\n'`;
/// `None` when a position is outside the buffer or inside a character, or
/// `end` comes before `start`.
pub fn slice(lines: &[String], start: Pos, end: Pos) -> (r: Option<String>)
    ensures
        match r {
            Some(t) => slice_of(lines@, start, end) == Some(t@),
            None => slice_of(lines@, start, end) is None,
        },
{
    let n = lines.len();
    if start.0 >= n || end.0 >= n {
        return None;
    }
    let la = chars_of(lines[start.0].as_str());
    let lb = chars_of(lines[end.0].as_str());
    let ka = match char_index_checked(la.as_slice(), start.1) {
        Some(k) => k,
        None => return None,
    };
    let kb = match char_index_checked(lb.as_slice(), end.1) {
        Some(k) => k,
        None => return None,
    };
    let mut out: Vec<char> = Vec::new();
    if start.0 == end.0 {
        if ka > kb {
            return None;
        }
        push_range(&mut out, &la, ka, kb);
        return Some(string_from_chars(out.as_slice()));
    }
    if start.0 > end.0 {
        return None;
    }
    push_range(&mut out, &la, ka, la.len());
    out.push('\n');
    let ghost ls = line_chars(lines@);
    let ghost head = out@;
    let mut i = start.0 + 1;
    assert(lines_with_nl(ls, i as int, i as int) =~= Seq::<char>::empty());
    while i < end.0
        invariant
            start.0 < i <= end.0 < lines@.len(),
            ls == line_chars(lines@),
            out@ == head + lines_with_nl(ls, start.0 + 1, i as int),
        decreases end.0 - i,
    {
        let cs = chars_of(lines[i].as_str());
        let ghost before = out@;
        push_range(&mut out, &cs, 0, cs.len());
        out.push('\n');
        proof {
            lemma_lines_with_nl_snoc(ls, start.0 + 1, i as int);
            assert(cs@.subrange(0, cs@.len() as int) =~= cs@);
        }
        assert(out@ =~= head + lines_with_nl(ls, start.0 + 1, i + 1));
        i = i + 1;
    }
    push_range(&mut out, &lb, 0, kb);
    assert(la@.subrange(ka as int, la@.len() as int) =~= la@.skip(ka as int));
    assert(lb@.subrange(0, kb as int) =~= lb@.take(kb as int));
    assert(out@ =~= la@.skip(ka as int) + seq!['\n'] + lines_with_nl(ls, start.0 + 1, end.0 as int)
        + lb@.take(kb as int));
    Some(string_from_chars(out.as_slice()))
}

proof fn lemma_lines_with_nl_snoc(ls: Seq<Seq<char>>, i: int, j: int)
    requires
        i <= j,
    ensures
        lines_with_nl(ls, i, j + 1) == lines_with_nl(ls, i, j) + ls[j] + seq!['\n'],
    decreases j - i,
{
    if i < j {
        lemma_lines_with_nl_snoc(ls, i + 1, j);
        assert(lines_with_nl(ls, i, j + 1) =~= ls[i] + seq!['\n'] + lines_with_nl(ls, i + 1, j + 1));
    } else {
        assert(lines_with_nl(ls, j + 1, j + 1) =~= Seq::<char>::empty());
        assert(lines_with_nl(ls, i, j) =~= Seq::<char>::empty());
    }
}

impl TextSelection {
    /// Capture the selection of document `document`: the selected text (as
    /// the editor reports it) with line endings normalized, located in the
    /// buffer. `None` without a selection, for an empty one, or when the text
    /// cannot be located.
    pub fn capture(
        document: DocId,
        lines: &[String],
        cursor: EditorCursor,
        selected: Option<&str>,
    ) -> (r: Option<Self>)
        requires
            absolute(lines@, cursor.position) <= usize::MAX,
            cursor.selection matches Some(anchor) ==> absolute(lines@, anchor) <= usize::MAX,
        ensures
            match selected {
                None => r is None,
                Some(t) => {
                    let snap = normalized(t@);
                    if snap.len() == 0 {
                        r is None
                    } else {
                        match span_of(lines@, cursor, snap) {
                            None => r is None,
                            Some((a, b)) => r matches Some(sel) && sel.spec_document() == document
                                && (sel.spec_start().0 as int, sel.spec_start().1 as int) == a && (
                            sel.spec_end().0 as int, sel.spec_end().1 as int) == b
                                && sel.spec_text() == snap,
                        }
                    }
                },
            },
    {
        let text = match selected {
            None => return None,
            Some(t) => t,
        };
        let raw = chars_of(text);
        let norm = normalize_newlines(raw.as_slice());
        if norm.len() == 0 {
            return None;
        }
        let snapshot = string_from_chars(norm.as_slice());
        match selection_span(lines, cursor, snapshot.as_str()) {
            None => None,
            Some((start, end)) => Some(TextSelection { document, start, end, snapshot }),
        }
    }

    /// The selection still holds the captured text at the captured span.
    pub fn is_current(&self, lines: &[String]) -> (r: bool)
        ensures
            r == (slice_of(lines@, self.spec_start(), self.spec_end()) == Some(self.spec_text())),
    {
        match slice(lines, self.start, self.end) {
            None => false,
            Some(t) => crate::strings::str_eq(t.as_str(), self.snapshot.as_str()),
        }
    }
}

} // verus!
