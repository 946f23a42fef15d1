//! Paragraph and sentence boundaries over a buffer held as lines.
//!
//! A position is `(line, column)` where the column is a **byte** offset into
//! the line's UTF-8 encoding. Lines are modelled by their characters; the
//! byte offset of character index `k` is the length of the UTF-8 encoding of
//! the first `k` characters.

use vstd::prelude::*;
use vstd::utf8::*;

verus! {

broadcast use vstd::utf8::char_is_scalar;

/// A `(line, byte column)` position in a buffer.
pub type Pos = (usize, usize);

// ---------------------------------------------------------------------------
// Characters and UTF-8 widths
// ---------------------------------------------------------------------------

/// Unicode `White_Space`: the characters `char::is_whitespace` accepts.
pub open spec fn is_ws(c: char) -> bool {
    let u = c as u32;
    ||| 0x09 <= u <= 0x0d
    ||| u == 0x20
    ||| u == 0x85
    ||| u == 0xa0
    ||| u == 0x1680
    ||| 0x2000 <= u <= 0x200a
    ||| u == 0x2028
    ||| u == 0x2029
    ||| u == 0x202f
    ||| u == 0x205f
    ||| u == 0x3000
}

/// Whether `c` has the Unicode `White_Space` property.
pub fn is_whitespace(c: char) -> (b: bool)
    ensures
        b == is_ws(c),
{
    let u = c as u32;
    (0x09 <= u && u <= 0x0d) || u == 0x20 || u == 0x85 || u == 0xa0 || u == 0x1680 || (0x2000
        <= u && u <= 0x200a) || u == 0x2028 || u == 0x2029 || u == 0x202f || u == 0x205f || u
        == 0x3000
}

/// The characters of `s`, in order.
pub fn chars_of(s: &str) -> (v: Vec<char>)
    ensures
        v@ == s@,
{
    let mut v: Vec<char> = Vec::new();
    for c in it: s.chars()
        invariant
            it.seq() == s@,
            v@ == it.seq().take(it.index() as int),
    {
        v.push(c);
    }
    v
}

/// Number of bytes in the UTF-8 encoding of `s`.
pub open spec fn byte_len(s: Seq<char>) -> nat {
    encode_utf8(s).len()
}

/// Byte offset of character index `k` within `s`.
pub open spec fn byte_offset(s: Seq<char>, k: int) -> nat {
    byte_len(s.take(k))
}

/// Number of bytes `c` takes in UTF-8.
pub open spec fn char_width(c: char) -> nat {
    encode_scalar(c as u32).len()
}

pub proof fn lemma_encode_concat(a: Seq<char>, b: Seq<char>)
    ensures
        encode_utf8(a + b) == encode_utf8(a) + encode_utf8(b),
    decreases a.len(),
{
    if a.len() == 0 {
        assert(a + b =~= b);
        assert(encode_utf8(a) =~= Seq::<u8>::empty());
        assert(encode_utf8(a) + encode_utf8(b) =~= encode_utf8(b));
    } else {
        lemma_encode_concat(a.drop_first(), b);
        assert((a + b).drop_first() =~= a.drop_first() + b);
        assert(encode_utf8(a + b) =~= encode_scalar(a[0] as u32) + encode_utf8(a.drop_first() + b));
    }
}

pub proof fn lemma_byte_offset_step(s: Seq<char>, k: int)
    requires
        0 <= k < s.len(),
    ensures
        byte_offset(s, k + 1) == byte_offset(s, k) + char_width(s[k]),
        char_width(s[k]) >= 1,
{
    lemma_encode_concat(s.take(k), seq![s[k]]);
    assert(s.take(k + 1) =~= s.take(k) + seq![s[k]]);
    assert(seq![s[k]].drop_first() =~= Seq::<char>::empty());
    assert(encode_utf8(seq![s[k]]) =~= encode_scalar(s[k] as u32) + encode_utf8(Seq::<char>::empty()));
}

pub proof fn lemma_byte_offset_mono(s: Seq<char>, j: int, k: int)
    requires
        0 <= j <= k <= s.len(),
    ensures
        byte_offset(s, j) + (k - j) <= byte_offset(s, k),
    decreases k - j,
{
    if j < k {
        lemma_byte_offset_mono(s, j, k - 1);
        lemma_byte_offset_step(s, k - 1);
    }
}

pub proof fn lemma_byte_offset_full(s: Seq<char>)
    ensures
        byte_offset(s, s.len() as int) == byte_len(s),
{
    assert(s.take(s.len() as int) =~= s);
}

/// Number of bytes `c` takes in UTF-8 (`char::len_utf8`).
pub fn utf8_width(c: char) -> (w: usize)
    ensures
        w == char_width(c),
        1 <= w <= 4,
{
    let u = c as u32;
    if u < 0x80 {
        1
    } else if u < 0x800 {
        2
    } else if u < 0x10000 {
        3
    } else {
        4
    }
}

/// The byte length of `s`, which always fits in a `usize`.
pub fn str_byte_len(s: &str) -> (n: usize)
    ensures
        n == byte_len(s@),
{
    let b = s.as_bytes();
    b.len()
}

// ---------------------------------------------------------------------------
// Paragraphs
// ---------------------------------------------------------------------------

/// A line holding only whitespace (or nothing).
pub open spec fn blank(s: Seq<char>) -> bool {
    forall|i: int| 0 <= i < s.len() ==> is_ws(#[trigger] s[i])
}

/// Line `i` of `ls` is blank.
pub open spec fn line_blank(ls: Seq<String>, i: int) -> bool {
    blank(ls[i]@)
}

/// Line `i` begins a paragraph: it holds text and follows a blank line or
/// the start of the buffer.
pub open spec fn is_par_start(ls: Seq<String>, i: int) -> bool {
    &&& 0 <= i < ls.len()
    &&& !line_blank(ls, i)
    &&& (i == 0 || line_blank(ls, i - 1))
}

/// `(s, e)` is a paragraph of `ls`: a maximal run of non-blank lines.
pub open spec fn is_paragraph(ls: Seq<String>, s: int, e: int) -> bool {
    &&& 0 <= s <= e < ls.len()
    &&& forall|j: int| s <= j <= e ==> !line_blank(ls, j)
    &&& (s == 0 || line_blank(ls, s - 1))
    &&& (e + 1 == ls.len() || line_blank(ls, e + 1))
}

/// `r` lists every paragraph of `ls`, in buffer order.
pub open spec fn paragraph_list(ls: Seq<String>, r: Seq<(usize, usize)>) -> bool {
    &&& forall|k: int| 0 <= k < r.len() ==> is_paragraph(ls, #[trigger] r[k].0 as int, r[k].1 as int)
    &&& forall|k1: int, k2: int|
        0 <= k1 < k2 < r.len() ==> (#[trigger] r[k1]).1 < (#[trigger] r[k2]).0
    &&& forall|j: int|
        0 <= j < ls.len() && !line_blank(ls, j) ==> exists|k: int|
            0 <= k < r.len() && (#[trigger] r[k]).0 <= j <= r[k].1
}

/// Whether `line` holds only whitespace.
pub fn is_blank(line: &str) -> (b: bool)
    ensures
        b == blank(line@),
{
    let cs = chars_of(line);
    let mut i: usize = 0;
    while i < cs.len()
        invariant
            cs@ == line@,
            i <= cs.len(),
            forall|k: int| 0 <= k < i ==> is_ws(#[trigger] cs@[k]),
        decreases cs.len() - i,
    {
        if !is_whitespace(cs[i]) {
            return false;
        }
        i = i + 1;
    }
    true
}

fn blank_flags(lines: &[String]) -> (v: Vec<bool>)
    ensures
        v@.len() == lines@.len(),
        forall|i: int| 0 <= i < lines@.len() ==> #[trigger] v@[i] == line_blank(lines@, i),
{
    let mut v: Vec<bool> = Vec::new();
    let mut i: usize = 0;
    while i < lines.len()
        invariant
            i <= lines@.len(),
            v@.len() == i,
            forall|k: int| 0 <= k < i ==> #[trigger] v@[k] == line_blank(lines@, k),
        decreases lines@.len() - i,
    {
        let b = is_blank(lines[i].as_str());
        v.push(b);
        i = i + 1;
    }
    v
}

/// Inclusive `(start_line, end_line)` ranges of non-blank runs.
pub fn paragraphs(lines: &[String]) -> (out: Vec<(usize, usize)>)
    ensures
        paragraph_list(lines@, out@),
{
    let flags = blank_flags(lines);
    let n = lines.len();
    let mut out: Vec<(usize, usize)> = Vec::new();
    let mut start: Option<usize> = None;
    let mut i: usize = 0;
    while i < n
        invariant
            n == lines@.len(),
            flags@.len() == n,
            forall|k: int| 0 <= k < n ==> #[trigger] flags@[k] == line_blank(lines@, k),
            i <= n,
            forall|k: int|
                0 <= k < out@.len() ==> is_paragraph(lines@, #[trigger] out@[k].0 as int, out@[k].1 as int),
            forall|k: int| 0 <= k < out@.len() ==> (#[trigger] out@[k]).1 < i,
            forall|k1: int, k2: int|
                0 <= k1 < k2 < out@.len() ==> (#[trigger] out@[k1]).1 < (#[trigger] out@[k2]).0,
            match start {
                Some(s) => {
                    &&& s < i
                    &&& forall|j: int| s <= j < i ==> !line_blank(lines@, j)
                    &&& (s == 0 || line_blank(lines@, s - 1))
                    &&& forall|k: int| 0 <= k < out@.len() ==> (#[trigger] out@[k]).1 < s
                },
                None => i == 0 || line_blank(lines@, i - 1),
            },
            forall|j: int|
                0 <= j < i && !line_blank(lines@, j) && (match start {
                    Some(s) => j < s,
                    None => true,
                }) ==> exists|k: int| 0 <= k < out@.len() && (#[trigger] out@[k]).0 <= j <= out@[k].1,
        decreases n - i,
    {
        let b = flags[i];
        match start {
            None => {
                if !b {
                    start = Some(i);
                }
            },
            Some(s) => {
                if b {
                    let ghost old_out = out@;
                    out.push((s, i - 1));
                    assert forall|j: int|
                        0 <= j < i + 1 && !line_blank(lines@, j) implies exists|k: int|
                        0 <= k < out@.len() && (#[trigger] out@[k]).0 <= j <= out@[k].1 by {
                        if j >= s {
                            assert(out@[out@.len() - 1].0 <= j <= out@[out@.len() - 1].1);
                        } else {
                            let k = choose|k: int|
                                0 <= k < old_out.len() && (#[trigger] old_out[k]).0 <= j <= old_out[k].1;
                            assert(out@[k] == old_out[k]);
                        }
                    }
                    start = None;
                }
            },
        }
        i = i + 1;
    }
    if let Some(s) = start {
        let ghost old_out = out@;
        out.push((s, n - 1));
        assert forall|j: int|
            0 <= j < n && !line_blank(lines@, j) implies exists|k: int|
            0 <= k < out@.len() && (#[trigger] out@[k]).0 <= j <= out@[k].1 by {
            if j >= s {
                assert(out@[out@.len() - 1].0 <= j <= out@[out@.len() - 1].1);
            } else {
                let k = choose|k: int|
                    0 <= k < old_out.len() && (#[trigger] old_out[k]).0 <= j <= old_out[k].1;
                assert(out@[k] == old_out[k]);
            }
        }
    }
    out
}

/// How many paragraphs begin before line `k`.
pub open spec fn starts_before(ls: Seq<String>, k: int) -> nat
    decreases k,
{
    if k <= 0 {
        0
    } else {
        starts_before(ls, k - 1) + if is_par_start(ls, k - 1) {
            1nat
        } else {
            0nat
        }
    }
}

/// The status bar's paragraph counter for the caret on `line`: the 1-based
/// number of its paragraph (0 on a blank line or past the end) and the
/// number of paragraphs.
pub open spec fn paragraph_counter(ls: Seq<String>, line: int) -> (int, int) {
    (
        if 0 <= line < ls.len() && !line_blank(ls, line) {
            starts_before(ls, line + 1) as int
        } else {
            0
        },
        starts_before(ls, ls.len() as int) as int,
    )
}

/// The paragraph counter (see [`paragraph_counter`]).
pub fn paragraph_info(lines: &[String], line: usize) -> (r: (usize, usize))
    ensures
        (r.0 as int, r.1 as int) == paragraph_counter(lines@, line as int),
{
    let n = lines.len();
    let mut total: usize = 0;
    let mut current: usize = 0;
    let mut in_paragraph = false;
    let mut i: usize = 0;
    while i < n
        invariant
            n == lines@.len(),
            i <= n,
            total as int == starts_before(lines@, i as int),
            total <= i,
            in_paragraph == (i > 0 && !line_blank(lines@, i - 1)),
            current as int == (if line < i && !line_blank(lines@, line as int) {
                starts_before(lines@, line + 1) as int
            } else {
                0
            }),
        decreases n - i,
    {
        let blank_line = is_blank(lines[i].as_str());
        if !blank_line && !in_paragraph {
            total = total + 1;
        }
        in_paragraph = !blank_line;
        if i == line && in_paragraph {
            current = total;
        }
        i = i + 1;
    }
    (current, total)
}

/// First line of the run of non-blank lines that ends at line `i`.
pub open spec fn run_start(ls: Seq<String>, i: int) -> int
    decreases i,
{
    if i > 0 && !line_blank(ls, i - 1) {
        run_start(ls, i - 1)
    } else {
        i
    }
}

/// Last line of the run of non-blank lines that begins at line `i`.
pub open spec fn run_end(ls: Seq<String>, i: int) -> int
    decreases ls.len() - i,
{
    if i + 1 < ls.len() && !line_blank(ls, i + 1) {
        run_end(ls, i + 1)
    } else {
        i
    }
}

/// The paragraph holding `line`, or `(line, line)` when it is blank or past
/// the end of the buffer.
pub open spec fn active_range(ls: Seq<String>, line: int) -> (int, int) {
    if 0 <= line < ls.len() && !line_blank(ls, line) {
        (run_start(ls, line), run_end(ls, line))
    } else {
        (line, line)
    }
}

proof fn lemma_run_start(ls: Seq<String>, i: int)
    requires
        0 <= i < ls.len(),
        !line_blank(ls, i),
    ensures
        0 <= run_start(ls, i) <= i,
        forall|j: int| run_start(ls, i) <= j <= i ==> !line_blank(ls, j),
        run_start(ls, i) == 0 || line_blank(ls, run_start(ls, i) - 1),
    decreases i,
{
    if i > 0 && !line_blank(ls, i - 1) {
        lemma_run_start(ls, i - 1);
    }
}

proof fn lemma_run_end(ls: Seq<String>, i: int)
    requires
        0 <= i < ls.len(),
        !line_blank(ls, i),
    ensures
        i <= run_end(ls, i) < ls.len(),
        forall|j: int| i <= j <= run_end(ls, i) ==> !line_blank(ls, j),
        run_end(ls, i) + 1 == ls.len() || line_blank(ls, run_end(ls, i) + 1),
    decreases ls.len() - i,
{
    if i + 1 < ls.len() && !line_blank(ls, i + 1) {
        lemma_run_end(ls, i + 1);
    }
}

/// The paragraph containing `line`, or `(line, line)` if it is blank.
pub fn active_paragraph(lines: &[String], line: usize) -> (r: (usize, usize))
    ensures
        r.0 as int == active_range(lines@, line as int).0,
        r.1 as int == active_range(lines@, line as int).1,
        line < lines@.len() && !line_blank(lines@, line as int) ==> {
            &&& is_paragraph(lines@, r.0 as int, r.1 as int)
            &&& r.0 <= line <= r.1
        },
{
    let n = lines.len();
    if line >= n || is_blank(lines[line].as_str()) {
        return (line, line);
    }
    let mut start = line;
    while start > 0 && !is_blank(lines[start - 1].as_str())
        invariant
            n == lines@.len(),
            start <= line < n,
            run_start(lines@, start as int) == run_start(lines@, line as int),
        decreases start,
    {
        start = start - 1;
    }
    let mut end = line;
    while end + 1 < n && !is_blank(lines[end + 1].as_str())
        invariant
            n == lines@.len(),
            line <= end < n,
            run_end(lines@, end as int) == run_end(lines@, line as int),
        decreases n - end,
    {
        end = end + 1;
    }
    proof {
        lemma_run_start(lines@, line as int);
        lemma_run_end(lines@, line as int);
    }
    (start, end)
}

/// First line of the next paragraph after the one containing `line`.
pub fn next_paragraph_start(lines: &[String], line: usize) -> (r: Option<usize>)
    ensures
        match r {
            Some(s) => {
                &&& line < s
                &&& is_par_start(lines@, s as int)
                &&& forall|j: int| line < j < s ==> !is_par_start(lines@, j)
            },
            None => forall|j: int| line < j < lines@.len() ==> !is_par_start(lines@, j),
        },
{
    let n = lines.len();
    if line >= n {
        return None;
    }
    let mut prev_blank = is_blank(lines[line].as_str());
    let mut j = line + 1;
    while j < n
        invariant
            n == lines@.len(),
            line < j <= n,
            prev_blank == line_blank(lines@, j - 1),
            forall|k: int| line < k < j ==> !is_par_start(lines@, k),
        decreases n - j,
    {
        let b = is_blank(lines[j].as_str());
        if !b && prev_blank {
            return Some(j);
        }
        prev_blank = b;
        j = j + 1;
    }
    None
}

/// First line of the previous paragraph before the one containing `line`.
pub fn prev_paragraph_start(lines: &[String], line: usize) -> (r: Option<usize>)
    ensures
        match r {
            Some(s) => {
                &&& s < active_range(lines@, line as int).0
                &&& is_par_start(lines@, s as int)
                &&& forall|j: int|
                    s < j < active_range(lines@, line as int).0 ==> !is_par_start(lines@, j)
            },
            None => forall|j: int|
                0 <= j < active_range(lines@, line as int).0 ==> !is_par_start(lines@, j),
        },
{
    let current = active_paragraph(lines, line).0;
    let n = lines.len();
    let mut j = if current < n { current } else { n };
    // Lines at or past the end of the buffer hold no paragraph start.
    while j > 0
        invariant
            n == lines@.len(),
            j <= n,
            j <= current,
            current as int == active_range(lines@, line as int).0,
            forall|k: int| j <= k < current ==> !is_par_start(lines@, k),
        decreases j,
    {
        let k = j - 1;
        if !is_blank(lines[k].as_str()) && (k == 0 || is_blank(lines[k - 1].as_str())) {
            return Some(k);
        }
        j = k;
    }
    None
}

// ---------------------------------------------------------------------------
// Sentences
// ---------------------------------------------------------------------------

/// `.`, `?` and `!` end a sentence.
pub open spec fn is_term(c: char) -> bool {
    c == '.' || c == '?' || c == '!'
}

/// The first `m` characters of line `li` (holding `s`), each with its
/// position.
pub open spec fn line_entries(s: Seq<char>, li: int, m: int) -> Seq<((int, int), char)> {
    Seq::new(m as nat, |k: int| ((li, byte_offset(s, k) as int), s[k]))
}

/// From character `k` on, how far the characters of `s` that start before
/// byte column `col` reach.
pub open spec fn count_from(s: Seq<char>, col: int, k: int) -> int
    decreases s.len() - k,
{
    if 0 <= k < s.len() && byte_offset(s, k) < col {
        count_from(s, col, k + 1)
    } else {
        k
    }
}

/// How many characters of `s` start before byte column `col`.
pub open spec fn chars_before(s: Seq<char>, col: int) -> int {
    count_from(s, col, 0)
}

/// The characters of lines `a..=cl` up to the cursor column `cc` on line
/// `cl`, with a `'\n'` closing each line before `cl`.
pub open spec fn scan_entries(ls: Seq<String>, a: int, cl: int, cc: int) -> Seq<((int, int), char)>
    decreases cl - a,
{
    if a < cl {
        line_entries(ls[a]@, a, ls[a]@.len() as int) + seq![((a, byte_len(ls[a]@) as int), '\n')]
            + scan_entries(ls, a + 1, cl, cc)
    } else {
        line_entries(ls[cl]@, cl, chars_before(ls[cl]@, cc))
    }
}

/// Everything of the cursor's paragraph that lies before the cursor.
pub open spec fn sentence_entries(ls: Seq<String>, cursor: (int, int)) -> Seq<((int, int), char)> {
    if 0 <= cursor.0 < ls.len() {
        scan_entries(ls, active_range(ls, cursor.0).0, cursor.0, cursor.1)
    } else {
        Seq::empty()
    }
}

/// Walk back from `i` over whitespace.
pub open spec fn back_ws(e: Seq<((int, int), char)>, i: int) -> int
    decreases i,
{
    if 0 < i <= e.len() && is_ws(e[i - 1].1) {
        back_ws(e, i - 1)
    } else {
        i
    }
}

/// Walk back from `i` over sentence terminators.
pub open spec fn back_term(e: Seq<((int, int), char)>, i: int) -> int
    decreases i,
{
    if 0 < i <= e.len() && is_term(e[i - 1].1) {
        back_term(e, i - 1)
    } else {
        i
    }
}

/// Walk back from `i` to just after the previous terminator (or the start).
pub open spec fn back_to_term(e: Seq<((int, int), char)>, i: int) -> int
    decreases i,
{
    if 0 < i <= e.len() && !is_term(e[i - 1].1) {
        back_to_term(e, i - 1)
    } else {
        i
    }
}

/// Walk forward from `i` over whitespace.
pub open spec fn fwd_ws(e: Seq<((int, int), char)>, i: int) -> int
    decreases e.len() - i,
{
    if 0 <= i < e.len() && is_ws(e[i].1) {
        fwd_ws(e, i + 1)
    } else {
        i
    }
}

/// Where the sentence before `cursor` begins: skip trailing whitespace and
/// the terminators just before the cursor, walk back to the previous
/// terminator, then past the whitespace after it. When only whitespace is
/// left, that whitespace is the target; with nothing before the cursor there
/// is none.
pub open spec fn sentence_start(ls: Seq<String>, cursor: (int, int)) -> Option<(int, int)> {
    let e = sentence_entries(ls, cursor);
    let i = back_to_term(e, back_term(e, back_ws(e, e.len() as int)));
    let st = fwd_ws(e, i);
    if st < e.len() {
        Some(e[st].0)
    } else if i < e.len() {
        Some(e[i].0)
    } else {
        None
    }
}

/// The shape of what SHIFT+BACKSPACE deletes. Of the paragraph text before
/// the cursor (its entries `e`), the walk leaves white space `[a, end)`
/// after terminators `[b, a)` after non-terminators `[c, b)`, where `c` is
/// the paragraph start or just after a terminator; the sentence starts past
/// the white space `[c, st)`. The deleted span runs from that start (or from
/// `c`, when only white space follows it) to the cursor.
pub proof fn lemma_sentence_span_shape(ls: Seq<String>, cursor: (int, int))
    ensures
        ({
            let e = sentence_entries(ls, cursor);
            let a = back_ws(e, e.len() as int);
            let b = back_term(e, a);
            let c = back_to_term(e, b);
            let st = fwd_ws(e, c);
            &&& 0 <= c <= b <= a <= e.len()
            &&& c <= st <= e.len()
            &&& forall|k: int| a <= k < e.len() ==> is_ws(#[trigger] e[k].1)
            &&& forall|k: int| b <= k < a ==> is_term(#[trigger] e[k].1)
            &&& forall|k: int| c <= k < b ==> !is_term(#[trigger] e[k].1)
            &&& forall|k: int| c <= k < st ==> is_ws(#[trigger] e[k].1)
            &&& (c == 0 || is_term(e[c - 1].1))
            &&& sentence_start(ls, cursor) == if st < e.len() {
                Some(e[st].0)
            } else if c < e.len() {
                Some(e[c].0)
            } else {
                None::<(int, int)>
            }
        }),
{
    let e = sentence_entries(ls, cursor);
    lemma_back_ws(e, e.len() as int);
    let a = back_ws(e, e.len() as int);
    lemma_back_term(e, a);
    let b = back_term(e, a);
    lemma_back_to_term(e, b);
    let c = back_to_term(e, b);
    lemma_fwd_ws(e, c);
}

/// Stepping back a paragraph from the first line `s` of a paragraph, to `p`
/// (as `prev_paragraph_start` says), and then forward again (as
/// `next_paragraph_start` says) lands on `s`: the forward step finds a start,
/// and it is `s`.
pub proof fn law_prev_then_next_paragraph(ls: Seq<String>, s: int, p: int)
    requires
        is_par_start(ls, s),
        p < active_range(ls, s).0,
        is_par_start(ls, p),
        forall|j: int| p < j < active_range(ls, s).0 ==> !is_par_start(ls, j),
    ensures
        !(forall|j: int| p < j < ls.len() ==> !is_par_start(ls, j)),
        forall|n: int|
            p < n && is_par_start(ls, n) && (forall|j: int| p < j < n ==> !is_par_start(ls, j)) ==> n == s,
{
    assert(active_range(ls, s).0 == s);
    assert(p < s < ls.len() && is_par_start(ls, s));
    assert forall|n: int|
        p < n && is_par_start(ls, n) && (forall|j: int| p < j < n ==> !is_par_start(ls, j)) implies n == s by {
        if n < s {
            assert(!is_par_start(ls, n));
        } else if n > s {
            assert(!is_par_start(ls, s));
        }
    }
}

/// Each of `.`, `?` and `!` ends a sentence: the text SHIFT+BACKSPACE
/// deletes (the entries from the start it finds to the cursor) holds one
/// of them only in the run of terminators and white space that ends at the
/// cursor. Whatever follows such a character in the span is white space or
/// another terminator.
pub proof fn law_sentence_stops_at_every_terminator(ls: Seq<String>, cursor: (int, int))
    ensures
        ({
            let e = sentence_entries(ls, cursor);
            sentence_start(ls, cursor) matches Some(p) ==> exists|st: int|
                #![trigger e[st]]
                0 <= st < e.len() && e[st].0 == p && forall|k: int, m: int|
                    #![trigger e[k], e[m]]
                    st <= k < m < e.len() && (e[k].1 == '.' || e[k].1 == '?' || e[k].1 == '!') ==> (is_ws(
                        e[m].1,
                    ) || e[m].1 == '.' || e[m].1 == '?' || e[m].1 == '!')
        }),
{
    lemma_sentence_span_shape(ls, cursor);
    let e = sentence_entries(ls, cursor);
    let a = back_ws(e, e.len() as int);
    let b = back_term(e, a);
    let c = back_to_term(e, b);
    let st = fwd_ws(e, c);
    if st < e.len() {
        assert forall|k: int, m: int|
            #![trigger e[k], e[m]]
            st <= k < m < e.len() && (e[k].1 == '.' || e[k].1 == '?' || e[k].1 == '!') implies (is_ws(
                e[m].1,
            ) || e[m].1 == '.' || e[m].1 == '?' || e[m].1 == '!') by {
            assert(is_term(e[k].1));
            if k < b {
                assert(!is_term(e[k].1));
            }
            if m < a {
                assert(is_term(e[m].1));
            } else {
                assert(is_ws(e[m].1));
            }
        }
    } else if c < e.len() {
        assert forall|k: int, m: int|
            #![trigger e[k], e[m]]
            c <= k < m < e.len() && (e[k].1 == '.' || e[k].1 == '?' || e[k].1 == '!') implies (is_ws(
                e[m].1,
            ) || e[m].1 == '.' || e[m].1 == '?' || e[m].1 == '!') by {
            assert(is_ws(e[k].1));
        }
    }
}

/// SHIFT+BACKSPACE finds no sentence exactly when nothing of the cursor's
/// paragraph lies before the cursor.
pub proof fn law_no_sentence_only_at_paragraph_start(ls: Seq<String>, cursor: (int, int))
    ensures
        sentence_start(ls, cursor) is None <==> sentence_entries(ls, cursor).len() == 0,
{
    lemma_sentence_span_shape(ls, cursor);
    let e = sentence_entries(ls, cursor);
    if e.len() > 0 {
        let n = e.len() as int;
        if is_ws(e[n - 1].1) {
            lemma_back_ws(e, n - 1);
            assert(back_ws(e, n) < n);
        } else if is_term(e[n - 1].1) {
            assert(back_ws(e, n) == n);
            lemma_back_term(e, n - 1);
            assert(back_term(e, n) < n);
        } else {
            assert(back_ws(e, n) == n);
            assert(back_term(e, n) == n);
            lemma_back_to_term(e, n - 1);
            assert(back_to_term(e, n) < n);
        }
    }
}

/// The positions of an entry list, as integers.
pub open spec fn entry_view(v: Seq<(Pos, char)>) -> Seq<((int, int), char)> {
    v.map_values(|x: (Pos, char)| ((x.0.0 as int, x.0.1 as int), x.1))
}

proof fn lemma_count_from_full(s: Seq<char>, k: int)
    requires
        0 <= k <= s.len(),
    ensures
        count_from(s, byte_len(s) as int, k) == s.len(),
    decreases s.len() - k,
{
    if k < s.len() {
        lemma_byte_offset_mono(s, k, s.len() as int);
        lemma_byte_offset_full(s);
        lemma_count_from_full(s, k + 1);
    }
}

/// Append the characters of `line` starting before byte column `end`, each
/// tagged with its position on line `li`.
fn push_line_entries(out: &mut Vec<(Pos, char)>, line: &str, li: usize, end: usize)
    ensures
        entry_view(final(out)@) == entry_view(old(out)@) + line_entries(
            line@,
            li as int,
            chars_before(line@, end as int),
        ),
{
    let cs = chars_of(line);
    let total = str_byte_len(line);
    let ghost s = line@;
    let ghost base = entry_view(out@);
    let mut col: usize = 0;
    let mut k: usize = 0;
    proof {
        assert(s.take(0) =~= Seq::<char>::empty());
        assert(encode_utf8(Seq::<char>::empty()) =~= Seq::<u8>::empty());
        lemma_byte_offset_full(s);
    }
    while k < cs.len()
        invariant
            cs@ == s,
            total == byte_len(s),
            byte_offset(s, s.len() as int) == byte_len(s),
            k <= cs.len(),
            col == byte_offset(s, k as int),
            count_from(s, end as int, k as int) == chars_before(s, end as int),
            entry_view(out@) == base + line_entries(s, li as int, k as int),
        ensures
            k == chars_before(s, end as int),
            entry_view(out@) == base + line_entries(s, li as int, k as int),
        decreases cs.len() - k,
    {
        if col >= end {
            break;
        }
        let c = cs[k];
        proof {
            lemma_byte_offset_step(s, k as int);
            lemma_byte_offset_mono(s, k as int + 1, s.len() as int);
        }
        let ghost old_out = out@;
        out.push(((li, col), c));
        assert(entry_view(out@) =~= entry_view(old_out).push(((li as int, col as int), c)));
        let w = utf8_width(c);
        col = col + w;
        k = k + 1;
        assert(entry_view(out@) =~= base + line_entries(s, li as int, k as int));
    }
}

proof fn lemma_back_ws(e: Seq<((int, int), char)>, i: int)
    requires
        0 <= i <= e.len(),
    ensures
        0 <= back_ws(e, i) <= i,
        forall|k: int| back_ws(e, i) <= k < i ==> is_ws(#[trigger] e[k].1),
    decreases i,
{
    if 0 < i && is_ws(e[i - 1].1) {
        lemma_back_ws(e, i - 1);
    }
}

proof fn lemma_back_term(e: Seq<((int, int), char)>, i: int)
    requires
        0 <= i <= e.len(),
    ensures
        0 <= back_term(e, i) <= i,
        forall|k: int| back_term(e, i) <= k < i ==> is_term(#[trigger] e[k].1),
    decreases i,
{
    if 0 < i && is_term(e[i - 1].1) {
        lemma_back_term(e, i - 1);
    }
}

proof fn lemma_back_to_term(e: Seq<((int, int), char)>, i: int)
    requires
        0 <= i <= e.len(),
    ensures
        0 <= back_to_term(e, i) <= i,
        forall|k: int| back_to_term(e, i) <= k < i ==> !is_term(#[trigger] e[k].1),
        back_to_term(e, i) == 0 || is_term(e[back_to_term(e, i) - 1].1),
    decreases i,
{
    if 0 < i && !is_term(e[i - 1].1) {
        lemma_back_to_term(e, i - 1);
    }
}

proof fn lemma_fwd_ws(e: Seq<((int, int), char)>, i: int)
    requires
        0 <= i <= e.len(),
    ensures
        i <= fwd_ws(e, i) <= e.len(),
        forall|k: int| i <= k < fwd_ws(e, i) ==> is_ws(#[trigger] e[k].1),
    decreases e.len() - i,
{
    if i < e.len() && is_ws(e[i].1) {
        lemma_fwd_ws(e, i + 1);
    }
}

/// Where the "current sentence" before `cursor` begins, for SHIFT+BACKSPACE.
///
/// A sentence runs from the last `.`/`?`/`!` (or the paragraph start) to the
/// cursor. A terminator sitting immediately before the cursor (ignoring
/// trailing whitespace) is treated as part of the sentence being deleted, so
/// deleting right after finishing a sentence removes that sentence rather
/// than nothing. Returns `None` when there is nothing to delete.
pub fn sentence_start_before(lines: &[String], cursor: Pos) -> (r: Option<Pos>)
    ensures
        match r {
            Some(p) => sentence_start(lines@, (cursor.0 as int, cursor.1 as int)) == Some(
                (p.0 as int, p.1 as int),
            ),
            None => sentence_start(lines@, (cursor.0 as int, cursor.1 as int)) is None,
        },
{
    let (cur_line, cur_col) = cursor;
    let ghost ls = lines@;
    let ghost cur = (cur_line as int, cur_col as int);
    let mut chars: Vec<(Pos, char)> = Vec::new();
    if cur_line < lines.len() {
        let para_start = active_paragraph(lines, cur_line).0;
        let mut li = para_start;
        while li < cur_line
            invariant
                cur_line < lines@.len(),
                para_start <= li <= cur_line,
                entry_view(chars@) + scan_entries(ls, li as int, cur_line as int, cur_col as int)
                    == scan_entries(ls, para_start as int, cur_line as int, cur_col as int),
                ls == lines@,
            decreases cur_line - li,
        {
            let line = lines[li].as_str();
            let ghost before = entry_view(chars@);
            let len = str_byte_len(line);
            push_line_entries(&mut chars, line, li, len);
            proof {
                lemma_count_from_full(line@, 0);
            }
            chars.push(((li, len), '\n'));
            assert(entry_view(chars@) =~= before + line_entries(line@, li as int, line@.len() as int)
                + seq![((li as int, byte_len(line@) as int), '\n')]);
            assert(entry_view(chars@) + scan_entries(ls, li + 1, cur_line as int, cur_col as int)
                =~= before + scan_entries(ls, li as int, cur_line as int, cur_col as int));
            li = li + 1;
        }
        push_line_entries(&mut chars, lines[cur_line].as_str(), cur_line, cur_col);
        assert(entry_view(chars@) =~= sentence_entries(ls, cur));
    } else {
        assert(entry_view(chars@) =~= sentence_entries(ls, cur));
    }
    let ghost e = entry_view(chars@);
    let n = chars.len();
    let mut i = n;
    while i > 0 && is_whitespace(chars[i - 1].1)
        invariant
            e == entry_view(chars@),
            n == e.len(),
            i <= n,
            back_ws(e, i as int) == back_ws(e, n as int),
        decreases i,
    {
        i = i - 1;
    }
    let ghost i0 = i;
    while i > 0 && (chars[i - 1].1 == '.' || chars[i - 1].1 == '?' || chars[i - 1].1 == '!')
        invariant
            e == entry_view(chars@),
            n == e.len(),
            i <= n,
            back_term(e, i as int) == back_term(e, i0 as int),
            i0 == back_ws(e, n as int),
        decreases i,
    {
        i = i - 1;
    }
    let ghost i1 = i;
    while i > 0 && !(chars[i - 1].1 == '.' || chars[i - 1].1 == '?' || chars[i - 1].1 == '!')
        invariant
            e == entry_view(chars@),
            n == e.len(),
            i <= n,
            back_to_term(e, i as int) == back_to_term(e, i1 as int),
            i1 == back_term(e, back_ws(e, n as int)),
        decreases i,
    {
        i = i - 1;
    }
    let mut start = i;
    while start < n && is_whitespace(chars[start].1)
        invariant
            e == entry_view(chars@),
            n == e.len(),
            i <= start <= n,
            i == back_to_term(e, back_term(e, back_ws(e, n as int))),
            fwd_ws(e, start as int) == fwd_ws(e, i as int),
        decreases n - start,
    {
        start = start + 1;
    }
    if start < n {
        Some(chars[start].0)
    } else if i < n {
        Some(chars[i].0)
    } else {
        None
    }
}

} // verus!
