//! The part of the LaTeX pipeline that reads the compiler's log: picking the
//! error message to show when a compile fails.

use vstd::prelude::*;

use crate::paths::{
    extension_of, extension_replaced, file_name_of, file_stem_of, parent_of, path_extension,
    path_file_name, path_file_stem, path_parent, with_extension,
};
use crate::strings::{
    concat, sorted_unique, str_eq, string_from_chars, string_views, strictly_sorted, trim, trimmed,
};
use crate::text::chars_of;

verus! {

/// Cap on rasterized PDF pages, to bound memory on huge documents.
pub const MAX_PAGES: usize = 50;

/// Index of the first `'\n'` at or after `k` (or the length).
pub open spec fn first_nl(s: Seq<char>, k: int) -> int
    decreases s.len() - k,
{
    if 0 <= k < s.len() && s[k] != '\n' {
        first_nl(s, k + 1)
    } else {
        k
    }
}

pub proof fn lemma_first_nl(s: Seq<char>, k: int)
    requires
        0 <= k,
    ensures
        k <= first_nl(s, k),
        k <= s.len() ==> first_nl(s, k) <= s.len(),
    decreases s.len() - k,
{
    if 0 <= k < s.len() && s[k] != '\n' {
        lemma_first_nl(s, k + 1);
    }
}

/// A line without the `'\r'` of a `"\r\n"` ending.
pub open spec fn strip_cr(l: Seq<char>) -> Seq<char> {
    if l.len() > 0 && l.last() == '\r' {
        l.drop_last()
    } else {
        l
    }
}

/// The lines of `s` from character `a` on, as `str::lines` splits them:
/// at `'\n'` or `"\r\n"`, with no empty line after a final line ending.
pub open spec fn lines_from(s: Seq<char>, a: int) -> Seq<Seq<char>>
    decreases s.len() - a,
{
    if 0 <= a < s.len() {
        let j = first_nl(s, a);
        proof {
            lemma_first_nl(s, a);
        }
        if j < s.len() {
            seq![strip_cr(s.subrange(a, j))] + lines_from(s, j + 1)
        } else {
            seq![s.subrange(a, s.len() as int)]
        }
    } else {
        Seq::empty()
    }
}

proof fn lemma_first_nl_before(s: Seq<char>, a: int, k: int)
    requires
        0 <= a <= k < s.len(),
        s[k] == '\n',
    ensures
        first_nl(s, a) <= k,
    decreases k - a,
{
    if s[a] != '\n' {
        lemma_first_nl_before(s, a + 1, k);
    }
}

/// Every line read from a line start `p` on is also a line of what is read
/// from an earlier line start `a`.
pub proof fn lemma_lines_from_suffix(s: Seq<char>, a: int, p: int, x: Seq<char>)
    requires
        0 <= a <= p <= s.len(),
        p == a || s[p - 1] == '\n',
        lines_from(s, p).contains(x),
    ensures
        lines_from(s, a).contains(x),
    decreases p - a,
{
    if a < p {
        lemma_first_nl_before(s, a, p - 1);
        lemma_first_nl(s, a);
        let j = first_nl(s, a);
        assert(j < s.len());
        lemma_lines_from_suffix(s, j + 1, p, x);
        let rest = lines_from(s, j + 1);
        let k = choose|k: int| 0 <= k < rest.len() && rest[k] == x;
        assert(lines_from(s, a) == seq![strip_cr(s.subrange(a, j))] + rest);
        assert(lines_from(s, a)[k + 1] == x);
    }
}

/// The last line of text ending in a line break that follows a line start:
/// reading from that start gives the line itself.
pub proof fn lemma_last_line(s: Seq<char>, p: int)
    requires
        0 <= p < s.len(),
        s.last() == '\n',
        forall|i: int| p <= i < s.len() - 1 ==> s[i] != '\n',
    ensures
        lines_from(s, p) == seq![strip_cr(s.subrange(p, s.len() - 1))],
{
    assert(first_nl(s, p) == s.len() - 1) by {
        lemma_first_nl_scan(s, p);
    }
    assert(lines_from(s, s.len() as int) =~= Seq::<Seq<char>>::empty());
}

/// A last line that starts at a line start, holds no line break and no
/// trailing carriage return, and ends the text with a line break, is one of
/// the text's lines.
pub proof fn lemma_last_line_listed(s: Seq<char>, p: int, w: Seq<char>)
    requires
        0 <= p,
        s.len() == p + w.len() + 1,
        w.len() > 0,
        w.last() != '\r',
        forall|k: int| 0 <= k < w.len() ==> s[p + k] == w[k] && w[k] != '\n',
        s.last() == '\n',
        p == 0 || s[p - 1] == '\n',
    ensures
        lines_of(s).contains(w),
{
    assert forall|i: int| p <= i < s.len() - 1 implies s[i] != '\n' by {
        assert(s[p + (i - p)] == w[i - p]);
    }
    lemma_last_line(s, p);
    assert(s.subrange(p, s.len() - 1) =~= w);
    assert(lines_from(s, p)[0] == w);
    lemma_lines_from_suffix(s, 0, p, w);
}

proof fn lemma_first_nl_scan(s: Seq<char>, p: int)
    requires
        0 <= p < s.len(),
        s.last() == '\n',
        forall|i: int| p <= i < s.len() - 1 ==> s[i] != '\n',
    ensures
        first_nl(s, p) == s.len() - 1,
    decreases s.len() - p,
{
    if p < s.len() - 1 {
        lemma_first_nl_scan(s, p + 1);
    }
}

/// The lines of `s` (`str::lines`).
pub open spec fn lines_of(s: Seq<char>) -> Seq<Seq<char>> {
    lines_from(s, 0)
}

/// Lines joined with `'\n'` between them.
pub open spec fn join_nl(ls: Seq<Seq<char>>) -> Seq<char>
    decreases ls.len(),
{
    if ls.len() == 0 {
        Seq::empty()
    } else if ls.len() == 1 {
        ls[0]
    } else {
        join_nl(ls.drop_last()) + seq!['\n'] + ls.last()
    }
}

/// Index of the first line at or after `k` that starts with `'!'`.
pub open spec fn first_bang(ls: Seq<Seq<char>>, k: int) -> int
    decreases ls.len() - k,
{
    if 0 <= k < ls.len() && !(ls[k].len() > 0 && ls[k][0] == '!') {
        first_bang(ls, k + 1)
    } else {
        k
    }
}

/// The message shown for a failed compile: the first TeX error line (one
/// starting with `!`) and up to five lines after it, or else the log's last
/// eight lines.
pub open spec fn tex_error(log: Seq<char>) -> Seq<char> {
    let ls = lines_of(log);
    let p = first_bang(ls, 0);
    if p < ls.len() {
        join_nl(ls.subrange(p, if p + 6 < ls.len() { p + 6 } else { ls.len() as int }))
    } else {
        join_nl(ls.subrange(if ls.len() > 8 { ls.len() - 8 } else { 0 }, ls.len() as int))
    }
}

/// The characters of each line.
pub open spec fn line_views(v: Seq<Vec<char>>) -> Seq<Seq<char>> {
    v.map_values(|l: Vec<char>| l@)
}

/// Split `s` into lines exactly as `str::lines` does.
pub fn split_lines(s: &[char]) -> (out: Vec<Vec<char>>)
    ensures
        line_views(out@) == lines_of(s@),
{
    let n = s.len();
    let mut out: Vec<Vec<char>> = Vec::new();
    let mut start: usize = 0;
    while start < n
        invariant
            n == s@.len(),
            start <= n,
            line_views(out@) + lines_from(s@, start as int) == lines_of(s@),
        decreases n - start,
    {
        let mut j = start;
        while j < n && s[j] != '\n'
            invariant
                n == s@.len(),
                start <= j <= n,
                first_nl(s@, j as int) == first_nl(s@, start as int),
            decreases n - j,
        {
            j = j + 1;
        }
        let mut piece: Vec<char> = Vec::new();
        let mut k = start;
        while k < j
            invariant
                start <= k <= j <= n,
                n == s@.len(),
                piece@ == s@.subrange(start as int, k as int),
            decreases j - k,
        {
            piece.push(s[k]);
            k = k + 1;
            assert(piece@ =~= s@.subrange(start as int, k as int));
        }
        let ghost old_out = out@;
        if j < n {
            if piece.len() > 0 && piece[piece.len() - 1] == '\r' {
                piece.pop();
            }
            out.push(piece);
            assert(line_views(out@) =~= line_views(old_out) + seq![
                strip_cr(s@.subrange(start as int, j as int)),
            ]);
            assert(line_views(out@) + lines_from(s@, j + 1) =~= line_views(old_out) + lines_from(
                s@,
                start as int,
            ));
            start = j + 1;
        } else {
            out.push(piece);
            assert(line_views(out@) =~= line_views(old_out) + seq![
                s@.subrange(start as int, n as int),
            ]);
            assert(line_views(out@) + lines_from(s@, n as int) =~= line_views(old_out)
                + lines_from(s@, start as int));
            start = n;
        }
    }
    assert(line_views(out@) =~= line_views(out@) + lines_from(s@, start as int));
    out
}

/// Lines `lo..hi` joined with `'\n'`.
fn join_range(ls: &Vec<Vec<char>>, lo: usize, hi: usize) -> (r: Vec<char>)
    requires
        lo <= hi <= ls@.len(),
    ensures
        r@ == join_nl(line_views(ls@).subrange(lo as int, hi as int)),
{
    let mut r: Vec<char> = Vec::new();
    let mut i = lo;
    assert(line_views(ls@).subrange(lo as int, lo as int) =~= Seq::<Seq<char>>::empty());
    while i < hi
        invariant
            lo <= i <= hi <= ls@.len(),
            r@ == join_nl(line_views(ls@).subrange(lo as int, i as int)),
        decreases hi - i,
    {
        let ghost prev = line_views(ls@).subrange(lo as int, i as int);
        let ghost next = line_views(ls@).subrange(lo as int, i + 1);
        assert(next.drop_last() =~= prev);
        if i > lo {
            r.push('\n');
        }
        let line = &ls[i];
        let mut k: usize = 0;
        let ghost base = r@;
        while k < line.len()
            invariant
                k <= line@.len(),
                r@ == base + line@.take(k as int),
            decreases line@.len() - k,
        {
            r.push(line[k]);
            k = k + 1;
            assert(r@ =~= base + line@.take(k as int));
        }
        assert(line@.take(line@.len() as int) =~= line@);
        if i > lo {
            assert(r@ =~= join_nl(next));
        } else {
            assert(r@ =~= join_nl(next));
        }
        i = i + 1;
    }
    r
}

/// Pull the first error line (starting with `!`) plus context from a TeX log.
pub fn extract_tex_error(log: &str) -> (r: String)
    ensures
        r@ == tex_error(log@),
{
    let cs = chars_of(log);
    let lines = split_lines(cs.as_slice());
    let n = lines.len();
    let mut p: usize = 0;
    while p < n && !(lines[p].len() > 0 && lines[p][0] == '!')
        invariant
            n == lines@.len(),
            p <= n,
            first_bang(line_views(lines@), p as int) == first_bang(line_views(lines@), 0),
        decreases n - p,
    {
        p = p + 1;
    }
    let joined = if p < n {
        let hi = if n - p > 6 { p + 6 } else { n };
        join_range(&lines, p, hi)
    } else {
        let lo = if n > 8 { n - 8 } else { 0 };
        join_range(&lines, lo, n)
    };
    string_from_chars(joined.as_slice())
}


/// How one compile of a `.tex` file runs.
#[derive(Debug)]
pub struct CompilePlan {
    /// The folder the compiler runs in: the file's own, when it has a
    /// non-empty one (else the current directory).
    pub dir: Option<String>,
    /// The file name handed to the compiler.
    pub file: String,
    /// The PDF the compile produces.
    pub pdf: String,
    /// The path prefix the rasterizer writes page images under.
    pub prefix: String,
    /// The folder the page images land in (`.` for a bare file name).
    pub pages_dir: String,
    /// The file-name prefix of the page images.
    pub stem: String,
}

/// A non-empty parent folder, if any.
pub open spec fn nonempty_parent(path: Seq<char>) -> Option<Seq<char>> {
    match parent_of(path) {
        Some(p) => if p.len() > 0 {
            Some(p)
        } else {
            None
        },
        None => None,
    }
}

fn nonempty_parent_exec(path: &str) -> (r: Option<String>)
    ensures
        match r {
            Some(p) => nonempty_parent(path@) == Some(p@),
            None => nonempty_parent(path@) is None,
        },
{
    match path_parent(path) {
        Some(p) => if p.as_str().is_empty() {
            None
        } else {
            Some(p)
        },
        None => None,
    }
}

/// The plan for compiling `path`: refused when the path has no file name.
pub fn compile_plan(path: &str) -> (r: Result<CompilePlan, String>)
    ensures
        match file_name_of(path@) {
            None => r matches Err(e) && e@ == "bad path"@,
            Some(f) => r matches Ok(p) && {
                let pdf = extension_replaced(path@, "pdf"@);
                let prefix = extension_replaced(path@, "preview"@);
                &&& p.file@ == f
                &&& (match p.dir {
                    Some(d) => nonempty_parent(path@) == Some(d@),
                    None => nonempty_parent(path@) is None,
                })
                &&& p.pdf@ == pdf
                &&& p.prefix@ == prefix
                &&& p.pages_dir@ == (match nonempty_parent(pdf) {
                    Some(d) => d,
                    None => "."@,
                })
                &&& p.stem@ == (match file_name_of(prefix) {
                    Some(n) => n,
                    None => "preview"@,
                })
            },
        },
{
    let dir = nonempty_parent_exec(path);
    let file = match path_file_name(path) {
        Some(f) => f,
        None => return Err("bad path".to_string()),
    };
    proof {
        reveal_strlit("pdf");
        reveal_strlit("preview");
    }
    let pdf = with_extension(path, "pdf");
    let prefix = with_extension(path, "preview");
    let pages_dir = match nonempty_parent_exec(pdf.as_str()) {
        Some(d) => d,
        None => ".".to_string(),
    };
    let stem = match path_file_name(prefix.as_str()) {
        Some(n) => n,
        None => "preview".to_string(),
    };
    Ok(CompilePlan { dir, file, pdf, prefix, pages_dir, stem })
}

/// `s` begins with `p`.
pub open spec fn starts_with(s: Seq<char>, p: Seq<char>) -> bool {
    p.len() <= s.len() && s.take(p.len() as int) == p
}

fn starts_with_exec(s: &str, p: &str) -> (r: bool)
    ensures
        r == starts_with(s@, p@),
{
    let x = chars_of(s);
    let y = chars_of(p);
    if y.len() > x.len() {
        return false;
    }
    let mut i: usize = 0;
    while i < y.len()
        invariant
            x@ == s@,
            y@ == p@,
            y@.len() <= x@.len(),
            i <= y@.len(),
            forall|k: int| 0 <= k < i ==> x@[k] == y@[k],
        decreases y@.len() - i,
    {
        if x[i] != y[i] {
            assert(x@.take(y@.len() as int)[i as int] != y@[i as int]);
            return false;
        }
        i = i + 1;
    }
    assert(x@.take(y@.len() as int) =~= y@);
    true
}

/// A file in the page-image folder is a rendered page: a `.png` whose stem
/// starts with the plan's stem.
pub open spec fn is_page_image(f: Seq<char>, stem: Seq<char>) -> bool {
    extension_of(f) == Some("png"@) && (file_stem_of(f) matches Some(s) && starts_with(s, stem))
}

/// The page images among `files`, in order.
pub open spec fn page_images(files: Seq<Seq<char>>, stem: Seq<char>) -> Seq<Seq<char>>
    decreases files.len(),
{
    if files.len() == 0 {
        Seq::empty()
    } else {
        let rest = page_images(files.drop_last(), stem);
        if is_page_image(files.last(), stem) {
            rest.push(files.last())
        } else {
            rest
        }
    }
}

/// The rendered pages among the files of the page-image folder, in page
/// order: the rasterizer zero-pads page numbers, so the name order of the
/// paths is the page order.
pub fn preview_pages(files: &Vec<String>, stem: &str) -> (r: Vec<String>)
    ensures
        strictly_sorted(string_views(r@)),
        string_views(r@).to_set() == page_images(string_views(files@), stem@).to_set(),
{
    let ghost fv = string_views(files@);
    let mut kept: Vec<String> = Vec::new();
    let mut i: usize = 0;
    while i < files.len()
        invariant
            i <= files@.len(),
            fv == string_views(files@),
            string_views(kept@) == page_images(fv.take(i as int), stem@),
        decreases files@.len() - i,
    {
        assert(fv.take(i + 1).drop_last() =~= fv.take(i as int));
        assert(fv.take(i + 1).last() == files@[i as int]@);
        let f = files[i].as_str();
        let is_png = match path_extension(f) {
            Some(e) => str_eq(e.as_str(), "png"),
            None => false,
        };
        let page = is_png && match path_file_stem(f) {
            Some(s) => starts_with_exec(s.as_str(), stem),
            None => false,
        };
        if page {
            let ghost prev = kept@;
            let c = files[i].clone();
            let ghost cv = c@;
            kept.push(c);
            assert(string_views(kept@) =~= string_views(prev).push(cv));
        }
        i = i + 1;
    }
    assert(fv.take(files@.len() as int) =~= fv);
    sorted_unique(&kept)
}

/// The arguments the rasterizer gets: PNG output at 144 dpi, at most
/// [`MAX_PAGES`] pages, from the plan's PDF to its prefix.
pub fn rasterizer_args(plan: &CompilePlan) -> (r: Vec<String>)
    ensures
        string_views(r@) == seq!["-png"@, "-r"@, "144"@, "-l"@, "50"@, plan.pdf@, plan.prefix@],
{
    let mut v: Vec<String> = Vec::new();
    v.push("-png".to_string());
    v.push("-r".to_string());
    v.push("144".to_string());
    v.push("-l".to_string());
    v.push("50".to_string());
    v.push(plan.pdf.clone());
    v.push(plan.prefix.clone());
    assert(string_views(v@) =~= seq!["-png"@, "-r"@, "144"@, "-l"@, "50"@, plan.pdf@, plan.prefix@]);
    v
}

/// The arguments the compiler gets: never stop for input, stop at the
/// first error, then the file name.
pub fn compiler_args(plan: &CompilePlan) -> (r: Vec<String>)
    ensures
        string_views(r@) == seq!["-interaction=nonstopmode"@, "-halt-on-error"@, plan.file@],
{
    let mut v: Vec<String> = Vec::new();
    v.push("-interaction=nonstopmode".to_string());
    v.push("-halt-on-error".to_string());
    v.push(plan.file.clone());
    assert(string_views(v@) =~= seq!["-interaction=nonstopmode"@, "-halt-on-error"@, plan.file@]);
    v
}

/// The error for a rasterizer run that failed, quoting its trimmed error
/// output.
pub fn rasterizer_failure(stderr: &str) -> (r: String)
    ensures
        r@ == "pdftoppm failed: "@ + trimmed(stderr@),
{
    let t = trim(stderr);
    concat("pdftoppm failed: ", t.as_str())
}

/// The error for a tool that could not be started.
pub fn launch_failure(program: &str, error: &str) -> (r: String)
    ensures
        r@ == "failed to run "@ + program@ + ": "@ + error@,
{
    let a = concat("failed to run ", program);
    let b = concat(a.as_str(), ": ");
    concat(b.as_str(), error)
}

/// Why a compile failed, given how the compiler exited (`succeeded`) and
/// what it wrote to standard output (the TeX log): nothing when it
/// succeeded, else the log's first error with context.
pub fn compiler_failure(succeeded: bool, stdout: &str) -> (r: Option<String>)
    ensures
        succeeded ==> r is None,
        !succeeded ==> (r matches Some(e) && e@ == tex_error(stdout@)),
{
    if succeeded {
        None
    } else {
        Some(extract_tex_error(stdout))
    }
}

/// Why rasterizing failed, given how `pdftoppm` exited and its error output.
pub fn rasterizer_outcome(succeeded: bool, stderr: &str) -> (r: Option<String>)
    ensures
        succeeded ==> r is None,
        !succeeded ==> (r matches Some(e) && e@ == "pdftoppm failed: "@ + trimmed(stderr@)),
{
    if succeeded {
        None
    } else {
        Some(rasterizer_failure(stderr))
    }
}

/// A compile that rasterized `pages` page images: at least one is needed.
pub fn pages_outcome(pages: usize) -> (r: Result<(), String>)
    ensures
        pages > 0 <==> r is Ok,
        r matches Err(e) ==> e@ == "pdftoppm produced no image"@,
{
    if pages > 0 {
        Ok(())
    } else {
        Err("pdftoppm produced no image".to_string())
    }
}

} // verus!
