//! Character-level string operations with their exact meaning stated over
//! `Seq<char>`.

use vstd::prelude::*;

use crate::text::{chars_of, is_whitespace, is_ws};

verus! {

/// Append `c` to `s` (`String::push`).
#[verifier::external_body]
fn push_char(s: &mut String, c: char)
    ensures
        final(s)@ == old(s)@.push(c),
{
    s.push(c);
}

/// The string holding exactly the characters `cs`.
pub fn string_from_chars(cs: &[char]) -> (s: String)
    ensures
        s@ == cs@,
{
    let mut s = String::new();
    let mut i: usize = 0;
    while i < cs.len()
        invariant
            i <= cs@.len(),
            s@ == cs@.take(i as int),
        decreases cs@.len() - i,
    {
        push_char(&mut s, cs[i]);
        i = i + 1;
        assert(s@ =~= cs@.take(i as int));
    }
    assert(cs@.take(cs@.len() as int) =~= cs@);
    s
}

/// Whether two character sequences are equal.
pub fn chars_eq(a: &[char], b: &[char]) -> (r: bool)
    ensures
        r == (a@ == b@),
{
    if a.len() != b.len() {
        return false;
    }
    let mut i: usize = 0;
    while i < a.len()
        invariant
            a@.len() == b@.len(),
            i <= a@.len(),
            forall|k: int| 0 <= k < i ==> a@[k] == b@[k],
        decreases a@.len() - i,
    {
        if a[i] != b[i] {
            return false;
        }
        i = i + 1;
    }
    assert(a@ =~= b@);
    true
}

/// Whether two strings hold the same characters.
pub fn str_eq(a: &str, b: &str) -> (r: bool)
    ensures
        r == (a@ == b@),
{
    let x = chars_of(a);
    let y = chars_of(b);
    chars_eq(x.as_slice(), y.as_slice())
}

/// `needle` occurs in `hay` starting at character index `i`.
pub open spec fn occurs_at(hay: Seq<char>, needle: Seq<char>, i: int) -> bool {
    0 <= i && i + needle.len() <= hay.len() && hay.subrange(i, i + needle.len()) == needle
}

/// `needle` occurs somewhere in `hay` (the empty needle always does).
pub open spec fn contains(hay: Seq<char>, needle: Seq<char>) -> bool {
    exists|i: int| occurs_at(hay, needle, i)
}

/// Whether `needle` occurs in `hay` at character index `i`.
pub fn occurs_at_exec(hay: &[char], needle: &[char], i: usize) -> (r: bool)
    ensures
        r == occurs_at(hay@, needle@, i as int),
{
    if i > hay.len() || needle.len() > hay.len() - i {
        return false;
    }
    let hl = hay.len();
    let mut k: usize = 0;
    while k < needle.len()
        invariant
            hl == hay@.len(),
            i + needle@.len() <= hay@.len(),
            k <= needle@.len(),
            forall|j: int| 0 <= j < k ==> hay@[i + j] == needle@[j],
        decreases needle@.len() - k,
    {
        if hay[i + k] != needle[k] {
            assert(hay@.subrange(i as int, i + needle@.len())[k as int] != needle@[k as int]);
            return false;
        }
        k = k + 1;
    }
    assert(hay@.subrange(i as int, i + needle@.len()) =~= needle@);
    true
}

/// The first character index at or after `from` where `needle` occurs.
pub fn find_from(hay: &[char], needle: &[char], from: usize) -> (r: Option<usize>)
    ensures
        match r {
            Some(i) => from <= i && occurs_at(hay@, needle@, i as int) && forall|j: int|
                from <= j < i ==> !occurs_at(hay@, needle@, j),
            None => forall|j: int| from <= j ==> !occurs_at(hay@, needle@, j),
        },
{
    let n = hay.len();
    if from > n {
        return None;
    }
    let mut i = from;
    loop
        invariant
            n == hay@.len(),
            from <= i <= n,
            forall|j: int| from <= j < i ==> !occurs_at(hay@, needle@, j),
        decreases n - i,
    {
        if occurs_at_exec(hay, needle, i) {
            return Some(i);
        }
        if i == n {
            return None;
        }
        i = i + 1;
    }
}

/// Whether `needle` occurs in `hay` (`str::contains`).
pub fn contains_chars(hay: &[char], needle: &[char]) -> (r: bool)
    ensures
        r == contains(hay@, needle@),
{
    match find_from(hay, needle, 0) {
        Some(i) => true,
        None => {
            assert forall|j: int| !occurs_at(hay@, needle@, j) by {
                if j >= 0 {
                }
            }
            false
        },
    }
}

/// Index of the first character that is not whitespace (or the length).
pub open spec fn trim_start_index(s: Seq<char>, i: int) -> int
    decreases s.len() - i,
{
    if 0 <= i < s.len() && is_ws(s[i]) {
        trim_start_index(s, i + 1)
    } else {
        i
    }
}

/// One past the last character that is not whitespace, looking no further
/// back than `lo`.
pub open spec fn trim_end_index(s: Seq<char>, lo: int, j: int) -> int
    decreases j - lo,
{
    if lo < j <= s.len() && is_ws(s[j - 1]) {
        trim_end_index(s, lo, j - 1)
    } else {
        j
    }
}

/// `s` without leading and trailing Unicode whitespace (`str::trim`).
pub open spec fn trimmed(s: Seq<char>) -> Seq<char> {
    let a = trim_start_index(s, 0);
    s.subrange(a, trim_end_index(s, a, s.len() as int))
}

proof fn lemma_trim_start(s: Seq<char>, i: int)
    requires
        0 <= i <= s.len(),
    ensures
        i <= trim_start_index(s, i) <= s.len(),
    decreases s.len() - i,
{
    if i < s.len() && is_ws(s[i]) {
        lemma_trim_start(s, i + 1);
    }
}

proof fn lemma_trim_end(s: Seq<char>, lo: int, j: int)
    requires
        0 <= lo <= j <= s.len(),
    ensures
        lo <= trim_end_index(s, lo, j) <= j,
    decreases j - lo,
{
    if lo < j && is_ws(s[j - 1]) {
        lemma_trim_end(s, lo, j - 1);
    }
}

/// The characters of `s` without leading and trailing whitespace.
pub fn trim_chars(s: &[char]) -> (r: Vec<char>)
    ensures
        r@ == trimmed(s@),
{
    let n = s.len();
    let mut a: usize = 0;
    while a < n && is_whitespace(s[a])
        invariant
            n == s@.len(),
            a <= n,
            trim_start_index(s@, a as int) == trim_start_index(s@, 0),
        decreases n - a,
    {
        a = a + 1;
    }
    let mut b: usize = n;
    while b > a && is_whitespace(s[b - 1])
        invariant
            n == s@.len(),
            a <= b <= n,
            a == trim_start_index(s@, 0),
            trim_end_index(s@, a as int, b as int) == trim_end_index(s@, a as int, n as int),
        decreases b,
    {
        b = b - 1;
    }
    let mut r: Vec<char> = Vec::new();
    let mut k = a;
    while k < b
        invariant
            a <= k <= b <= n,
            n == s@.len(),
            r@ == s@.subrange(a as int, k as int),
        decreases b - k,
    {
        r.push(s[k]);
        k = k + 1;
        assert(r@ =~= s@.subrange(a as int, k as int));
    }
    r
}

/// `s` without leading and trailing whitespace (`str::trim`).
pub fn trim(s: &str) -> (r: String)
    ensures
        r@ == trimmed(s@),
{
    let cs = chars_of(s);
    let t = trim_chars(cs.as_slice());
    string_from_chars(t.as_slice())
}

/// Unicode lowercase mapping of a string, as `str::to_lowercase` computes it.
pub uninterp spec fn lowercase(s: Seq<char>) -> Seq<char>;

/// `str::to_lowercase`: the Unicode lowercase mapping of `s`. The mapping
/// tables are std's; the result is a function of `s` alone, and the empty
/// string maps to the empty string.
#[verifier::external_body]
pub(crate) fn to_lowercase(s: &str) -> (r: String)
    ensures
        r@ == lowercase(s@),
        s@.len() == 0 ==> r@.len() == 0,
{
    s.to_lowercase()
}

/// Index of the first `c` at or after `k` (or the length).
pub open spec fn first_of(s: Seq<char>, c: char, k: int) -> int
    decreases s.len() - k,
{
    if 0 <= k < s.len() && s[k] != c {
        first_of(s, c, k + 1)
    } else {
        k
    }
}

pub proof fn lemma_first_of(s: Seq<char>, c: char, k: int)
    requires
        0 <= k,
    ensures
        k <= first_of(s, c, k),
        k <= s.len() ==> first_of(s, c, k) <= s.len(),
        first_of(s, c, k) < s.len() ==> s[first_of(s, c, k)] == c,
        forall|j: int| k <= j < first_of(s, c, k) && j < s.len() ==> s[j] != c,
    decreases s.len() - k,
{
    if 0 <= k < s.len() && s[k] != c {
        lemma_first_of(s, c, k + 1);
    }
}

/// The pieces of `s` from character `a` on, split at every `c`
/// (`str::split(c)`: a trailing separator leaves an empty last piece).
pub open spec fn pieces_on(s: Seq<char>, c: char, a: int) -> Seq<Seq<char>>
    decreases s.len() - a,
{
    if 0 <= a <= s.len() {
        let j = first_of(s, c, a);
        proof {
            lemma_first_of(s, c, a);
        }
        if j < s.len() {
            seq![s.subrange(a, j)] + pieces_on(s, c, j + 1)
        } else {
            seq![s.subrange(a, s.len() as int)]
        }
    } else {
        Seq::empty()
    }
}

/// The characters of each piece.
pub open spec fn piece_views(v: Seq<Vec<char>>) -> Seq<Seq<char>> {
    v.map_values(|l: Vec<char>| l@)
}

/// Split `s` at every `c`, keeping empty pieces.
pub fn split_on(s: &[char], c: char) -> (out: Vec<Vec<char>>)
    ensures
        piece_views(out@) == pieces_on(s@, c, 0),
        out@.len() >= 1,
{
    let n = s.len();
    let mut out: Vec<Vec<char>> = Vec::new();
    let mut start: usize = 0;
    loop
        invariant
            n == s@.len(),
            start <= n,
            piece_views(out@) + pieces_on(s@, c, start as int) == pieces_on(s@, c, 0),
        decreases n - start,
    {
        let mut j = start;
        while j < n && s[j] != c
            invariant
                n == s@.len(),
                start <= j <= n,
                first_of(s@, c, j as int) == first_of(s@, c, start as int),
            decreases n - j,
        {
            j = j + 1;
        }
        let mut piece: Vec<char> = Vec::new();
        let mut k = start;
        while k < j
            invariant
                start <= k <= j <= n,
                n == s@.len(),
                piece@ == s@.subrange(start as int, k as int),
            decreases j - k,
        {
            piece.push(s[k]);
            k = k + 1;
            assert(piece@ =~= s@.subrange(start as int, k as int));
        }
        let ghost old_out = out@;
        out.push(piece);
        assert(piece_views(out@) =~= piece_views(old_out) + seq![s@.subrange(start as int, j as int)]);
        if j < n {
            assert(piece_views(out@) + pieces_on(s@, c, j + 1) =~= piece_views(old_out) + pieces_on(
                s@,
                c,
                start as int,
            ));
            start = j + 1;
        } else {
            assert(piece_views(out@) =~= piece_views(old_out) + pieces_on(s@, c, start as int));
            return out;
        }
    }
}

/// `a` followed by `b`.
pub fn concat(a: &str, b: &str) -> (r: String)
    ensures
        r@ == a@ + b@,
{
    let x = chars_of(a);
    let y = chars_of(b);
    let mut out: Vec<char> = Vec::new();
    let mut i: usize = 0;
    while i < x.len()
        invariant
            i <= x@.len(),
            out@ == x@.take(i as int),
        decreases x@.len() - i,
    {
        out.push(x[i]);
        i = i + 1;
        assert(out@ =~= x@.take(i as int));
    }
    let mut j: usize = 0;
    while j < y.len()
        invariant
            j <= y@.len(),
            out@ == x@ + y@.take(j as int),
        decreases y@.len() - j,
    {
        out.push(y[j]);
        j = j + 1;
        assert(out@ =~= x@ + y@.take(j as int));
    }
    assert(x@.take(x@.len() as int) =~= x@);
    assert(y@.take(y@.len() as int) =~= y@);
    string_from_chars(out.as_slice())
}

/// Lexicographic order of names by code point (the order of their UTF-8
/// bytes).
pub open spec fn name_lt(a: Seq<char>, b: Seq<char>) -> bool
    decreases a.len(),
{
    if a.len() == 0 {
        b.len() > 0
    } else if b.len() == 0 {
        false
    } else if a[0] != b[0] {
        (a[0] as int) < (b[0] as int)
    } else {
        name_lt(a.drop_first(), b.drop_first())
    }
}

pub proof fn lemma_name_lt_irreflexive(a: Seq<char>)
    ensures
        !name_lt(a, a),
    decreases a.len(),
{
    if a.len() > 0 {
        lemma_name_lt_irreflexive(a.drop_first());
    }
}

pub proof fn lemma_name_lt_asymmetric(a: Seq<char>, b: Seq<char>)
    ensures
        name_lt(a, b) ==> !name_lt(b, a),
    decreases a.len(),
{
    if a.len() > 0 && b.len() > 0 && a[0] == b[0] {
        lemma_name_lt_asymmetric(a.drop_first(), b.drop_first());
    }
}

pub proof fn lemma_name_lt_total(a: Seq<char>, b: Seq<char>)
    ensures
        a != b ==> name_lt(a, b) || name_lt(b, a),
    decreases a.len(),
{
    if a.len() > 0 && b.len() > 0 && a[0] == b[0] {
        lemma_name_lt_total(a.drop_first(), b.drop_first());
        if a.drop_first() == b.drop_first() {
            assert(a =~= seq![a[0]] + a.drop_first());
            assert(b =~= seq![b[0]] + b.drop_first());
        }
    } else if a.len() == 0 && b.len() == 0 {
        assert(a =~= b);
    }
}

pub proof fn lemma_name_lt_transitive(a: Seq<char>, b: Seq<char>, c: Seq<char>)
    ensures
        name_lt(a, b) && name_lt(b, c) ==> name_lt(a, c),
    decreases a.len(),
{
    if a.len() > 0 && b.len() > 0 && c.len() > 0 && a[0] == b[0] && b[0] == c[0] {
        lemma_name_lt_transitive(a.drop_first(), b.drop_first(), c.drop_first());
    }
}

/// `a` precedes `b` by name, comparing code points.
pub fn name_lt_exec(a: &str, b: &str) -> (r: bool)
    ensures
        r == name_lt(a@, b@),
{
    let x = chars_of(a);
    let y = chars_of(b);
    let mut i: usize = 0;
    assert(x@.skip(0) =~= x@);
    assert(y@.skip(0) =~= y@);
    while i < x.len() && i < y.len()
        invariant
            x@ == a@,
            y@ == b@,
            i <= x@.len(),
            i <= y@.len(),
            name_lt(x@, y@) == name_lt(x@.skip(i as int), y@.skip(i as int)),
        decreases x@.len() - i,
    {
        if x[i] != y[i] {
            assert(x@.skip(i as int)[0] == x@[i as int]);
            assert(y@.skip(i as int)[0] == y@[i as int]);
            return x[i] < y[i];
        }
        assert(x@.skip(i as int).drop_first() =~= x@.skip(i + 1));
        assert(y@.skip(i as int).drop_first() =~= y@.skip(i + 1));
        i = i + 1;
    }
    i == x.len() && i < y.len()
}


/// The characters of each string.
pub open spec fn string_views(v: Seq<String>) -> Seq<Seq<char>> {
    v.map_values(|s: String| s@)
}

/// Each name comes strictly before the next, so none repeats.
pub open spec fn strictly_sorted(s: Seq<Seq<char>>) -> bool {
    forall|i: int, j: int| 0 <= i < j < s.len() ==> name_lt(#[trigger] s[i], #[trigger] s[j])
}

/// The distinct names of `names` in ascending order (a sort followed by a
/// dedup).
pub fn sorted_unique(names: &Vec<String>) -> (r: Vec<String>)
    ensures
        strictly_sorted(string_views(r@)),
        string_views(r@).to_set() == string_views(names@).to_set(),
{
    let ghost all = string_views(names@);
    let mut out: Vec<String> = Vec::new();
    let mut i: usize = 0;
    assert(all.take(0).to_set() =~= string_views(out@).to_set());
    while i < names.len()
        invariant
            i <= names@.len(),
            all == string_views(names@),
            strictly_sorted(string_views(out@)),
            string_views(out@).to_set() == all.take(i as int).to_set(),
        decreases names@.len() - i,
    {
        let ghost t = string_views(out@);
        let ghost x = all[i as int];
        assert(all.take(i + 1) =~= all.take(i as int).push(x));
        proof {
            all.take(i as int).lemma_push_to_set_commute(x);
        }
        let mut p: usize = 0;
        while p < out.len() && name_lt_exec(out[p].as_str(), names[i].as_str())
            invariant
                p <= out@.len(),
                t == string_views(out@),
                x == names@[i as int]@,
                i < names@.len(),
                forall|k: int| 0 <= k < p ==> name_lt(t[k], x),
            decreases out@.len() - p,
        {
            p = p + 1;
        }
        if p < out.len() && str_eq(out[p].as_str(), names[i].as_str()) {
            assert(t.contains(x)) by {
                assert(t[p as int] == x);
            }
            assert(t.to_set().insert(x) =~= t.to_set());
        } else {
            let c = names[i].clone();
            out.insert(p, c);
            let ghost u = string_views(out@);
            assert(u =~= t.insert(p as int, x));
            assert forall|a: int, b: int| 0 <= a < b < u.len() implies name_lt(#[trigger] u[a], #[trigger] u[b]) by {
                if p < t.len() {
                    lemma_name_lt_total(t[p as int], x);
                }
                if b < p {
                } else if b == p {
                } else if a == p {
                    if b - 1 > p {
                        lemma_name_lt_transitive(x, t[p as int], t[b - 1]);
                    }
                } else if a < p {
                    lemma_name_lt_transitive(t[a], x, t[b - 1]);
                } else {
                }
            }
            assert(u.to_set() =~= t.to_set().insert(x)) by {
                assert forall|q: Seq<char>| u.contains(q) implies t.contains(q) || q == x by {
                    let k = choose|k: int| 0 <= k < u.len() && u[k] == q;
                    if k < p {
                        assert(t[k] == q);
                    } else if k > p {
                        assert(t[k - 1] == q);
                    }
                }
                assert forall|q: Seq<char>| t.contains(q) || q == x implies u.contains(q) by {
                    if q == x {
                        assert(u[p as int] == q);
                    } else {
                        let k = choose|k: int| 0 <= k < t.len() && t[k] == q;
                        if k < p {
                            assert(u[k] == q);
                        } else {
                            assert(u[k + 1] == q);
                        }
                    }
                }
            }
        }
        i = i + 1;
    }
    assert(all.take(names@.len() as int) =~= all);
    out
}


/// The character of a decimal digit.
pub open spec fn digit_char(d: nat) -> char {
    seq!['0', '1', '2', '3', '4', '5', '6', '7', '8', '9'][d as int]
}

/// The decimal numeral of `n`, without leading zeros.
pub open spec fn decimal(n: nat) -> Seq<char>
    decreases n,
{
    if n < 10 {
        seq![digit_char(n)]
    } else {
        decimal(n / 10).push(digit_char(n % 10))
    }
}

/// `usize`'s `Display` (through `to_string`): the decimal numeral, with no
/// sign, padding or grouping.
#[verifier::external_body]
pub(crate) fn usize_decimal(n: usize) -> (r: String)
    ensures
        r@ == decimal(n as nat),
{
    n.to_string()
}


proof fn lemma_trim_start_stops(s: Seq<char>, i: int)
    requires
        0 <= i <= s.len(),
    ensures
        trim_start_index(s, i) < s.len() ==> !is_ws(s[trim_start_index(s, i)]),
    decreases s.len() - i,
{
    if i < s.len() && is_ws(s[i]) {
        lemma_trim_start_stops(s, i + 1);
    }
}

proof fn lemma_trim_end_stops(s: Seq<char>, lo: int, j: int)
    requires
        0 <= lo <= j <= s.len(),
    ensures
        trim_end_index(s, lo, j) > lo ==> !is_ws(s[trim_end_index(s, lo, j) - 1]),
    decreases j - lo,
{
    if lo < j && is_ws(s[j - 1]) {
        lemma_trim_end_stops(s, lo, j - 1);
    }
}

/// Trimming twice trims no more than once.
pub proof fn lemma_trimmed_idempotent(s: Seq<char>)
    ensures
        trimmed(trimmed(s)) == trimmed(s),
        trimmed(s).len() > 0 ==> !is_ws(trimmed(s).last()),
{
    let a = trim_start_index(s, 0);
    lemma_trim_start(s, 0);
    lemma_trim_start_stops(s, 0);
    let e = trim_end_index(s, a, s.len() as int);
    lemma_trim_end(s, a, s.len() as int);
    lemma_trim_end_stops(s, a, s.len() as int);
    let t = trimmed(s);
    assert(t.len() == e - a);
    if t.len() > 0 {
        assert(t[0] == s[a]);
        assert(t.last() == s[e - 1]);
        assert(trim_start_index(t, 0) == 0);
        assert(trim_end_index(t, 0, t.len() as int) == t.len());
    } else {
        assert(trim_start_index(t, 0) == 0);
        assert(trim_end_index(t, 0, 0) == 0);
    }
    assert(trimmed(t) =~= t);
}

} // verus!
