//! Spell checking over prose: which words are candidates, which tokens are
//! not prose (links, addresses, paths, commands), byte-accurate issue spans,
//! and finding the issue to correct next.
//!
//! The dictionary itself is `spellbook`'s Hunspell implementation; the word
//! segmentation is `unicode-segmentation`'s UAX#29 word boundaries.

use unicode_segmentation::UnicodeSegmentation;
use vstd::prelude::*;

use crate::config::config_dir;
use crate::paths::{
    extension_of, extension_replaced, is_single_plain_name, join_path, path_extension, path_join,
    single_plain_name, with_extension,
};
use crate::latex::{line_views, lines_from, lines_of, split_lines};
use crate::strings::{
    chars_eq, concat, contains, decimal, piece_views, pieces_on, split_on, str_eq, string_from_chars,
    trim, trim_chars, trimmed, usize_decimal,
};
use crate::text::{byte_len, byte_offset, chars_of, is_whitespace, is_ws, str_byte_len, Pos};
use crate::text::{lemma_byte_offset_mono, lemma_byte_offset_step, lemma_encode_concat};

verus! {

/// A misspelled word and its `[start, end)` span.
#[derive(Debug, PartialEq, Eq)]
pub struct SpellIssue {
    pub start: Pos,
    pub end: Pos,
    pub word: String,
}

impl Clone for SpellIssue {
    fn clone(&self) -> (r: Self)
        ensures
            r == *self,
    {
        SpellIssue { start: self.start, end: self.end, word: self.word.clone() }
    }
}

/// `a` comes strictly before `b` in buffer order.
pub open spec fn pos_lt(a: Pos, b: Pos) -> bool {
    a.0 < b.0 || (a.0 == b.0 && a.1 < b.1)
}

/// The caret at `cursor` is on `issue` or touching either end of it.
pub open spec fn near(issue: SpellIssue, cursor: Pos) -> bool {
    issue.start.0 == cursor.0 && issue.start.1 <= cursor.1 && cursor.1 <= issue.end.1
}

/// Find a spelling issue under the caret, or immediately adjacent to it.
pub fn issue_near(issues: &[SpellIssue], cursor: Pos) -> (r: Option<&SpellIssue>)
    ensures
        match r {
            Some(x) => exists|i: int|
                0 <= i < issues@.len() && issues@[i] == *x && near(*x, cursor) && forall|j: int|
                    0 <= j < i ==> !near(#[trigger] issues@[j], cursor),
            None => forall|j: int| 0 <= j < issues@.len() ==> !near(#[trigger] issues@[j], cursor),
        },
{
    let mut i: usize = 0;
    while i < issues.len()
        invariant
            i <= issues@.len(),
            forall|j: int| 0 <= j < i ==> !near(#[trigger] issues@[j], cursor),
        decreases issues@.len() - i,
    {
        let issue = &issues[i];
        if issue.start.0 == cursor.0 && issue.start.1 <= cursor.1 && cursor.1 <= issue.end.1 {
            return Some(issue);
        }
        i = i + 1;
    }
    None
}

/// The first issue after `cursor`, wrapping to the document's first issue.
pub fn next_issue(issues: &[SpellIssue], cursor: Pos) -> (r: Option<&SpellIssue>)
    ensures
        match r {
            Some(x) => issues@.len() > 0 && {
                ||| exists|i: int|
                    0 <= i < issues@.len() && issues@[i] == *x && pos_lt(cursor, x.start)
                        && forall|j: int|
                        0 <= j < i ==> !pos_lt(cursor, (#[trigger] issues@[j]).start)
                ||| (forall|j: int|
                    0 <= j < issues@.len() ==> !pos_lt(cursor, (#[trigger] issues@[j]).start))
                    && *x == issues@[0]
            },
            None => issues@.len() == 0,
        },
{
    let mut i: usize = 0;
    while i < issues.len()
        invariant
            i <= issues@.len(),
            forall|j: int| 0 <= j < i ==> !pos_lt(cursor, (#[trigger] issues@[j]).start),
        decreases issues@.len() - i,
    {
        let issue = &issues[i];
        if issue.start.0 > cursor.0 || (issue.start.0 == cursor.0 && issue.start.1 > cursor.1) {
            return Some(issue);
        }
        i = i + 1;
    }
    if issues.len() > 0 {
        Some(&issues[0])
    } else {
        None
    }
}

// ---------------------------------------------------------------------------
// Candidate words
// ---------------------------------------------------------------------------

/// Unicode `Alphabetic`, as `char::is_alphabetic` decides it.
pub uninterp spec fn alphabetic(c: char) -> bool;

/// Unicode `Uppercase`, as `char::is_uppercase` decides it.
pub uninterp spec fn uppercase(c: char) -> bool;

/// `char::is_alphabetic`: whether `c` has the Unicode `Alphabetic` property.
#[verifier::external_body]
fn is_alphabetic(c: char) -> (r: bool)
    ensures
        r == alphabetic(c),
{
    c.is_alphabetic()
}

/// `char::is_uppercase`: whether `c` has the Unicode `Uppercase` property.
#[verifier::external_body]
fn is_uppercase(c: char) -> (r: bool)
    ensures
        r == uppercase(c),
{
    c.is_uppercase()
}

/// A word worth checking: at least two letters, nothing but letters and
/// apostrophes, and not written entirely in capitals (an acronym).
pub open spec fn candidate(w: Seq<char>) -> bool {
    &&& exists|i: int, j: int|
        0 <= i < j < w.len() && alphabetic(#[trigger] w[i]) && alphabetic(#[trigger] w[j])
    &&& forall|i: int| 0 <= i < w.len() ==> alphabetic(#[trigger] w[i]) || w[i] == '\'' || w[i] == '’'
    &&& exists|i: int| 0 <= i < w.len() && alphabetic(#[trigger] w[i]) && !uppercase(w[i])
}

/// Whether `word` is a candidate for spell checking.
pub fn is_candidate(word: &str) -> (b: bool)
    ensures
        b == candidate(word@),
{
    let cs = chars_of(word);
    let ghost w = word@;
    let n = cs.len();
    let mut letters: usize = 0;
    let mut first_letter: usize = 0;
    let mut lower_at: Option<usize> = None;
    let mut i: usize = 0;
    while i < n
        invariant
            cs@ == w,
            w == word@,
            n == w.len(),
            i <= n,
            letters <= i,
            letters >= 1 ==> first_letter < i && alphabetic(w[first_letter as int]),
            letters == 0 ==> forall|k: int| 0 <= k < i ==> !alphabetic(#[trigger] w[k]),
            letters == 1 ==> forall|k: int|
                0 <= k < i && k != first_letter ==> !alphabetic(#[trigger] w[k]),
            letters >= 2 ==> exists|a: int, b: int|
                0 <= a < b < i && alphabetic(#[trigger] w[a]) && alphabetic(#[trigger] w[b]),
            forall|k: int| 0 <= k < i ==> alphabetic(#[trigger] w[k]) || w[k] == '\'' || w[k] == '’',
            match lower_at {
                Some(k) => k < i && alphabetic(w[k as int]) && !uppercase(w[k as int]),
                None => forall|k: int| 0 <= k < i && alphabetic(#[trigger] w[k]) ==> uppercase(w[k]),
            },
        decreases n - i,
    {
        let c = cs[i];
        let a = is_alphabetic(c);
        if !a && c != '\'' && c != '’' {
            assert(!(alphabetic(w[i as int]) || w[i as int] == '\'' || w[i as int] == '’'));
            assert(!(forall|k: int|
                0 <= k < w.len() ==> alphabetic(#[trigger] w[k]) || w[k] == '\'' || w[k] == '’'));
            assert(!candidate(w));
            return false;
        }
        if a {
            if letters == 0 {
                first_letter = i;
            } else {
                assert(alphabetic(w[first_letter as int]) && alphabetic(w[i as int]));
            }
            if letters < 2 {
                letters = letters + 1;
            }
            if lower_at.is_none() && !is_uppercase(c) {
                lower_at = Some(i);
            }
        }
        i = i + 1;
    }
    if letters < 2 {
        assert forall|a: int, b: int|
            0 <= a < b < w.len() && alphabetic(#[trigger] w[a]) implies !alphabetic(#[trigger] w[b]) by {
        }
        return false;
    }
    match lower_at {
        Some(k) => true,
        None => false,
    }
}

// ---------------------------------------------------------------------------
// Tokens that are not prose
// ---------------------------------------------------------------------------

/// Walk back from character `k` to the start of its whitespace-free token.
pub open spec fn token_left(s: Seq<char>, k: int) -> int
    decreases k,
{
    if 0 < k <= s.len() && !is_ws(s[k - 1]) {
        token_left(s, k - 1)
    } else {
        k
    }
}

/// Walk forward from character `k` to the end of its whitespace-free token.
pub open spec fn token_right(s: Seq<char>, k: int) -> int
    decreases s.len() - k,
{
    if 0 <= k < s.len() && !is_ws(s[k]) {
        token_right(s, k + 1)
    } else {
        k
    }
}

proof fn lemma_token_left(s: Seq<char>, k: int)
    requires
        0 <= k <= s.len(),
    ensures
        0 <= token_left(s, k) <= k,
    decreases k,
{
    if 0 < k && !is_ws(s[k - 1]) {
        lemma_token_left(s, k - 1);
    }
}

proof fn lemma_token_right(s: Seq<char>, k: int)
    requires
        0 <= k <= s.len(),
    ensures
        k <= token_right(s, k) <= s.len(),
    decreases s.len() - k,
{
    if k < s.len() && !is_ws(s[k]) {
        lemma_token_right(s, k + 1);
    }
}

/// A token that is a link, an address, a path or markup, not prose.
pub open spec fn non_prose(token: Seq<char>) -> bool {
    ||| contains(token, seq![':', '/', '/'])
    ||| contains(token, seq!['@'])
    ||| contains(token, seq!['/'])
    ||| (token.len() > 0 && (token[0] == '\\' || token[0] == '`'))
}

/// The character index at which byte column `b` of `s` lies, when it is one.
pub open spec fn char_index(s: Seq<char>, b: int) -> int {
    choose|k: int| 0 <= k <= s.len() && byte_offset(s, k) == b
}

/// Byte column `b` of `s` lies between two characters.
pub open spec fn on_boundary(s: Seq<char>, b: int) -> bool {
    exists|k: int| 0 <= k <= s.len() && byte_offset(s, k) == b
}

/// The whitespace-free token around characters `ks..ke` of `s`.
pub open spec fn token_around(s: Seq<char>, ks: int, ke: int) -> Seq<char> {
    s.subrange(token_left(s, ks), token_right(s, ke))
}

/// The word at bytes `[start, end)` of `line` sits in a non-prose token.
pub open spec fn ignored(line: Seq<char>, start: int, end: int) -> bool {
    non_prose(token_around(line, char_index(line, start), char_index(line, end)))
}

proof fn lemma_offset_injective(s: Seq<char>, j: int, k: int)
    requires
        0 <= j <= s.len(),
        0 <= k <= s.len(),
        byte_offset(s, j) == byte_offset(s, k),
    ensures
        j == k,
{
    if j < k {
        lemma_byte_offset_mono(s, j, k);
    } else if k < j {
        lemma_byte_offset_mono(s, k, j);
    }
}

/// The character index whose byte offset is `b`.
fn find_char_index(cs: &[char], b: usize) -> (k: usize)
    requires
        on_boundary(cs@, b as int),
    ensures
        k == char_index(cs@, b as int),
        byte_offset(cs@, k as int) == b,
        k <= cs@.len(),
{
    let ghost s = cs@;
    let ghost target = choose|k: int| 0 <= k <= s.len() && byte_offset(s, k) == b;
    let mut k: usize = 0;
    let mut off: usize = 0;
    proof {
        assert(s.take(0) =~= Seq::<char>::empty());
        assert(vstd::utf8::encode_utf8(Seq::<char>::empty()) =~= Seq::<u8>::empty());
    }
    while off < b
        invariant
            s == cs@,
            0 <= target <= s.len(),
            byte_offset(s, target) == b,
            k <= target,
            off == byte_offset(s, k as int),
        decreases target - k,
    {
        proof {
            if k == target {
                assert(false);
            }
            lemma_byte_offset_step(s, k as int);
            lemma_byte_offset_mono(s, k as int + 1, target);
        }
        let w = crate::text::utf8_width(cs[k]);
        off = off + w;
        k = k + 1;
    }
    proof {
        if (k as int) < target {
            lemma_byte_offset_mono(s, k as int, target);
            lemma_offset_injective(s, k as int, target);
        }
        lemma_offset_injective(s, k as int, target);
    }
    k
}

/// Whether `needle` occurs in `token`.
fn token_contains(token: &[char], needle: &[char]) -> (r: bool)
    ensures
        r == contains(token@, needle@),
{
    crate::strings::contains_chars(token, needle)
}

/// Whether the word at bytes `[start, end)` of `line` belongs to a link, an
/// e-mail address, a path, a TeX command or inline code.
pub fn is_ignored_context(line: &str, start: usize, end: usize) -> (b: bool)
    requires
        on_boundary(line@, start as int),
        on_boundary(line@, end as int),
        start <= end,
    ensures
        b == ignored(line@, start as int, end as int),
{
    let cs = chars_of(line);
    let ghost s = line@;
    let ks = find_char_index(cs.as_slice(), start);
    let ke = find_char_index(cs.as_slice(), end);
    let mut left = ks;
    while left > 0 && !is_whitespace(cs[left - 1])
        invariant
            s == cs@,
            left <= ks <= s.len(),
            token_left(s, left as int) == token_left(s, ks as int),
        decreases left,
    {
        left = left - 1;
    }
    let mut right = ke;
    while right < cs.len() && !is_whitespace(cs[right])
        invariant
            s == cs@,
            ke <= right <= s.len(),
            token_right(s, right as int) == token_right(s, ke as int),
        decreases s.len() - right,
    {
        right = right + 1;
    }
    let mut token: Vec<char> = Vec::new();
    let mut k = left;
    proof {
        if (ks as int) > (ke as int) {
            lemma_byte_offset_mono(s, ke as int, ks as int);
        }
    }
    let ghost lo = left;
    while k < right
        invariant
            s == cs@,
            lo <= k <= right <= s.len(),
            token@ == s.subrange(lo as int, k as int),
        decreases right - k,
    {
        token.push(cs[k]);
        k = k + 1;
        assert(token@ =~= s.subrange(lo as int, k as int));
    }
    let t = token.as_slice();
    let r = token_contains(t, &[':', '/', '/']) || token_contains(t, &['@']) || token_contains(
        t,
        &['/'],
    ) || (token.len() > 0 && (token[0] == '\\' || token[0] == '`'));
    proof {
        assert(seq![':', '/', '/'] =~= [':', '/', '/']@);
        assert(seq!['@'] =~= ['@']@);
        assert(seq!['/'] =~= ['/']@);
    }
    r
}

// ---------------------------------------------------------------------------
// Checking text
// ---------------------------------------------------------------------------

#[verifier::external_type_specification]
#[verifier::external_body]
#[verifier::reject_recursive_types(S)]
pub struct ExDictionary<S>(spellbook::Dictionary<S>);

#[verifier::external_type_specification]
#[verifier::external_body]
pub struct ExDefaultHashBuilder(spellbook::DefaultHashBuilder);

/// The words a dictionary accepts, as `Dictionary::check` decides them.
pub uninterp spec fn accepted_words(dict: spellbook::Dictionary) -> Set<Seq<char>>;

/// `Dictionary::check`: whether the dictionary accepts `word`. Which words
/// it accepts (stems, affixes, compounds, personal additions) is the
/// dictionary's own state; only that the answer is membership in that set is
/// stated.
#[verifier::external_body]
fn dictionary_check(dict: &spellbook::Dictionary, word: &str) -> (r: bool)
    ensures
        r == accepted_words(*dict).contains(word@),
{
    dict.check(word)
}

/// What the dictionary that `Dictionary::new` builds from the texts `aff`
/// and `dic` accepts, when the two parse.
pub uninterp spec fn parsed_dictionary(aff: Seq<char>, dic: Seq<char>) -> Option<Set<Seq<char>>>;

/// `Dictionary::new`: parse a Hunspell `.aff`/`.dic` pair. Whether the two
/// parse, and which words the dictionary then accepts, are functions of the
/// two texts; the error is the parser's message, which is not stated.
#[verifier::external_body]
pub(crate) fn parse_dictionary(aff: &str, dic: &str) -> (r: Result<spellbook::Dictionary, String>)
    ensures
        match parsed_dictionary(aff@, dic@) {
            Some(words) => r matches Ok(d) && accepted_words(d) == words,
            None => r is Err,
        },
{
    match spellbook::Dictionary::new(aff, dic) {
        Ok(d) => Ok(d),
        Err(e) => Err(e.to_string()),
    }
}

/// A `.dic` line with no flag set, escape, morphological field or tab:
/// none of `/`, `\`, space and tab.
pub open spec fn plain_dic_line(s: Seq<char>) -> bool {
    forall|i: int| 0 <= i < s.len() ==> s[i] != '/' && s[i] != '\\' && s[i] != ' ' && s[i] != '\t'
}

/// The stems a dictionary's word list holds.
pub uninterp spec fn dictionary_stems(dict: spellbook::Dictionary) -> Set<Seq<char>>;

/// The characters a dictionary ignores (its `IGNORE` option), fixed when it
/// was parsed.
pub uninterp spec fn ignored_chars(dict: spellbook::Dictionary) -> Set<char>;

/// `w` without the characters in `ignored`.
pub open spec fn without_ignored(w: Seq<char>, ignored: Set<char>) -> Seq<char> {
    w.filter(|c: char| !ignored.contains(c))
}

/// `Dictionary::add`: parse `input` as a `.dic` line and insert its stem.
/// The stem of a plain line is the line without the dictionary's ignored
/// characters, with no flags, and such a line always parses. Any line that
/// parses inserts one stem (so no stem goes) and leaves the ignored
/// characters; when parsing fails nothing changes. Which words `check`
/// accepts afterwards is not stated: it applies the dictionary's input
/// conversions, affix rules and a length limit. A stem longer than 65535
/// bytes panics inside the crate, which `requires` rules out.
#[verifier::external_body]
fn dictionary_add(dict: &mut spellbook::Dictionary, input: &str) -> (r: Result<(), String>)
    requires
        byte_len(input@) <= 65535,
    ensures
        plain_dic_line(input@) ==> r is Ok && dictionary_stems(*final(dict)) == dictionary_stems(
            *old(dict),
        ).insert(without_ignored(input@, ignored_chars(*old(dict)))),
        r is Ok ==> ignored_chars(*final(dict)) == ignored_chars(*old(dict)) && dictionary_stems(
            *old(dict),
        ).subset_of(dictionary_stems(*final(dict))),
        r is Err ==> *final(dict) == *old(dict),
{
    match dict.add(input) {
        Ok(()) => Ok(()),
        Err(e) => Err(e.to_string()),
    }
}

/// `Dictionary::suggest`: corrections for `word`, best first. The list
/// depends on the dictionary's hash tables, which each process seeds, so
/// only this is stated: an empty word, or one longer than 360 bytes, gets
/// none.
#[verifier::external_body]
fn dictionary_suggest(dict: &spellbook::Dictionary, word: &str) -> (r: Vec<String>)
    ensures
        word@.len() == 0 || byte_len(word@) > 360 ==> r@.len() == 0,
{
    let mut out = Vec::new();
    dict.suggest(word, &mut out);
    out
}

/// How many suggestions the correction chooser offers.
pub const SUGGESTION_LIMIT: usize = 8;

/// The first [`SUGGESTION_LIMIT`] suggestions.
pub fn capped_suggestions(all: Vec<String>) -> (r: Vec<String>)
    ensures
        r@ == all@.take(if all@.len() < 8 { all@.len() as int } else { 8 }),
{
    let mut all = all;
    let ghost before = all@;
    all.truncate(SUGGESTION_LIMIT);
    assert(all@ =~= before.take(if before.len() < 8 { before.len() as int } else { 8 }));
    all
}

/// The corrections offered for `word`: the dictionary's suggestions, at
/// most [`SUGGESTION_LIMIT`] of them.
pub fn spelling_suggestions(dict: &spellbook::Dictionary, word: &str) -> (r: Vec<String>)
    ensures
        r@.len() <= 8,
        word@.len() == 0 || byte_len(word@) > 360 ==> r@.len() == 0,
{
    capped_suggestions(dictionary_suggest(dict, word))
}

/// The start of the message for a personal word-list entry at line `line`
/// of the list at `path` that the dictionary refused; the parser's reason
/// follows.
pub open spec fn bad_entry_prefix(path: Seq<char>, line: int) -> Seq<char> {
    "invalid personal dictionary entry at "@ + path + ":"@ + decimal(line as nat) + ": "@
}

/// `e` starts with `p`.
pub open spec fn starts_with_seq(e: Seq<char>, p: Seq<char>) -> bool {
    p.len() <= e.len() && e.take(p.len() as int) == p
}

/// The stems the entries `es` add to a dictionary ignoring `ignored`, when
/// they are plain.
pub open spec fn entry_stems(es: Seq<(int, Seq<char>)>, ignored: Set<char>) -> Set<Seq<char>>
    decreases es.len(),
{
    if es.len() == 0 {
        Set::empty()
    } else {
        entry_stems(es.drop_last(), ignored).insert(without_ignored(es.last().1, ignored))
    }
}

/// Every entry of a personal word list fits the dictionary's limit on a
/// stem (65535 bytes).
pub open spec fn entries_fit(es: Seq<(int, Seq<char>)>) -> bool {
    forall|k: int| 0 <= k < es.len() ==> byte_len((#[trigger] es[k]).1) <= 65535
}

/// Every entry of a personal word list is a plain `.dic` line.
pub open spec fn entries_plain(es: Seq<(int, Seq<char>)>) -> bool {
    forall|k: int| 0 <= k < es.len() ==> plain_dic_line((#[trigger] es[k]).1)
}

proof fn lemma_entry_stems_push(es: Seq<(int, Seq<char>)>, i: int, ignored: Set<char>)
    requires
        0 <= i < es.len(),
    ensures
        entry_stems(es.take(i + 1), ignored) == entry_stems(es.take(i), ignored).insert(
            without_ignored(es[i].1, ignored),
        ),
{
    assert(es.take(i + 1).drop_last() =~= es.take(i));
}

/// Add every entry of the personal word list at `path`, whose contents are
/// `text`, to the dictionary, in order, stopping at the first entry it
/// refuses. Plain entries (all the words this program writes there) are
/// never refused, and each adds its stem; a refusal names the line.
pub fn add_personal_words(dict: &mut spellbook::Dictionary, path: &str, text: &str) -> (r: Result<(), String>)
    requires
        entries_fit(personal_entries(lines_of(text@))),
    ensures
        ({
            let es = personal_entries(lines_of(text@));
            let ig = ignored_chars(*old(dict));
            &&& ignored_chars(*final(dict)) == ig
            &&& dictionary_stems(*old(dict)).subset_of(dictionary_stems(*final(dict)))
            &&& entries_plain(es) ==> r is Ok && dictionary_stems(*final(dict)) == dictionary_stems(
                *old(dict),
            ).union(entry_stems(es, ig))
            &&& r is Ok ==> forall|k: int|
                0 <= k < es.len() && plain_dic_line((#[trigger] es[k]).1) ==> dictionary_stems(
                    *final(dict),
                ).contains(without_ignored(es[k].1, ig))
            &&& r matches Err(e) ==> exists|k: int|
                #![trigger es[k]]
                0 <= k < es.len() && !plain_dic_line(es[k].1) && starts_with_seq(
                    e@,
                    bad_entry_prefix(path@, es[k].0),
                ) && forall|j: int|
                    0 <= j < k && plain_dic_line((#[trigger] es[j]).1) ==> dictionary_stems(
                        *final(dict),
                    ).contains(without_ignored(es[j].1, ig))
        }),
{
    let entries = personal_words(text);
    let ghost es = personal_entries(lines_of(text@));
    let ghost ig = ignored_chars(*dict);
    let ghost s0 = dictionary_stems(*dict);
    let mut failure: Option<String> = None;
    let mut i: usize = 0;
    while i < entries.len()
        invariant_except_break
            failure is None,
        invariant
            numbered_views(entries@) == es,
            es == personal_entries(lines_of(text@)),
            entries_fit(es),
            i <= entries@.len(),
            ignored_chars(*dict) == ig,
            s0.subset_of(dictionary_stems(*dict)),
            entries_plain(es.take(i as int)) ==> dictionary_stems(*dict) == s0.union(
                entry_stems(es.take(i as int), ig),
            ),
            forall|j: int|
                0 <= j < i && plain_dic_line((#[trigger] es[j]).1) ==> dictionary_stems(*dict).contains(
                    without_ignored(es[j].1, ig),
                ),
        ensures
            failure is None ==> i == entries@.len(),
            failure matches Some(e) ==> i < entries@.len() && !plain_dic_line(es[i as int].1)
                && starts_with_seq(e@, bad_entry_prefix(path@, es[i as int].0)),
        decreases entries@.len() - i,
    {
        let line = entries[i].0;
        assert(es[i as int] == (line as int, entries@[i as int].1@));
        match dictionary_add(dict, entries[i].1.as_str()) {
            Ok(()) => {
                proof {
                    lemma_entry_stems_push(es, i as int, ig);
                    if entries_plain(es.take(i + 1)) {
                        assert(es.take(i + 1)[i as int] == es[i as int]);
                        assert(entries_plain(es.take(i as int))) by {
                            assert forall|k: int| 0 <= k < i implies plain_dic_line(
                                (#[trigger] es.take(i as int)[k]).1,
                            ) by {
                                assert(es.take(i as int)[k] == es.take(i + 1)[k]);
                            }
                        }
                        assert(dictionary_stems(*dict) =~= s0.union(entry_stems(es.take(i + 1), ig)));
                    }
                }
                i = i + 1;
            },
            Err(reason) => {
                proof {
                    reveal_strlit("invalid personal dictionary entry at ");
                    reveal_strlit(":");
                    reveal_strlit(": ");
                }
                let a = concat("invalid personal dictionary entry at ", path);
                let b = concat(a.as_str(), ":");
                let n = usize_decimal(line);
                let c = concat(b.as_str(), n.as_str());
                let d = concat(c.as_str(), ": ");
                let e = concat(d.as_str(), reason.as_str());
                assert(d@ == bad_entry_prefix(path@, es[i as int].0));
                assert(e@.take(d@.len() as int) =~= d@);
                failure = Some(e);
                break;
            },
        }
    }
    proof {
        assert(es.take(es.len() as int) =~= es);
        if entries_plain(es) {
            if let Some(_) = failure {
                assert(plain_dic_line(es[i as int].1));
            }
        }
    }
    match failure {
        Some(e) => Err(e),
        None => Ok(()),
    }
}

/// The start of the message for a dictionary pair that does not parse; the
/// parser's reason follows.
pub open spec fn unparsable_prefix(aff_path: Seq<char>) -> Seq<char> {
    "could not parse "@ + aff_path + ": "@
}

/// The dictionary read from the texts `aff` and `dic` of a Hunspell pair
/// (the `.aff` file at `aff_path`), with the entries of the personal word
/// list `personal` (its path and text), when there is one, added.
pub fn dictionary_from_texts(aff_path: &str, aff: &str, dic: &str, personal: Option<(&str, &str)>) -> (r:
    Result<spellbook::Dictionary, String>)
    requires
        personal matches Some((_, t)) ==> entries_fit(personal_entries(lines_of(t@))),
    ensures
        parsed_dictionary(aff@, dic@) is None ==> (r matches Err(e) && starts_with_seq(
            e@,
            unparsable_prefix(aff_path@),
        )),
        r is Ok ==> parsed_dictionary(aff@, dic@) is Some,
        parsed_dictionary(aff@, dic@) is Some && personal is None ==> (r matches Ok(d) && Some(
            accepted_words(d),
        ) == parsed_dictionary(aff@, dic@)),
        parsed_dictionary(aff@, dic@) is Some && (personal matches Some((_, t)) && entries_plain(
            personal_entries(lines_of(t@)),
        )) ==> r is Ok,
        personal matches Some((_, t)) ==> (r matches Ok(d) ==> forall|k: int|
            0 <= k < personal_entries(lines_of(t@)).len() && plain_dic_line(
                (#[trigger] personal_entries(lines_of(t@))[k]).1,
            ) ==> dictionary_stems(d).contains(
                without_ignored(personal_entries(lines_of(t@))[k].1, ignored_chars(d)),
            )),
{
    let mut dict = match parse_dictionary(aff, dic) {
        Ok(d) => d,
        Err(reason) => {
            proof {
                reveal_strlit("could not parse ");
                reveal_strlit(": ");
            }
            let a = concat("could not parse ", aff_path);
            let b = concat(a.as_str(), ": ");
            let e = concat(b.as_str(), reason.as_str());
            assert(e@.take(b@.len() as int) =~= b@);
            return Err(e);
        },
    };
    match personal {
        None => Ok(dict),
        Some((path, text)) => match add_personal_words(&mut dict, path, text) {
            Ok(()) => Ok(dict),
            Err(e) => Err(e),
        },
    }
}

/// The UAX#29 words of a line and their byte offsets, as
/// `unicode_word_indices` yields them.
pub uninterp spec fn word_segments(line: Seq<char>) -> Seq<(usize, Seq<char>)>;

/// Segment list with each word taken by its characters.
pub open spec fn segments_view(v: Seq<(usize, String)>) -> Seq<(usize, Seq<char>)> {
    v.map_values(|x: (usize, String)| (x.0, x.1@))
}

/// Segment `(b, w)` is `w` found in `line` at byte offset `b`.
pub open spec fn segment_in_line(line: Seq<char>, b: int, w: Seq<char>) -> bool {
    exists|k: int|
        0 <= k && k + w.len() <= line.len() && byte_offset(line, k) == b && line.subrange(
            k,
            k + w.len(),
        ) == w
}

/// `unicode_word_indices`: the words of `line` on UAX#29 word boundaries
/// (substrings holding a letter or a number), each with its byte offset. The
/// segmentation is the crate's; each word is the substring of `line` at its
/// offset.
#[verifier::external_body]
fn word_indices(line: &str) -> (r: Vec<(usize, String)>)
    ensures
        segments_view(r@) == word_segments(line@),
        forall|t: int| 0 <= t < r@.len() ==> segment_in_line(line@, r@[t].0 as int, (#[trigger] r@[t]).1@),
{
    line.unicode_word_indices().map(|(i, w)| (i, w.to_string())).collect()
}

/// An issue as plain values.
pub open spec fn issue_view(x: SpellIssue) -> ((int, int), (int, int), Seq<char>) {
    ((x.start.0 as int, x.start.1 as int), (x.end.0 as int, x.end.1 as int), x.word@)
}

pub open spec fn issues_view(v: Seq<SpellIssue>) -> Seq<((int, int), (int, int), Seq<char>)> {
    v.map_values(|x: SpellIssue| issue_view(x))
}

/// The word `w` at byte `b` of `line` is reported: it is a candidate, not in
/// a non-prose token, and not accepted.
pub open spec fn flagged(line: Seq<char>, b: int, w: Seq<char>, accepted: bool) -> bool {
    candidate(w) && !ignored(line, b, b + byte_len(w)) && !accepted
}

/// The issues of line `li` given its word segments and, for each, whether
/// the dictionary accepts it.
pub open spec fn line_issues(
    li: int,
    line: Seq<char>,
    segs: Seq<(usize, Seq<char>)>,
    accepted: Seq<bool>,
) -> Seq<((int, int), (int, int), Seq<char>)>
    decreases segs.len(),
{
    if segs.len() == 0 {
        Seq::empty()
    } else {
        let rest = line_issues(li, line, segs.drop_last(), accepted);
        let b = segs.last().0 as int;
        let w = segs.last().1;
        if flagged(line, b, w, accepted[segs.len() - 1]) {
            rest.push(((li, b), (li, b + byte_len(w)), w))
        } else {
            rest
        }
    }
}

proof fn lemma_offset_after(s: Seq<char>, k: int, m: int)
    requires
        0 <= k,
        0 <= m,
        k + m <= s.len(),
    ensures
        byte_offset(s, k + m) == byte_offset(s, k) + byte_len(s.subrange(k, k + m)),
{
    lemma_encode_concat(s.take(k), s.subrange(k, k + m));
    assert(s.take(k + m) =~= s.take(k) + s.subrange(k, k + m));
}

/// The issues of line `li` (holding `line`), given its word segments and,
/// for each segment, whether the dictionary accepts the word.
pub fn line_issues_from(
    li: usize,
    line: &str,
    segments: &[(usize, String)],
    accepted: &[bool],
) -> (r: Vec<SpellIssue>)
    requires
        accepted@.len() == segments@.len(),
        forall|t: int|
            0 <= t < segments@.len() ==> segment_in_line(
                line@,
                segments@[t].0 as int,
                (#[trigger] segments@[t]).1@,
            ),
    ensures
        issues_view(r@) == line_issues(li as int, line@, segments_view(segments@), accepted@),
{
    let total = str_byte_len(line);
    let mut r: Vec<SpellIssue> = Vec::new();
    let mut t: usize = 0;
    while t < segments.len()
        invariant
            t <= segments@.len(),
            accepted@.len() == segments@.len(),
            total == byte_len(line@),
            forall|u: int|
                0 <= u < segments@.len() ==> segment_in_line(
                    line@,
                    segments@[u].0 as int,
                    (#[trigger] segments@[u]).1@,
                ),
            issues_view(r@) == line_issues(
                li as int,
                line@,
                segments_view(segments@).take(t as int),
                accepted@,
            ),
        decreases segments@.len() - t,
    {
        let start = segments[t].0;
        let word = &segments[t].1;
        let ghost w = word@;
        let ghost k = choose|k: int|
            0 <= k && k + w.len() <= line@.len() && byte_offset(line@, k) == start
                && line@.subrange(k, k + w.len()) == w;
        assert(segment_in_line(line@, segments@[t as int].0 as int, segments@[t as int].1@));
        proof {
            lemma_offset_after(line@, k, w.len() as int);
            lemma_byte_offset_mono(line@, k + w.len(), line@.len() as int);
            assert(line@.take(line@.len() as int) =~= line@);
        }
        let wl = str_byte_len(word.as_str());
        let end = start + wl;
        let report = is_candidate(word.as_str()) && !is_ignored_context(line, start, end)
            && !accepted[t];
        let ghost before = r@;
        if report {
            r.push(SpellIssue { start: (li, start), end: (li, end), word: word.clone() });
            assert(issues_view(r@) =~= issues_view(before).push(
                ((li as int, start as int), (li as int, end as int), w),
            ));
        }
        proof {
            let segs1 = segments_view(segments@).take(t + 1);
            assert(segs1.drop_last() =~= segments_view(segments@).take(t as int));
            assert(segs1.last() == (start, w));
        }
        t = t + 1;
    }
    assert(segments_view(segments@).take(segments@.len() as int) =~= segments_view(segments@));
    r
}

/// The issues of every piece, line by line.
pub open spec fn text_issues(pieces: Seq<Seq<char>>, accepted: Set<Seq<char>>) -> Seq<
    ((int, int), (int, int), Seq<char>),
>
    decreases pieces.len(),
{
    if pieces.len() == 0 {
        Seq::empty()
    } else {
        let segs = word_segments(pieces.last());
        text_issues(pieces.drop_last(), accepted) + line_issues(
            pieces.len() - 1,
            pieces.last(),
            segs,
            Seq::new(segs.len(), |t: int| accepted.contains(segs[t].1)),
        )
    }
}

/// Return every misspelled prose word as a `(line, byte-column)` span.
pub fn check_text(dictionary: &spellbook::Dictionary, input: &str) -> (r: Vec<SpellIssue>)
    ensures
        issues_view(r@) == text_issues(pieces_on(input@, '\n', 0), accepted_words(*dictionary)),
{
    let cs = chars_of(input);
    let pieces = split_on(cs.as_slice(), '\n');
    let ghost ps = piece_views(pieces@);
    let ghost acc = accepted_words(*dictionary);
    let mut out: Vec<SpellIssue> = Vec::new();
    let mut li: usize = 0;
    while li < pieces.len()
        invariant
            li <= pieces@.len(),
            ps == piece_views(pieces@),
            acc == accepted_words(*dictionary),
            issues_view(out@) == text_issues(ps.take(li as int), acc),
        decreases pieces@.len() - li,
    {
        let line = string_from_chars(pieces[li].as_slice());
        let segments = word_indices(line.as_str());
        let mut accepted: Vec<bool> = Vec::new();
        let mut t: usize = 0;
        while t < segments.len()
            invariant
                t <= segments@.len(),
                accepted@.len() == t,
                acc == accepted_words(*dictionary),
                forall|u: int|
                    0 <= u < t ==> accepted@[u] == acc.contains((#[trigger] segments@[u]).1@),
            decreases segments@.len() - t,
        {
            let a = dictionary_check(dictionary, segments[t].1.as_str());
            accepted.push(a);
            t = t + 1;
        }
        let found = line_issues_from(li, line.as_str(), segments.as_slice(), accepted.as_slice());
        let ghost before = out@;
        let mut f: usize = 0;
        while f < found.len()
            invariant
                f <= found@.len(),
                issues_view(out@) == issues_view(before) + issues_view(found@.take(f as int)),
            decreases found@.len() - f,
        {
            let item = found[f].clone();
            assert(item == found@[f as int]);
            let ghost old_out = out@;
            out.push(item);
            assert(issues_view(out@) =~= issues_view(old_out).push(issue_view(found@[f as int])));
            f = f + 1;
            assert(issues_view(found@.take(f as int)) =~= issues_view(found@.take(f - 1)).push(
                issue_view(found@[f - 1]),
            ));
            assert(issues_view(out@) =~= issues_view(before) + issues_view(found@.take(f as int)));
        }
        proof {
            assert(found@.take(found@.len() as int) =~= found@);
            let segs = word_segments(ps[li as int]);
            assert(accepted@ =~= Seq::new(segs.len(), |u: int| acc.contains(segs[u].1)));
            let p1 = ps.take(li + 1);
            assert(p1.drop_last() =~= ps.take(li as int));
            assert(p1.last() == ps[li as int]);
        }
        li = li + 1;
    }
    assert(ps.take(ps.len() as int) =~= ps);
    out
}

// ---------------------------------------------------------------------------
// Dictionary locations
// ---------------------------------------------------------------------------

/// The per-language personal word list inside the application directory
/// `config`: `<config>/dictionaries/<language>.personal`.
pub open spec fn personal_file(config: Seq<char>, language: Seq<char>) -> Seq<char> {
    join_path(join_path(config, "dictionaries"@), language + ".personal"@)
}

/// The personal word list for `language` inside the application directory
/// `config`.
pub fn personal_dictionary_file(config: &str, language: &str) -> (r: String)
    ensures
        r@ == personal_file(config@, language@),
{
    let dir = path_join(config, "dictionaries");
    let name = concat(language, ".personal");
    path_join(dir.as_str(), name.as_str())
}

/// The message for a locale that is not one plain name.
pub open spec fn bad_locale_message() -> Seq<char> {
    "spell language must be one plain locale name"@
}

/// Per-language word list maintained by flow-state. Unlike a Hunspell `.dic`,
/// this is one plain word per line with no count header or affix flags.
pub fn personal_dictionary_path(language: &str) -> (r: Result<String, String>)
    ensures
        !single_plain_name(language@) ==> (r matches Err(e) && e@ == bad_locale_message()),
        single_plain_name(language@) ==> match r {
            Ok(p) => exists|base: Seq<char>|
                p@ == personal_file(join_path(base, "flow-state"@), language@),
            Err(e) => e@ == "no config directory"@,
        },
{
    let cs = chars_of(language);
    if !is_single_plain_name(cs.as_slice()) {
        return Err(String::from_str("spell language must be one plain locale name"));
    }
    match config_dir() {
        None => Err(String::from_str("no config directory")),
        Some(dir) => Ok(personal_dictionary_file(dir.as_str(), language)),
    }
}

/// The `.aff`/`.dic` pair for a dictionary basename.
pub open spec fn aff_dic(base: Seq<char>) -> (Seq<char>, Seq<char>) {
    (extension_replaced(base, "aff"@), extension_replaced(base, "dic"@))
}

/// The system directories searched for Hunspell dictionaries.
pub open spec fn system_dirs() -> Seq<Seq<char>> {
    seq!["/usr/share/hunspell"@, "/usr/share/myspell"@, "/usr/share/myspell/dicts"@]
}

/// Where to look for `<language>.aff/.dic`. A configured path (a folder, an
/// `.aff`/`.dic` file, or a basename) is the only candidate; otherwise the
/// application's `dictionaries` folder (when `config` is known) and then the
/// system Hunspell folders are searched.
pub open spec fn candidates(
    language: Seq<char>,
    configured: Seq<char>,
    configured_is_dir: bool,
    config: Option<Seq<char>>,
) -> Seq<(Seq<char>, Seq<char>)> {
    let path = trimmed(configured);
    if path.len() > 0 {
        let base = if configured_is_dir {
            join_path(path, language)
        } else if extension_of(path) == Some("aff"@) || extension_of(path) == Some("dic"@) {
            extension_replaced(path, ""@)
        } else {
            path
        };
        seq![aff_dic(base)]
    } else {
        let sys = system_dirs().map_values(|d: Seq<char>| aff_dic(join_path(d, language)));
        match config {
            Some(d) => seq![aff_dic(join_path(join_path(d, "dictionaries"@), language))] + sys,
            None => sys,
        }
    }
}

/// Candidate pairs as plain values.
pub open spec fn pairs_view(v: Seq<(String, String)>) -> Seq<(Seq<char>, Seq<char>)> {
    v.map_values(|p: (String, String)| (p.0@, p.1@))
}

fn push_aff_dic(out: &mut Vec<(String, String)>, base: &str)
    ensures
        pairs_view(final(out)@) == pairs_view(old(out)@).push(aff_dic(base@)),
{
    proof {
        reveal_strlit("aff");
        reveal_strlit("dic");
    }
    let aff = with_extension(base, "aff");
    let dic = with_extension(base, "dic");
    let ghost before = out@;
    out.push((aff, dic));
    assert(pairs_view(out@) =~= pairs_view(before).push(aff_dic(base@)));
}

/// Where to look for `<language>.aff/.dic`, given whether the configured
/// path is a folder and the application directory, if there is one.
pub fn dictionary_candidates_in(
    language: &str,
    configured: &str,
    configured_is_dir: bool,
    config: Option<&str>,
) -> (r: Vec<(String, String)>)
    ensures
        pairs_view(r@) == candidates(
            language@,
            configured@,
            configured_is_dir,
            match config {
                Some(d) => Some(d@),
                None => None,
            },
        ),
{
    let mut out: Vec<(String, String)> = Vec::new();
    let path = trim(configured);
    if !path.as_str().is_empty() {
        let base = if configured_is_dir {
            path_join(path.as_str(), language)
        } else {
            let ext = path_extension(path.as_str());
            let is_dict_file = match &ext {
                Some(e) => str_eq(e.as_str(), "aff") || str_eq(e.as_str(), "dic"),
                None => false,
            };
            if is_dict_file {
                proof {
                    reveal_strlit("");
                }
                with_extension(path.as_str(), "")
            } else {
                path
            }
        };
        push_aff_dic(&mut out, base.as_str());
        assert(pairs_view(out@) =~= seq![aff_dic(base@)]);
        return out;
    }
    if let Some(d) = config {
        let dir = path_join(d, "dictionaries");
        let base = path_join(dir.as_str(), language);
        push_aff_dic(&mut out, base.as_str());
    }
    let ghost head = pairs_view(out@);
    let b1 = path_join("/usr/share/hunspell", language);
    push_aff_dic(&mut out, b1.as_str());
    let b2 = path_join("/usr/share/myspell", language);
    push_aff_dic(&mut out, b2.as_str());
    let b3 = path_join("/usr/share/myspell/dicts", language);
    push_aff_dic(&mut out, b3.as_str());
    proof {
        let sys = system_dirs().map_values(|d: Seq<char>| aff_dic(join_path(d, language@)));
        assert(pairs_view(out@) =~= head + sys);
    }
    out
}

/// Where to look for `<language>.aff/.dic`. `configured_is_dir` tells
/// whether the (trimmed) configured path names an existing folder.
pub fn dictionary_candidates(language: &str, configured: &str, configured_is_dir: bool) -> (r: Vec<
    (String, String),
>)
    ensures
        exists|config: Option<Seq<char>>|
            pairs_view(r@) == candidates(language@, configured@, configured_is_dir, config),
{
    match config_dir() {
        Some(d) => dictionary_candidates_in(language, configured, configured_is_dir, Some(d.as_str())),
        None => dictionary_candidates_in(language, configured, configured_is_dir, None),
    }
}

// ---------------------------------------------------------------------------
// Personal word list
// ---------------------------------------------------------------------------

/// The message for a word too short (or not prose) to keep.
pub open spec fn not_a_word_message() -> Seq<char> {
    "personal dictionary words must contain at least two letters"@
}

/// What saving `word` appends to a personal word list that holds
/// `existing`: nothing when the (trimmed) word already has a line of its own;
/// otherwise the word on a line of its own, after a line break when the list
/// does not end with one. Words that are no prose are refused.
pub open spec fn personal_append(existing: Seq<char>, word: Seq<char>) -> Result<
    Option<Seq<char>>,
    Seq<char>,
> {
    let w = trimmed(word);
    if !candidate(w) {
        Err(not_a_word_message())
    } else if exists|i: int| 0 <= i < lines_of(existing).len() && trimmed(#[trigger] lines_of(existing)[i]) == w {
        Ok(None)
    } else if existing.len() > 0 && existing.last() != '\n' {
        Ok(Some(seq!['\n'] + w + seq!['\n']))
    } else {
        Ok(Some(w + seq!['\n']))
    }
}

/// The text to append to a personal word list holding `existing` so that it
/// keeps `word` once (`Ok(None)`: already there).
pub fn personal_word_append(existing: &str, word: &str) -> (r: Result<Option<String>, String>)
    ensures
        match personal_append(existing@, word@) {
            Err(e) => r matches Err(m) && m@ == e,
            Ok(None) => r matches Ok(None),
            Ok(Some(t)) => r matches Ok(Some(u)) && u@ == t,
        },
{
    let w = trim(word);
    if !is_candidate(w.as_str()) {
        return Err("personal dictionary words must contain at least two letters".to_string());
    }
    let wc = chars_of(w.as_str());
    let ec = chars_of(existing);
    let lines = split_lines(ec.as_slice());
    let ghost ls = lines_of(existing@);
    let mut i: usize = 0;
    while i < lines.len()
        invariant
            i <= lines@.len(),
            line_views(lines@) == ls,
            ls == lines_of(existing@),
            wc@ == w@,
            w@ == trimmed(word@),
            candidate(w@),
            forall|k: int| 0 <= k < i ==> trimmed(#[trigger] ls[k]) != wc@,
        decreases lines@.len() - i,
    {
        let t = trim_chars(lines[i].as_slice());
        assert(ls[i as int] == lines@[i as int]@);
        if chars_eq(t.as_slice(), wc.as_slice()) {
            assert(trimmed(lines_of(existing@)[i as int]) == trimmed(word@));
            return Ok(None);
        }
        i = i + 1;
    }
    let mut out = String::new();
    if ec.len() > 0 && ec[ec.len() - 1] != '\n' {
        out = "\n".to_string();
        proof {
            reveal_strlit("\n");
        }
    }
    let with_word = concat(out.as_str(), w.as_str());
    proof {
        reveal_strlit("\n");
    }
    let line = concat(with_word.as_str(), "\n");
    Ok(Some(line))
}

/// Saving a word appends a line holding just that word, so saving the same
/// word again adds nothing: personal words are kept once.
pub proof fn law_personal_word_kept_once(existing: Seq<char>, word: Seq<char>, t: Seq<char>)
    requires
        personal_append(existing, word) == Ok::<Option<Seq<char>>, Seq<char>>(Some(t)),
        forall|i: int| 0 <= i < trimmed(word).len() ==> trimmed(word)[i] != '\n',
    ensures
        personal_append(existing + t, word) == Ok::<Option<Seq<char>>, Seq<char>>(None),
{
    let w = trimmed(word);
    crate::strings::lemma_trimmed_idempotent(word);
    let pre: Seq<char> = if existing.len() > 0 && existing.last() != '\n' {
        seq!['\n']
    } else {
        seq![]
    };
    assert(candidate(w));
    assert(w.len() >= 2);
    assert(t == pre + w + seq!['\n']);
    let s = existing + t;
    let p: int = (existing.len() + pre.len()) as int;
    assert forall|k: int| 0 <= k < w.len() implies s[p + k] == w[k] && w[k] != '\n' by {
        assert(s[p + k] == t[pre.len() + k]);
    }
    assert(!is_ws(w.last()));
    if p > 0 {
        if pre.len() > 0 {
            assert(s[p - 1] == '\n');
        } else {
            assert(s[p - 1] == existing.last());
        }
    }
    crate::latex::lemma_last_line_listed(s, p, w);
    let ls = lines_of(s);
    let i = choose|i: int| 0 <= i < ls.len() && ls[i] == w;
    assert(trimmed(ls[i]) == w);
}

/// The words of a personal word list, one per non-blank line, trimmed, with
/// their 1-based line numbers.
pub open spec fn personal_entries(ls: Seq<Seq<char>>) -> Seq<(int, Seq<char>)>
    decreases ls.len(),
{
    if ls.len() == 0 {
        Seq::empty()
    } else {
        let rest = personal_entries(ls.drop_last());
        let w = trimmed(ls.last());
        if w.len() == 0 {
            rest
        } else {
            rest.push((ls.len() as int, w))
        }
    }
}

/// Numbered entries as plain values.
pub open spec fn numbered_views(v: Seq<(usize, String)>) -> Seq<(int, Seq<char>)> {
    v.map_values(|e: (usize, String)| (e.0 as int, e.1@))
}

/// The words to add from a personal word list with contents `text`.
pub fn personal_words(text: &str) -> (r: Vec<(usize, String)>)
    ensures
        numbered_views(r@) == personal_entries(lines_of(text@)),
{
    let cs = chars_of(text);
    let lines = split_lines(cs.as_slice());
    let ghost ls = lines_of(text@);
    let mut out: Vec<(usize, String)> = Vec::new();
    let mut i: usize = 0;
    while i < lines.len()
        invariant
            i <= lines@.len(),
            line_views(lines@) == ls,
            numbered_views(out@) == personal_entries(ls.take(i as int)),
        decreases lines@.len() - i,
    {
        assert(ls.take(i + 1).drop_last() =~= ls.take(i as int));
        assert(ls.take(i + 1).last() == lines@[i as int]@);
        let t = trim_chars(lines[i].as_slice());
        if t.len() > 0 {
            let ghost prev = out@;
            let word = string_from_chars(t.as_slice());
            out.push((i + 1, word));
            assert(numbered_views(out@) =~= numbered_views(prev).push(((i + 1) as int, t@)));
        }
        i = i + 1;
    }
    assert(ls.take(lines@.len() as int) =~= ls);
    out
}

/// `parts` joined with `", "` between them.
pub open spec fn comma_list(parts: Seq<Seq<char>>) -> Seq<char>
    decreases parts.len(),
{
    if parts.len() == 0 {
        Seq::empty()
    } else if parts.len() == 1 {
        parts[0]
    } else {
        comma_list(parts.drop_last()) + ", "@ + parts.last()
    }
}

/// The message when no dictionary file could be found: names the configured
/// path (or the language) and lists every `.aff` file tried.
pub open spec fn missing_dictionary(language: Seq<char>, configured: Seq<char>, attempted: Seq<Seq<char>>) -> Seq<char> {
    let qualifier = if trimmed(configured).len() > 0 {
        "configured"@
    } else {
        language
    };
    "no "@ + qualifier + " Hunspell dictionary found (tried "@ + comma_list(attempted) + ")"@
}

/// The error for a dictionary search that found nothing.
pub fn missing_dictionary_message(language: &str, configured: &str, attempted: &Vec<String>) -> (r: String)
    ensures
        r@ == missing_dictionary(language@, configured@, crate::strings::string_views(attempted@)),
{
    let ghost parts = crate::strings::string_views(attempted@);
    let mut list = String::new();
    let mut i: usize = 0;
    while i < attempted.len()
        invariant
            i <= attempted@.len(),
            parts == crate::strings::string_views(attempted@),
            list@ == comma_list(parts.take(i as int)),
        decreases attempted@.len() - i,
    {
        assert(parts.take(i + 1).drop_last() =~= parts.take(i as int));
        if i == 0 {
            list = attempted[0].clone();
            assert(list@ =~= comma_list(parts.take(1)));
        } else {
            let sep = concat(list.as_str(), ", ");
            list = concat(sep.as_str(), attempted[i].as_str());
        }
        i = i + 1;
    }
    assert(parts.take(attempted@.len() as int) =~= parts);
    let explicit = !trim(configured).as_str().is_empty();
    let qualifier = if explicit {
        "configured".to_string()
    } else {
        language.to_string()
    };
    let a = concat("no ", qualifier.as_str());
    let b = concat(a.as_str(), " Hunspell dictionary found (tried ");
    let c = concat(b.as_str(), list.as_str());
    concat(c.as_str(), ")")
}

/// The status line once a dictionary loaded from `aff_path`: its file stem
/// names it (else the language).
pub fn dictionary_ready_status(aff_path: &str, language: &str) -> (r: String)
    ensures
        r@ == "spell checking ready ("@ + (match crate::paths::file_stem_of(aff_path@) {
            Some(n) => n,
            None => language@,
        }) + ")"@,
{
    let name = match crate::paths::path_file_stem(aff_path) {
        Some(n) => n,
        None => language.to_string(),
    };
    let a = concat("spell checking ready (", name.as_str());
    concat(a.as_str(), ")")
}

} // verus!
