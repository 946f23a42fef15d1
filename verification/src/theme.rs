//! Theme colors: the surfaces the interface paints, resolved from a theme in
//! halloy's surface-oriented format, with a neutral dark fallback for every
//! surface a theme leaves unset.

use vstd::prelude::*;

use crate::config::BUILTIN_THEME;
use crate::paths::{extension_of, file_stem_of, path_extension, path_file_stem};
use crate::strings::{
    concat, sorted_unique, str_eq, string_from_chars, string_views, strictly_sorted,
};
use crate::text::{byte_len, byte_offset, char_width, chars_of, lemma_byte_offset_full, lemma_byte_offset_step, utf8_width};

verus! {

/// An sRGB color with 8-bit channels and alpha.
#[derive(Debug, Clone, Copy, PartialEq, Eq, Structural)]
pub struct Rgba {
    pub r: u8,
    pub g: u8,
    pub b: u8,
    pub a: u8,
}

/// The opaque color `0xRRGGBB`.
pub open spec fn rgb_spec(hex: u32) -> Rgba {
    Rgba { r: ((hex / 0x10000) % 0x100) as u8, g: ((hex / 0x100) % 0x100) as u8, b: (hex % 0x100) as u8, a: 255 }
}

/// The opaque color written `0xRRGGBB`.
pub fn rgb(hex: u32) -> (c: Rgba)
    ensures
        c == rgb_spec(hex),
{
    let r = (hex >> 16) & 0xff;
    let g = (hex >> 8) & 0xff;
    let b = hex & 0xff;
    assert(r == (hex / 0x10000) % 0x100) by (bit_vector)
        requires
            r == (hex >> 16) & 0xff,
    ;
    assert(g == (hex / 0x100) % 0x100) by (bit_vector)
        requires
            g == (hex >> 8) & 0xff,
    ;
    assert(b == hex % 0x100) by (bit_vector)
        requires
            b == hex & 0xff,
    ;
    Rgba { r: r as u8, g: g as u8, b: b as u8, a: 255 }
}

/// The colors the interface's widgets use.
#[derive(Debug, Clone, Copy, PartialEq, Eq, Structural)]
pub struct Theme {
    /// Writing canvas background (`buffer.background`).
    pub background: Rgba,
    /// Main text, the active paragraph (`text.primary`).
    pub text: Rgba,
    /// Dimmed paragraphs, hints, inactive chrome (`text.secondary`).
    pub text_inactive: Rgba,
    /// Chrome background: sidebar, title bars, status bar
    /// (`general.background`).
    pub surface: Rgba,
    /// Muted text on chrome (`text.secondary`).
    pub surface_text: Rgba,
    /// Focus highlights and the active sidebar entry.
    pub accent: Rgba,
    /// Pane and card borders (`general.border`).
    pub border: Rgba,
    /// Success (`text.success`).
    pub success: Rgba,
    /// Warning (`text.warning`).
    pub warning: Rgba,
    /// Error / danger (`text.error`).
    pub danger: Rgba,
}

/// The neutral dark theme that fills any surface a theme leaves unset.
pub open spec fn fallback_spec() -> Theme {
    Theme {
        background: rgb_spec(0x1e1e1e),
        text: rgb_spec(0xd4d4d4),
        text_inactive: rgb_spec(0x6b6b6b),
        surface: rgb_spec(0x161616),
        surface_text: rgb_spec(0xa0a0a0),
        accent: rgb_spec(0x569cd6),
        border: rgb_spec(0x333333),
        success: rgb_spec(0x6a9955),
        warning: rgb_spec(0xd7ba7d),
        danger: rgb_spec(0xf48771),
    }
}

/// The neutral dark theme that fills any surface a theme leaves unset.
pub fn fallback() -> (t: Theme)
    ensures
        t == fallback_spec(),
{
    Theme {
        background: rgb(0x1e1e1e),
        text: rgb(0xd4d4d4),
        text_inactive: rgb(0x6b6b6b),
        surface: rgb(0x161616),
        surface_text: rgb(0xa0a0a0),
        accent: rgb(0x569cd6),
        border: rgb(0x333333),
        success: rgb(0x6a9955),
        warning: rgb(0xd7ba7d),
        danger: rgb(0xf48771),
    }
}

/// The `[general]` group of a theme file.
#[derive(Debug, Clone, Copy, PartialEq, Eq, Structural)]
pub struct General {
    pub background: Option<Rgba>,
    pub border: Option<Rgba>,
    pub unread_indicator: Option<Rgba>,
}

/// The `[text]` group of a theme file.
#[derive(Debug, Clone, Copy, PartialEq, Eq, Structural)]
pub struct Text {
    pub primary: Option<Rgba>,
    pub secondary: Option<Rgba>,
    pub tertiary: Option<Rgba>,
    pub success: Option<Rgba>,
    pub error: Option<Rgba>,
    pub warning: Option<Rgba>,
}

/// The `[buffer]` group of a theme file.
#[derive(Debug, Clone, Copy, PartialEq, Eq, Structural)]
pub struct Buffer {
    pub background: Option<Rgba>,
    pub border_selected: Option<Rgba>,
}

/// The surface groups of a theme file that the interface reads.
#[derive(Debug, Clone, Copy, PartialEq, Eq, Structural)]
pub struct Styles {
    pub general: General,
    pub text: Text,
    pub buffer: Buffer,
}

/// A set color, or `default`.
pub open spec fn or_default(c: Option<Rgba>, default: Rgba) -> Rgba {
    match c {
        Some(x) => x,
        None => default,
    }
}

fn pick(c: Option<Rgba>, default: Rgba) -> (r: Rgba)
    ensures
        r == or_default(c, default),
{
    match c {
        Some(x) => x,
        None => default,
    }
}

/// The theme a file's styles resolve to: each surface from its key, unset
/// ones from [`fallback_spec`]; the accent prefers the unread indicator, then
/// the selected-buffer border, then the tertiary text tone.
pub open spec fn resolved(s: Styles) -> Theme {
    let fb = fallback_spec();
    Theme {
        background: or_default(s.buffer.background, fb.background),
        text: or_default(s.text.primary, fb.text),
        text_inactive: or_default(s.text.secondary, fb.text_inactive),
        surface: or_default(s.general.background, fb.surface),
        surface_text: or_default(s.text.secondary, fb.surface_text),
        accent: or_default(
            s.general.unread_indicator,
            or_default(s.buffer.border_selected, or_default(s.text.tertiary, fb.accent)),
        ),
        border: or_default(s.general.border, fb.border),
        success: or_default(s.text.success, fb.success),
        warning: or_default(s.text.warning, fb.warning),
        danger: or_default(s.text.error, fb.danger),
    }
}

impl Styles {
    /// Resolve the file's groups down to the interface's surfaces.
    pub fn to_theme(&self) -> (t: Theme)
        ensures
            t == resolved(*self),
    {
        let fb = fallback();
        Theme {
            background: pick(self.buffer.background, fb.background),
            text: pick(self.text.primary, fb.text),
            text_inactive: pick(self.text.secondary, fb.text_inactive),
            surface: pick(self.general.background, fb.surface),
            surface_text: pick(self.text.secondary, fb.surface_text),
            accent: pick(
                self.general.unread_indicator,
                pick(self.buffer.border_selected, pick(self.text.tertiary, fb.accent)),
            ),
            border: pick(self.general.border, fb.border),
            success: pick(self.text.success, fb.success),
            warning: pick(self.text.warning, fb.warning),
            danger: pick(self.text.error, fb.danger),
        }
    }
}

/// The value of one hexadecimal digit.
pub open spec fn hex_digit(c: char) -> Option<int> {
    if '0' <= c && c <= '9' {
        Some(c as int - '0' as int)
    } else if 'a' <= c && c <= 'f' {
        Some(c as int - 'a' as int + 10)
    } else if 'A' <= c && c <= 'F' {
        Some(c as int - 'A' as int + 10)
    } else {
        None
    }
}

/// What `u8::from_str_radix(_, 16)` reads from the two-character string
/// `ab`: an optional `+` sign followed by hexadecimal digits only.
pub open spec fn radix16_two(a: char, b: char) -> Option<u8> {
    if a == '+' {
        match hex_digit(b) {
            Some(d) => Some(d as u8),
            None => None,
        }
    } else {
        match (hex_digit(a), hex_digit(b)) {
            (Some(x), Some(y)) => Some((x * 16 + y) as u8),
            _ => None,
        }
    }
}

/// `u8::from_str_radix(s, 16)` on a two-character string: documented to
/// accept an optional `+` followed by digits of the radix (either case),
/// and to fail on anything else; two hexadecimal digits always fit a `u8`.
#[verifier::external_body]
fn parse_hex_pair(s: &str) -> (r: Option<u8>)
    requires
        s@.len() == 2,
    ensures
        r == radix16_two(s@[0], s@[1]),
{
    u8::from_str_radix(s, 16).ok()
}

fn hex_pair(a: char, b: char) -> (r: Option<u8>)
    ensures
        r == radix16_two(a, b),
{
    let mut v: Vec<char> = Vec::new();
    v.push(a);
    v.push(b);
    let s = string_from_chars(v.as_slice());
    assert(s@[0] == a && s@[1] == b);
    parse_hex_pair(s.as_str())
}

/// Every character of `h` is a single byte (ASCII).
pub open spec fn single_bytes(h: Seq<char>) -> bool {
    forall|j: int| 0 <= j < h.len() ==> char_width(#[trigger] h[j]) == 1
}

/// Byte offset `b` of `h` falls between characters.
pub open spec fn byte_boundary(h: Seq<char>, b: int) -> bool {
    exists|k: int| 0 <= k <= h.len() && byte_offset(h, k) == b
}

/// The color written `#rrggbb` or `#rrggbbaa` (two hexadecimal digits per
/// channel, an optional `+` allowed before a digit, alpha 255 when absent).
/// The digits are taken two bytes at a time, so text with a character
/// outside ASCII never reads as a color.
pub open spec fn hex_color(s: Seq<char>) -> Option<Rgba> {
    if s.len() == 0 || s[0] != '#' {
        None
    } else {
        let h = s.drop_first();
        let n = byte_len(h);
        if n != 6 && n != 8 {
            None
        } else if !single_bytes(h) {
            None
        } else {
            match (radix16_two(h[0], h[1]), radix16_two(h[2], h[3]), radix16_two(h[4], h[5])) {
                (Some(r), Some(g), Some(b)) => if n == 8 {
                    match radix16_two(h[6], h[7]) {
                        Some(a) => Some(Rgba { r, g, b, a }),
                        None => None,
                    }
                } else {
                    Some(Rgba { r, g, b, a: 255 })
                },
                _ => None,
            }
        }
    }
}

/// The two-byte slices of the digits fall on character boundaries as far
/// as they are read (a slice that splits a character is not text).
pub open spec fn hex_slices_whole(s: Seq<char>) -> bool {
    let h = s.drop_first();
    (s.len() > 0 && s[0] == '#' && (byte_len(h) == 6 || byte_len(h) == 8)) ==> {
        &&& byte_boundary(h, 2)
        &&& radix16_two(h[0], h[1]) is Some ==> byte_boundary(h, 4)
        &&& radix16_two(h[0], h[1]) is Some && radix16_two(h[2], h[3]) is Some ==> byte_boundary(h, 6)
    }
}

proof fn lemma_single_bytes_len(h: Seq<char>, k: int)
    requires
        single_bytes(h),
        0 <= k <= h.len(),
    ensures
        byte_offset(h, k) == k,
    decreases k,
{
    if k > 0 {
        lemma_single_bytes_len(h, k - 1);
        lemma_byte_offset_step(h, k - 1);
    } else {
        assert(h.take(0) =~= Seq::<char>::empty());
    }
}

/// Parse `#rrggbb` or `#rrggbbaa`.
pub fn hex_to_color(hex: &str) -> (r: Option<Rgba>)
    requires
        hex_slices_whole(hex@),
    ensures
        r == hex_color(hex@),
{
    let cs = chars_of(hex);
    if cs.len() == 0 || cs[0] != '#' {
        return None;
    }
    let ghost h = cs@.drop_first();
    let mut single = true;
    let mut k: usize = 1;
    while k < cs.len()
        invariant
            1 <= k <= cs@.len(),
            h == cs@.drop_first(),
            single == (forall|j: int| 0 <= j < k - 1 ==> char_width(#[trigger] h[j]) == 1),
        decreases cs@.len() - k,
    {
        if utf8_width(cs[k]) != 1 {
            single = false;
        }
        proof {
            assert(h[k - 1] == cs@[k as int]);
        }
        k = k + 1;
    }
    if !single {
        return None;
    }
    proof {
        lemma_single_bytes_len(h, h.len() as int);
        lemma_byte_offset_full(h);
    }
    let n = cs.len() - 1;
    if n != 6 && n != 8 {
        return None;
    }
    proof {
        assert(forall|j: int| 0 <= j < h.len() ==> h[j] == cs@[j + 1]);
    }
    let r = match hex_pair(cs[1], cs[2]) {
        Some(v) => v,
        None => return None,
    };
    let g = match hex_pair(cs[3], cs[4]) {
        Some(v) => v,
        None => return None,
    };
    let b = match hex_pair(cs[5], cs[6]) {
        Some(v) => v,
        None => return None,
    };
    if n == 8 {
        match hex_pair(cs[7], cs[8]) {
            Some(a) => Some(Rgba { r, g, b, a }),
            None => None,
        }
    } else {
        Some(Rgba { r, g, b, a: 255 })
    }
}

/// What a theme file under the user's themes folder gave for a name.
#[derive(Debug)]
pub enum UserTheme {
    /// No such file.
    Absent,
    /// The file parsed to these styles.
    Loaded(Styles),
    /// The file exists but could not be read or parsed, for this reason.
    Invalid(String),
}

/// The warning for a user theme file that failed to load.
pub open spec fn not_loaded_message(name: Seq<char>, error: Seq<char>) -> Seq<char> {
    "theme '"@ + name + "' not loaded ("@ + error + "); using built-in"@
}

/// The warning for a theme name that names nothing.
pub open spec fn not_found_message(name: Seq<char>) -> Seq<char> {
    "theme '"@ + name + "' not found; using built-in"@
}

/// The theme the switcher's `name` selects, and a warning when it fell back:
/// the empty name and the built-in entry give `default`; otherwise a user
/// theme file of that name wins, then a bundled theme of that name, and
/// anything else falls back to `default` with a warning.
pub fn resolve_theme(name: &str, user: UserTheme, bundled: Option<Theme>, default: Theme) -> (r: (
    Theme,
    Option<String>,
))
    ensures
        (name@.len() == 0 || name@ == BUILTIN_THEME@) ==> r.0 == default && r.1 is None,
        !(name@.len() == 0 || name@ == BUILTIN_THEME@) ==> match user {
            UserTheme::Loaded(s) => r.0 == resolved(s) && r.1 is None,
            UserTheme::Invalid(e) => r.0 == default && (r.1 matches Some(w) && w@
                == not_loaded_message(name@, e@)),
            UserTheme::Absent => match bundled {
                Some(t) => r.0 == t && r.1 is None,
                None => r.0 == default && (r.1 matches Some(w) && w@ == not_found_message(name@)),
            },
        },
{
    if name.is_empty() || str_eq(name, BUILTIN_THEME) {
        return (default, None);
    }
    match user {
        UserTheme::Loaded(s) => (s.to_theme(), None),
        UserTheme::Invalid(e) => {
            let w = concat(
                concat(concat(concat("theme '", name).as_str(), "' not loaded (").as_str(), e.as_str()).as_str(),
                "); using built-in",
            );
            (default, Some(w))
        },
        UserTheme::Absent => match bundled {
            Some(t) => (t, None),
            None => {
                let w = concat(concat("theme '", name).as_str(), "' not found; using built-in");
                (default, Some(w))
            },
        },
    }
}

/// The theme names a user themes folder holding `files` contributes: the
/// stem of each `*.toml` file, in order.
pub open spec fn toml_stems(files: Seq<Seq<char>>) -> Seq<Seq<char>>
    decreases files.len(),
{
    if files.len() == 0 {
        Seq::empty()
    } else {
        let rest = toml_stems(files.drop_last());
        let f = files.last();
        if extension_of(f) == Some("toml"@) {
            match file_stem_of(f) {
                Some(stem) => rest.push(stem),
                None => rest,
            }
        } else {
            rest
        }
    }
}

/// The names the theme switcher offers: the built-in default first, then
/// every bundled theme and every `*.toml` stem among the user's theme
/// `files`, once each, in ascending order.
pub fn theme_names(bundled: &Vec<String>, files: &Vec<String>) -> (r: Vec<String>)
    ensures
        r@.len() >= 1,
        r@[0]@ == BUILTIN_THEME@,
        strictly_sorted(string_views(r@).drop_first()),
        string_views(r@).drop_first().to_set() == (string_views(bundled@) + toml_stems(
            string_views(files@),
        )).to_set(),
{
    let mut all: Vec<String> = Vec::new();
    let mut i: usize = 0;
    while i < bundled.len()
        invariant
            i <= bundled@.len(),
            string_views(all@) == string_views(bundled@).take(i as int),
        decreases bundled@.len() - i,
    {
        let ghost prev = all@;
        let c = bundled[i].clone();
        let ghost cv = c@;
        all.push(c);
        assert(string_views(all@) =~= string_views(prev).push(cv));
        assert(string_views(all@) =~= string_views(bundled@).take(i + 1));
        i = i + 1;
    }
    assert(string_views(bundled@).take(bundled@.len() as int) =~= string_views(bundled@));
    let ghost fv = string_views(files@);
    let ghost base = string_views(all@);
    let mut j: usize = 0;
    while j < files.len()
        invariant
            j <= files@.len(),
            fv == string_views(files@),
            base == string_views(bundled@),
            string_views(all@) == base + toml_stems(fv.take(j as int)),
        decreases files@.len() - j,
    {
        assert(fv.take(j + 1).drop_last() =~= fv.take(j as int));
        assert(fv.take(j + 1).last() == files@[j as int]@);
        let ghost prev = all@;
        let is_toml = match path_extension(files[j].as_str()) {
            Some(e) => str_eq(e.as_str(), "toml"),
            None => false,
        };
        if is_toml {
            match path_file_stem(files[j].as_str()) {
                Some(stem) => {
                    let ghost sv = stem@;
                    all.push(stem);
                    assert(string_views(all@) =~= string_views(prev).push(sv));
                },
                None => {},
            }
        }
        j = j + 1;
    }
    assert(fv.take(files@.len() as int) =~= fv);
    let sorted = sorted_unique(&all);
    let mut out: Vec<String> = Vec::new();
    out.push(BUILTIN_THEME.to_string());
    let mut k: usize = 0;
    while k < sorted.len()
        invariant
            k <= sorted@.len(),
            out@.len() == k + 1,
            out@[0]@ == BUILTIN_THEME@,
            string_views(out@).drop_first() == string_views(sorted@).take(k as int),
        decreases sorted@.len() - k,
    {
        let ghost prev = out@;
        let c = sorted[k].clone();
        out.push(c);
        assert(string_views(out@).drop_first() =~= string_views(sorted@).take(k + 1));
        k = k + 1;
    }
    assert(string_views(sorted@).take(sorted@.len() as int) =~= string_views(sorted@));
    out
}

} // verus!
