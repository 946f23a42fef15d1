use std::cell::RefCell;

use flow_state::config::{watched_files, BUILTIN_THEME};
use flow_state::document::{
    file_text, is_modified, is_pristine, open_with, opened_text, save_with, DocumentStorage, SpellState,
};
use flow_state::spell::SpellIssue;
use flow_state::strings::sorted_unique;
use flow_state::theme::{
    fallback, hex_to_color, resolve_theme, rgb, theme_names, Buffer, General, Rgba, Styles, Text,
    UserTheme,
};

#[test]
fn hex_parses_rgb_and_rgba() {
    assert_eq!(hex_to_color("#010203"), Some(Rgba { r: 1, g: 2, b: 3, a: 255 }));
    assert_eq!(hex_to_color("#01020380"), Some(Rgba { r: 1, g: 2, b: 3, a: 128 }));
    assert_eq!(hex_to_color("010203"), None); // no leading '#'
    assert_eq!(hex_to_color("#xyz"), None);
}

#[test]
fn hex_accepts_either_case_and_a_plus_sign_as_std_does() {
    assert_eq!(hex_to_color("#FFa0Ff"), Some(Rgba { r: 255, g: 160, b: 255, a: 255 }));
    assert_eq!(hex_to_color("#+f0102"), Some(Rgba { r: 15, g: 1, b: 2, a: 255 }));
    assert_eq!(hex_to_color("#0102030"), None); // seven digits
    assert_eq!(hex_to_color("#éé0102"), None); // 6 bytes, not hex
}

fn empty_styles() -> Styles {
    Styles {
        general: General { background: None, border: None, unread_indicator: None },
        text: Text {
            primary: None,
            secondary: None,
            tertiary: None,
            success: None,
            error: None,
            warning: None,
        },
        buffer: Buffer { background: None, border_selected: None },
    }
}

#[test]
fn missing_keys_fall_back_without_blanking() {
    // A theme with only a background set keeps neutral defaults elsewhere
    // ("[buffer]\nbackground = \"#123456\"\n").
    let mut styles = empty_styles();
    styles.buffer.background = hex_to_color("#123456");
    let theme = styles.to_theme();
    assert_eq!(theme.background, rgb(0x123456));
    assert_eq!(theme.text, fallback().text);
    assert_eq!(theme.accent, fallback().accent);
}

#[test]
fn accent_prefers_indicator_then_selected_border_then_tertiary() {
    let mut styles = empty_styles();
    styles.text.tertiary = Some(rgb(0x000003));
    assert_eq!(styles.to_theme().accent, rgb(0x000003));
    styles.buffer.border_selected = Some(rgb(0x000002));
    assert_eq!(styles.to_theme().accent, rgb(0x000002));
    styles.general.unread_indicator = Some(rgb(0x000001));
    assert_eq!(styles.to_theme().accent, rgb(0x000001));
    styles.text.secondary = Some(rgb(0x0000aa));
    let t = styles.to_theme();
    assert_eq!(t.text_inactive, rgb(0x0000aa));
    assert_eq!(t.surface_text, rgb(0x0000aa));
}

#[test]
fn rgb_splits_channels() {
    assert_eq!(rgb(0x569cd6), Rgba { r: 0x56, g: 0x9c, b: 0xd6, a: 255 });
    assert_eq!(fallback().background, Rgba { r: 0x1e, g: 0x1e, b: 0x1e, a: 255 });
}

#[test]
fn release_themes_are_available_without_user_configuration() {
    let bundled = vec!["ferra".to_string(), "catppuccin-mocha".to_string()];
    let options = theme_names(&bundled, &Vec::new());
    assert_eq!(options.first().map(String::as_str), Some(BUILTIN_THEME));
    for name in &bundled {
        assert!(options.iter().any(|option| option == name));
        let found = fallback();
        assert!(resolve_theme(name, UserTheme::Absent, Some(found), fallback()).1.is_none());
    }
}

#[test]
fn theme_list_is_sorted_and_deduplicated_with_user_files() {
    let bundled = vec!["nord".to_string(), "ferra".to_string()];
    let files = vec![
        "/c/themes/zen.toml".to_string(),
        "/c/themes/readme.md".to_string(),
        "/c/themes/ferra.toml".to_string(),
    ];
    assert_eq!(
        theme_names(&bundled, &files),
        vec![
            "(default)".to_string(),
            "ferra".to_string(),
            "nord".to_string(),
            "zen".to_string()
        ]
    );
    assert_eq!(
        sorted_unique(&vec!["b".to_string(), "a".to_string(), "b".to_string()]),
        vec!["a".to_string(), "b".to_string()]
    );
}

#[test]
fn theme_resolution_reports_fallbacks() {
    let default = fallback();
    let (t, w) = resolve_theme("", UserTheme::Absent, None, default);
    assert_eq!(t, default);
    assert!(w.is_none());
    let (t, w) = resolve_theme("(default)", UserTheme::Invalid("x".to_string()), None, default);
    assert_eq!(t, default);
    assert!(w.is_none());
    let (_, w) = resolve_theme("gone", UserTheme::Absent, None, default);
    assert_eq!(w.unwrap(), "theme 'gone' not found; using built-in");
    let (_, w) = resolve_theme("bad", UserTheme::Invalid("parse error".to_string()), None, default);
    assert_eq!(w.unwrap(), "theme 'bad' not loaded (parse error); using built-in");
    let mut styles = empty_styles();
    styles.buffer.background = Some(rgb(0x123456));
    let mut bundled = fallback();
    bundled.background = rgb(0x000001);
    let (t, w) = resolve_theme("mine", UserTheme::Loaded(styles), Some(bundled), default);
    assert_eq!(t.background, rgb(0x123456));
    assert!(w.is_none());
}

#[derive(Default)]
struct MemoryStorage(RefCell<String>);

impl DocumentStorage for MemoryStorage {
    fn read(&self, _path: &str) -> Result<String, String> {
        Ok(self.0.borrow().clone())
    }

    fn write(&self, _path: &str, contents: &str) -> Result<(), String> {
        self.0.replace(contents.to_string());
        Ok(())
    }
}

#[test]
fn persistence_is_replaceable_without_touching_document_behavior() {
    let storage = MemoryStorage(RefCell::new("draft".to_string()));
    let path = "note.md";
    let text = open_with(&storage, path);
    // the writer types '!' at the end of the buffer
    let edited = format!("{text}!");
    save_with(&storage, Some(path), &edited).unwrap();
    assert_eq!(&*storage.0.borrow(), "draft!\n");
}

#[test]
fn saving_needs_a_path_and_ends_files_with_a_newline() {
    let storage = MemoryStorage::default();
    assert_eq!(
        save_with(&storage, None, "x"),
        Err("no filename — create one in the sidebar".to_string())
    );
    assert_eq!(file_text("a\n"), "a\n");
    assert_eq!(file_text(""), "\n");
    assert_eq!(opened_text(Err("missing".to_string())), "");
    assert!(is_modified(true, "a", "a"));
    assert!(is_modified(false, "a", "b"));
    assert!(!is_modified(false, "a", "a"));
}

fn wurld() -> SpellIssue {
    SpellIssue { start: (0, 0), end: (0, 5), word: "wurld".to_string() }
}

#[test]
fn spelling_invalidation_clears_stale_spans_and_waits_for_phantoms() {
    let mut spell = SpellState::new();
    spell.issues.push(wurld());
    let revision = spell.revision;
    spell.invalidate(true, false, 0);
    assert!(spell.issues.is_empty());
    assert_ne!(spell.revision, revision);
    assert!(spell.pending());

    // a phantom is pending
    spell.invalidate(true, true, 0);
    assert!(!spell.pending());
}

#[test]
fn stale_scan_results_are_dropped() {
    let mut spell = SpellState::new();
    spell.invalidate(true, false, 100);
    assert_eq!(spell.begin_scan(150, 100), None); // debounce not over
    let rev = spell.begin_scan(200, 100).unwrap();
    assert_eq!(spell.begin_scan(400, 100), None); // already running
    spell.invalidate(true, false, 250); // the text changed meanwhile
    spell.complete_scan(rev, true, false, vec![wurld()]);
    assert!(spell.issues.is_empty());

    let rev = spell.begin_scan(400, 100).unwrap();
    spell.complete_scan(rev, true, false, vec![wurld(), wurld()]);
    assert_eq!(spell.issues.len(), 2);
    spell.ignore(&wurld());
    assert!(spell.issues.is_empty());

    spell.clear();
    assert!(!spell.pending());
    assert!(spell.issues.is_empty());
}

#[test]
fn only_an_untouched_untitled_buffer_is_pristine() {
    assert!(is_pristine(false, false, ""));
    assert!(is_pristine(false, false, "  \n\t"));
    assert!(!is_pristine(true, false, ""));
    assert!(!is_pristine(false, true, ""));
    assert!(!is_pristine(false, false, " draft "));
}

#[test]
fn the_config_and_the_selected_theme_file_are_watched() {
    assert_eq!(
        watched_files("/home/u/.config/flow-state", "ferra"),
        vec![
            "/home/u/.config/flow-state/config.toml".to_string(),
            "/home/u/.config/flow-state/themes/ferra.toml".to_string(),
        ]
    );
    assert_eq!(
        watched_files("/cfg/", ""),
        vec!["/cfg/config.toml".to_string()]
    );
}
