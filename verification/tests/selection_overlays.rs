use flow_state::commands::{
    compiler_options, esc_action, filtered_commands, find_toggle, font_options,
    opens_help, step_selection, theme_options, toggled_fullscreen, Command, EscAction, FindToggle,
    Layers, MenuLevel, Picker,
};
use flow_state::overlays::{
    check_replacement, correction_step, CorrectionStep, ReplacementError, Search, SpellCorrection,
};
use flow_state::selection::{selection_span, slice, EditorCursor, SelectionFormat, TextSelection};
use flow_state::spell::SpellIssue;

#[test]
fn markdown_formats_wrap_without_changing_the_text() {
    assert_eq!(SelectionFormat::Bold.apply("quiet"), "**quiet**");
    assert_eq!(SelectionFormat::Italic.apply("quiet"), "*quiet*");
    assert_eq!(SelectionFormat::Underline.apply("quiet"), "<u>quiet</u>");
}

#[test]
fn span_uses_the_word_containing_the_click_anchor() {
    let lines = vec!["quiet then quiet".to_string()];
    let cursor = EditorCursor { position: (0, 13), selection: Some((0, 13)) };
    assert_eq!(selection_span(&lines, cursor, "quiet"), Some(((0, 11), (0, 16))));
}

#[test]
fn slice_joins_lines_and_refuses_bad_positions() {
    let lines = vec!["héllo".to_string(), "world".to_string()];
    assert_eq!(slice(&lines, (0, 3), (1, 2)), Some("llo\nwo".to_string()));
    assert_eq!(slice(&lines, (0, 2), (0, 3)), None); // inside 'é'
    assert_eq!(slice(&lines, (1, 2), (0, 3)), None); // reversed
}

#[test]
fn captured_selection_is_current_until_the_text_changes() {
    let lines = vec!["quiet then quiet".to_string()];
    let cursor = EditorCursor { position: (0, 16), selection: Some((0, 11)) };
    let sel = TextSelection::capture(7, &lines, cursor, Some("quiet")).unwrap();
    assert_eq!(sel.document(), 7);
    assert_eq!((sel.start(), sel.end()), ((0, 11), (0, 16)));
    assert_eq!(sel.text(), "quiet");
    assert!(sel.is_current(&lines));
    let edited = vec!["quiet then loud".to_string()];
    assert!(!sel.is_current(&edited));
    assert!(TextSelection::capture(7, &lines, cursor, None).is_none());
    assert!(TextSelection::capture(7, &lines, cursor, Some("")).is_none());
}

#[test]
fn command_filter_is_case_insensitive_substring() {
    assert!(flow_state::commands::matches("Theme — switch color theme", "  THEME "));
    assert!(!flow_state::commands::matches("font", "theme"));
    let all = filtered_commands("");
    assert_eq!(all.len(), 9);
    assert_eq!(filtered_commands("typewriter"), vec![Command::Typewriter]);
    assert_eq!(Command::Help.label(), "help — keybindings (?)");
    assert_eq!(compiler_options("xe"), vec!["xelatex".to_string()]);
    assert_eq!(compiler_options(""), vec!["pdflatex".to_string(), "xelatex".to_string()]);
}

#[test]
fn theme_and_font_options_filter_their_lists() {
    let themes = vec!["(default)".to_string(), "Ferra".to_string(), "Nord".to_string()];
    assert_eq!(theme_options(&themes, "fer"), vec!["Ferra".to_string()]);
    let fonts = vec!["Inter".to_string(), "Iosevka".to_string()];
    assert_eq!(
        font_options(&fonts, ""),
        vec!["(default)".to_string(), "Inter".to_string(), "Iosevka".to_string()]
    );
    assert_eq!(font_options(&fonts, "T"), vec!["(default)".to_string(), "Inter".to_string()]);
    assert_eq!(font_options(&fonts, "os"), vec!["Iosevka".to_string()]);
}

#[test]
fn picker_selection_wraps() {
    assert_eq!(step_selection(0, 3, false), 2);
    assert_eq!(step_selection(2, 3, true), 0);
    assert_eq!(step_selection(1, 3, true), 2);
    let mut p = Picker::default();
    p.step(4, false);
    assert_eq!(p.selected, 3);
    p.set_input("the".to_string());
    assert_eq!(p.selected, 0);
    assert_eq!(p.input, "the");
    assert!(opens_help("?"));
    assert!(!opens_help("help"));
}

#[test]
fn fullscreen_toggles() {
    assert_eq!(toggled_fullscreen(None, 3), Some(3));
    assert_eq!(toggled_fullscreen(Some(3), 3), None);
    assert_eq!(toggled_fullscreen(Some(2), 3), Some(3));
}

#[test]
fn find_toggle_closes_opens_or_waits_for_modals() {
    assert_eq!(find_toggle(true, false), FindToggle::Close);
    assert_eq!(find_toggle(true, true), FindToggle::Close);
    assert_eq!(find_toggle(false, true), FindToggle::Ignore);
    assert_eq!(find_toggle(false, false), FindToggle::Open);
}

#[test]
fn escape_peels_the_innermost_layer_first() {
    let nothing = Layers {
        confirm: false,
        selection_menu: false,
        spell_correction: false,
        open_picker: false,
        sidebar_context: false,
        tex_failure: false,
        search: false,
        fullscreen: false,
        menu: MenuLevel::Closed,
    };
    assert_eq!(esc_action(nothing), EscAction::OpenCommandBar);
    let with_search = Layers { search: true, fullscreen: true, ..nothing };
    assert_eq!(esc_action(with_search), EscAction::CloseSearch);
    let theme_preview = Layers { menu: MenuLevel::Theme, ..nothing };
    assert_eq!(
        esc_action(theme_preview),
        EscAction::BackToCommands { revert_theme: true, revert_font: false }
    );
    let root = Layers { menu: MenuLevel::Commands, ..nothing };
    assert_eq!(esc_action(root), EscAction::CloseCommandBar);
}

#[test]
fn search_selects_the_first_match_at_or_after_the_origin() {
    let mut s = Search::opened((1, 0));
    s.set_matches("ab".to_string(), vec![((0, 0), (0, 2)), ((1, 3), (1, 5)), ((2, 0), (2, 2))]);
    assert_eq!(s.current, Some(1));
    assert_eq!(s.current_span(), Some(((1, 3), (1, 5))));
    s.step(true);
    assert_eq!(s.current, Some(2));
    s.step(true);
    assert_eq!(s.current, Some(0));
    s.step(false);
    assert_eq!(s.current, Some(2));
    // nothing after the origin: wrap to the first match
    let mut t = Search::opened((9, 0));
    t.set_matches("ab".to_string(), vec![((0, 0), (0, 2))]);
    assert_eq!(t.current, Some(0));
    t.set_matches("zz".to_string(), Vec::new());
    assert_eq!(t.current, None);
}

fn issue(line: usize, col: usize, word: &str) -> SpellIssue {
    SpellIssue { start: (line, col), end: (line, col + word.len()), word: word.to_string() }
}

#[test]
fn replacement_is_trimmed_and_must_differ() {
    assert_eq!(check_replacement("  world ", "wurld"), Ok("world".to_string()));
    assert_eq!(check_replacement("   ", "wurld"), Err(ReplacementError::Empty));
    assert_eq!(check_replacement(" wurld", "wurld"), Err(ReplacementError::Unchanged));
    assert_eq!(ReplacementError::Empty.message(), "correction cannot be empty");
    assert_eq!(ReplacementError::Unchanged.message(), "choose or type a different spelling");
}

#[test]
fn correction_chooser_prefills_and_follows_suggestions() {
    let mut c = SpellCorrection::opened(1, 4, issue(0, 6, "wurld"));
    assert_eq!(c.input, "wurld");
    assert!(c.loading);
    c.receive_suggestions(vec!["world".to_string(), "would".to_string()]);
    assert!(!c.loading);
    assert_eq!(c.input, "world");
    c.step(true);
    assert_eq!(c.selected, 1);
    assert_eq!(c.input, "would");
    c.step(true);
    assert_eq!(c.selected, 0);
    let lines = vec!["hello wurld".to_string()];
    assert!(c.still_applies(4, &lines));
    assert!(!c.still_applies(5, &lines));
    assert!(!c.still_applies(4, &vec!["hello world".to_string()]));
}

#[test]
fn correction_key_refuses_jumps_or_opens() {
    let issues = vec![issue(0, 0, "wurld"), issue(1, 6, "wurld")];
    match correction_step(false, true, false, false, &issues, (0, 0)) {
        CorrectionStep::Refused(m) => assert_eq!(m, "spell checking is off — enable it from ESC"),
        other => panic!("unexpected {other:?}"),
    }
    match correction_step(true, false, true, false, &issues, (0, 0)) {
        CorrectionStep::Refused(m) => assert_eq!(m, "spell dictionary is still loading"),
        other => panic!("unexpected {other:?}"),
    }
    match correction_step(true, false, false, false, &issues, (0, 0)) {
        CorrectionStep::Refused(m) => assert_eq!(m, "spell dictionary unavailable"),
        other => panic!("unexpected {other:?}"),
    }
    match correction_step(true, true, false, true, &issues, (0, 0)) {
        CorrectionStep::Refused(m) => {
            assert_eq!(m, "finish or discard the phantom before correcting spelling")
        }
        other => panic!("unexpected {other:?}"),
    }
    match correction_step(true, true, false, false, &issues, (0, 3)) {
        CorrectionStep::Open(x) => assert_eq!(x.start, (0, 0)),
        other => panic!("unexpected {other:?}"),
    }
    match correction_step(true, true, false, false, &issues, (0, 9)) {
        CorrectionStep::Jump(x) => assert_eq!(x.start, (1, 6)),
        other => panic!("unexpected {other:?}"),
    }
    match correction_step(true, true, false, false, &[], (0, 9)) {
        CorrectionStep::Refused(m) => assert_eq!(m, "no misspellings in this document"),
        other => panic!("unexpected {other:?}"),
    }
}
