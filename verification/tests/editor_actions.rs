use flow_state::commands::{
    configured_name, refocus_editor, run_command, Command, CommandOutcome, Menu, Toggles,
};
use flow_state::editing::{
    clip, line_highlights, plan_action, sentence_phantom, undimmed_range, ActionPlan, EditKind,
    EditorAction,
};
use flow_state::keymap::{
    arrow_step, custom_binding, find_shortcut, pane_cycle_shortcut, EditorBinding, Key,
    Modifiers, Step,
};
use flow_state::overlays::{selection_can_spell_correct, window_title, SpellCorrection};
use flow_state::selection::{EditorCursor, TextSelection};
use flow_state::sidebar::{new_file_plan, NewFile};
use flow_state::spell::{dictionary_ready_status, SpellIssue};
use flow_state::text::paragraph_info;
use flow_state::workspace::{close_request, closable, display_name, pane_title, CloseRequest, PaneKind};

fn none() -> Modifiers {
    Modifiers { control: false, shift: false, alt: false, logo: false }
}

#[test]
fn typing_the_phantom_back_fills_it_in() {
    let plan = plan_action(Some("he said"), EditorAction::Edit(EditKind::Insert('h')));
    assert_eq!(
        plan,
        ActionPlan {
            record: None,
            break_run: false,
            discard_phantom: false,
            step_over: true,
            perform: false,
            phantom: Some("e said".to_string()),
            modified: true,
        }
    );
    let last = plan_action(Some("é"), EditorAction::Edit(EditKind::Insert('é')));
    assert_eq!(last.phantom, None);
    assert!(last.step_over);
}

#[test]
fn other_keys_push_or_discard_the_phantom() {
    let typed = plan_action(Some("he"), EditorAction::Edit(EditKind::Insert('x')));
    assert_eq!(typed.record, Some(true));
    assert!(typed.perform && !typed.discard_phantom);
    assert_eq!(typed.phantom, Some("he".to_string()));
    let space = plan_action(Some("he"), EditorAction::Edit(EditKind::Insert(' ')));
    assert_eq!(space.record, Some(false));
    let back = plan_action(Some("he"), EditorAction::Edit(EditKind::Backspace));
    assert_eq!(back.record, Some(false));
    let moved = plan_action(Some("he"), EditorAction::Move);
    assert!(moved.break_run && moved.discard_phantom && moved.perform);
    assert_eq!(moved.phantom, None);
    let other = plan_action(Some("he"), EditorAction::Other);
    assert!(!other.break_run && other.discard_phantom);
}

#[test]
fn without_a_phantom_edits_record_and_moves_break_the_run() {
    let a = plan_action(None, EditorAction::Edit(EditKind::Insert('a')));
    assert_eq!(a.record, Some(true));
    assert!(a.modified && a.perform);
    let enter = plan_action(None, EditorAction::Edit(EditKind::Other));
    assert_eq!(enter.record, Some(false));
    let click = plan_action(None, EditorAction::Click);
    assert!(click.break_run && !click.modified && click.record.is_none());
    let scroll = plan_action(None, EditorAction::Other);
    assert!(!scroll.break_run && scroll.perform && !scroll.modified);
}

#[test]
fn shift_backspace_turns_the_sentence_into_a_phantom() {
    let lines = vec!["First one. Second part here".to_string()];
    assert_eq!(sentence_phantom(&lines, (0, 27)), Some(((0, 11), "Second part here".to_string())));
    let empty = vec![String::new()];
    assert_eq!(sentence_phantom(&empty, (0, 0)), None);
}

#[test]
fn dimming_paints_lines_outside_the_paragraph_and_the_phantom() {
    assert_eq!(clip(((0, 3), (2, 4)), 1, 10), Some((0, 10)));
    assert_eq!(clip(((0, 3), (2, 4)), 0, 10), Some((3, 10)));
    assert_eq!(clip(((0, 3), (2, 4)), 2, 2), Some((0, 2)));
    assert_eq!(clip(((0, 3), (0, 3)), 0, 9), None);
    assert_eq!(clip(((0, 3), (2, 4)), 3, 10), None);
    assert_eq!(line_highlights((0, 0), None, 1, 5), vec![(0, 5, true)]);
    assert_eq!(
        line_highlights((0, 0), Some(((0, 2), (0, 4))), 0, 6),
        vec![(0, 2, false), (2, 4, true), (4, 6, false)]
    );
    assert_eq!(undimmed_range(true, true, false, (3, 5)), (3, 5));
    assert_eq!(undimmed_range(true, true, true, (3, 5)), (0, usize::MAX));
}

#[test]
fn the_editor_keymap_claims_only_its_shortcuts() {
    let ctrl = Modifiers { control: true, ..none() };
    let ctrl_shift = Modifiers { control: true, shift: true, ..none() };
    let alt = Modifiers { alt: true, ..none() };
    let shift = Modifiers { shift: true, ..none() };
    assert_eq!(custom_binding(Key::Character('s'), ctrl), Some(EditorBinding::Save));
    assert_eq!(custom_binding(Key::Character('z'), ctrl), Some(EditorBinding::Undo));
    assert_eq!(custom_binding(Key::Character('z'), ctrl_shift), Some(EditorBinding::Redo));
    assert_eq!(custom_binding(Key::Character('y'), ctrl), Some(EditorBinding::Redo));
    assert_eq!(custom_binding(Key::Character('n'), alt), Some(EditorBinding::NextParagraph));
    assert_eq!(
        custom_binding(Key::Character('n'), Modifiers { alt: true, shift: true, ..none() }),
        Some(EditorBinding::PrevParagraph)
    );
    assert_eq!(custom_binding(Key::Character('w'), alt), Some(EditorBinding::WordRight));
    assert_eq!(custom_binding(Key::Character('b'), alt), Some(EditorBinding::WordLeft));
    assert_eq!(custom_binding(Key::Backspace, shift), Some(EditorBinding::DeleteSentence));
    assert_eq!(custom_binding(Key::Backspace, ctrl), Some(EditorBinding::DeleteWord));
    assert_eq!(custom_binding(Key::Tab, none()), Some(EditorBinding::PhantomAccept));
    assert_eq!(custom_binding(Key::Tab, shift), None);
    assert_eq!(custom_binding(Key::Character('s'), none()), None);
    assert_eq!(custom_binding(Key::Backspace, none()), None);
}

#[test]
fn window_shortcuts() {
    let ctrl = Modifiers { control: true, ..none() };
    assert_eq!(pane_cycle_shortcut(Key::Tab, ctrl, true), Some(Step::Next));
    assert_eq!(
        pane_cycle_shortcut(Key::Tab, Modifiers { shift: true, ..ctrl }, true),
        Some(Step::Prev)
    );
    assert_eq!(pane_cycle_shortcut(Key::Tab, ctrl, false), None);
    assert!(find_shortcut(Key::Character('f'), ctrl));
    assert!(!find_shortcut(Key::Character('f'), none()));
    assert_eq!(arrow_step(Key::ArrowUp), Some(Step::Prev));
    assert_eq!(arrow_step(Key::ArrowDown), Some(Step::Next));
    assert_eq!(arrow_step(Key::Escape), None);
}

fn toggles() -> Toggles {
    Toggles { focus_dimming: true, typewriter_scroll: false, paragraph_glow: false, spell_check: true }
}

#[test]
fn root_commands_open_views_or_flip_settings() {
    assert!(matches!(run_command(Command::Theme, toggles()), CommandOutcome::Open(Menu::Theme(_))));
    assert!(matches!(run_command(Command::Help, toggles()), CommandOutcome::Open(Menu::Help)));
    match run_command(Command::Dimming, toggles()) {
        CommandOutcome::Toggled { toggles: t, status, reload_dictionary, recenter } => {
            assert!(!t.focus_dimming);
            assert_eq!(status, "focus dimming off");
            assert!(!reload_dictionary && !recenter);
        }
        other => panic!("unexpected {other:?}"),
    }
    match run_command(Command::Typewriter, toggles()) {
        CommandOutcome::Toggled { toggles: t, status, recenter, .. } => {
            assert!(t.typewriter_scroll);
            assert_eq!(status, "typewriter scroll on");
            assert!(recenter);
        }
        other => panic!("unexpected {other:?}"),
    }
    match run_command(Command::Spelling, toggles()) {
        CommandOutcome::Toggled { toggles: t, status, reload_dictionary, .. } => {
            assert!(!t.spell_check);
            assert_eq!(status, "spell checking off");
            assert!(reload_dictionary);
        }
        other => panic!("unexpected {other:?}"),
    }
    assert_eq!(configured_name("(default)".to_string()), "");
    assert_eq!(configured_name("Nord".to_string()), "Nord");
    assert!(refocus_editor(false, true));
    assert!(!refocus_editor(true, true));
}

#[test]
fn pane_titles_and_close_controls() {
    assert_eq!(display_name(None), "[untitled]");
    assert_eq!(display_name(Some("/n/a.md")), "/n/a.md");
    assert_eq!(pane_title(PaneKind::Editor(0), "a.md", true), "a.md ●");
    assert_eq!(pane_title(PaneKind::Editor(0), "a.md", false), "a.md");
    assert_eq!(pane_title(PaneKind::Preview, "a.md", true), "preview");
    assert!(closable(PaneKind::Preview, 1));
    assert!(!closable(PaneKind::Editor(0), 1));
    assert!(closable(PaneKind::Editor(0), 2));
    assert_eq!(close_request(Some(PaneKind::Editor(1)), true), CloseRequest::Confirm);
    assert_eq!(close_request(Some(PaneKind::Editor(1)), false), CloseRequest::Close);
    assert_eq!(close_request(Some(PaneKind::Preview), true), CloseRequest::Close);
    assert_eq!(close_request(None, false), CloseRequest::Ignore);
    assert_eq!(window_title("a.md"), "a.md — flow-state");
}

#[test]
fn status_bar_counts_paragraphs() {
    let lines: Vec<String> = "one\ntwo\n\nthree\n\n\nfour".split('\n').map(str::to_string).collect();
    assert_eq!(paragraph_info(&lines, 1), (1, 3));
    assert_eq!(paragraph_info(&lines, 3), (2, 3));
    assert_eq!(paragraph_info(&lines, 2), (0, 3));
    assert_eq!(paragraph_info(&lines, 6), (3, 3));
    assert_eq!(paragraph_info(&lines, 60), (0, 3));
}

#[test]
fn new_file_input_names_or_opens_a_file() {
    assert!(matches!(new_file_plan("   ", "/w", true), NewFile::Nothing));
    match new_file_plan(" a.md ", "/w", true) {
        NewFile::NameUntitled { path, status } => {
            assert_eq!(path, "/w/a.md");
            assert_eq!(status, "created a.md — CTRL+S to save");
        }
        other => panic!("unexpected {other:?}"),
    }
    assert!(matches!(new_file_plan("a.md", "/w", false), NewFile::OpenNew { .. }));
    assert!(matches!(new_file_plan("../a.md", "/w", false), NewFile::Refused(_)));
}

fn issue() -> SpellIssue {
    SpellIssue { start: (0, 6), end: (0, 11), word: "wurld".to_string() }
}

#[test]
fn suggestions_and_corrections_follow_the_revision() {
    let c = SpellCorrection::opened(2, 9, issue());
    assert!(c.accepts(2, 9, Some(9)));
    assert!(!c.accepts(2, 9, Some(10)));
    assert!(!c.accepts(3, 9, Some(9)));
    assert!(!c.accepts(2, 9, None));
    let lines = vec!["hello wurld".to_string()];
    let cursor = EditorCursor { position: (0, 11), selection: Some((0, 6)) };
    let sel = TextSelection::capture(2, &lines, cursor, Some("wurld")).unwrap();
    assert!(selection_can_spell_correct(true, true, &sel, &[issue()]));
    assert!(!selection_can_spell_correct(false, true, &sel, &[issue()]));
    assert!(!selection_can_spell_correct(true, true, &sel, &[]));
    assert_eq!(
        dictionary_ready_status("/usr/share/hunspell/en_GB.aff", "en_US"),
        "spell checking ready (en_GB)"
    );
}
