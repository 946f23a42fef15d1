use flow_state::commands::toggled_fullscreen;
use flow_state::workspace::{open_target, ClosePaneResult, OpenTarget, PaneKind, Workspace};

#[test]
fn fullscreen_toggles_and_follows_pane_focus() {
    let first = 1usize;
    let mut workspace = Workspace::new(0, first);
    let second = 2usize;
    workspace.split_editor(1, Some(second));

    assert_eq!(toggled_fullscreen(None, first), Some(first));
    assert_eq!(toggled_fullscreen(Some(first), first), None);
    workspace.fullscreen = toggled_fullscreen(None, second);
    workspace.focus(first);
    assert_eq!(workspace.fullscreen, Some(first));
}

#[test]
fn focus_updates_the_active_document_and_fullscreen_target() {
    let mut workspace = Workspace::new(0, 10);
    let second = 11usize;
    workspace.panes.push((second, PaneKind::Editor(1)));
    workspace.documents.push(1);
    workspace.fullscreen = Some(workspace.focused);

    workspace.focus(second);
    assert_eq!(workspace.active, 1);
    assert_eq!(workspace.focused, second);
    assert_eq!(workspace.fullscreen, Some(second));
}

#[test]
fn closing_a_pane_preserves_at_least_one_editor_and_drops_its_document() {
    let mut workspace = Workspace::new(0, 10);
    let focused = workspace.focused;
    assert_eq!(workspace.close_pane(focused, focused), ClosePaneResult::NotClosed);

    let id = workspace.insert_document();
    let anchor = workspace.split_anchor();
    workspace.split_editor(id, Some(11));
    let pane = workspace.pane_of_document(id).unwrap();
    assert_eq!(workspace.close_pane(pane, anchor), ClosePaneResult::Closed { preview: false });
    assert!(!workspace.documents.contains(&id));
    assert_eq!(workspace.editor_count(), 1);
    assert_eq!(workspace.active, 0);
    assert_eq!(workspace.focused, anchor);
}

#[test]
fn closing_the_preview_keeps_every_document() {
    let mut workspace = Workspace::new(0, 10);
    workspace.panes.push((12, PaneKind::Preview));
    workspace.focus(12);
    assert_eq!(workspace.active, 0);
    assert_eq!(workspace.close_pane(12, 10), ClosePaneResult::Closed { preview: true });
    assert_eq!(workspace.documents, vec![0]);
    assert_eq!(workspace.focused, 10);
    assert_eq!(workspace.close_pane(99, 10), ClosePaneResult::NotClosed);
}

#[test]
fn cycling_focus_wraps_both_ways() {
    let mut workspace = Workspace::new(0, 10);
    workspace.split_editor(1, Some(11));
    workspace.panes.push((12, PaneKind::Preview));
    assert_eq!(workspace.focused, 11);
    assert_eq!(workspace.cycle_focus(1), Some(PaneKind::Preview));
    assert_eq!(workspace.focused, 12);
    assert_eq!(workspace.cycle_focus(1), Some(PaneKind::Editor(0)));
    assert_eq!(workspace.active, 0);
    assert_eq!(workspace.cycle_focus(-1), Some(PaneKind::Preview));
    assert_eq!(workspace.active, 0); // the preview keeps the last editor active
    assert_eq!(workspace.cycle_focus(-1), Some(PaneKind::Editor(1)));
    assert_eq!(workspace.active, 1);
}

#[test]
fn validation_repairs_focus_and_active_document() {
    let mut workspace = Workspace::new(3, 10);
    workspace.documents.push(7);
    workspace.active = 7;
    workspace.focused = 99;
    workspace.validate();
    assert_eq!(workspace.documents, vec![3]);
    assert_eq!(workspace.active, 3);
    assert_eq!(workspace.focused, 10);
}

#[test]
fn a_previewable_document_gets_one_preview_pane_beside_its_editor() {
    let mut workspace = Workspace::new(0, 10);
    assert_eq!(workspace.preview_anchor(false), None);
    assert_eq!(workspace.preview_anchor(true), Some(10));
    workspace.add_preview(11);
    assert_eq!(workspace.panes, vec![(10, PaneKind::Editor(0)), (11, PaneKind::Preview)]);
    assert_eq!(workspace.focused, 10);
    assert_eq!(workspace.preview_anchor(true), None);
}

#[test]
fn opening_an_open_file_focuses_its_pane() {
    let mut workspace = Workspace::new(0, 10);
    let id = workspace.insert_document();
    workspace.split_editor(id, Some(11));
    workspace.focus_document(0);
    assert_eq!(workspace.active, 0);
    assert_eq!(workspace.focused, 10);

    let open = vec![(0, Some("notes.md".to_string())), (id, None)];
    assert_eq!(open_target(&open, "notes.md", true), OpenTarget::Focus(0));
    assert_eq!(open_target(&open, "other.md", true), OpenTarget::ReplaceScratch);
    assert_eq!(open_target(&open, "other.md", false), OpenTarget::NewPane);
    assert_eq!(open_target(&open, "notes", false), OpenTarget::NewPane);
}

#[test]
fn focusing_a_document_without_a_pane_only_makes_it_active() {
    let mut workspace = Workspace::new(0, 10);
    workspace.focus_document(7);
    assert_eq!(workspace.active, 7);
    assert_eq!(workspace.focused, 10);
}

#[test]
fn a_closed_preview_reopens_on_the_next_save() {
    let mut workspace = Workspace::new(0, 10);
    workspace.add_preview(11);
    assert_eq!(workspace.close_pane(11, 10), ClosePaneResult::Closed { preview: true });
    assert_eq!(workspace.preview_anchor(true), Some(10));
}

#[test]
fn an_open_file_is_found_by_its_components() {
    let open = vec![(0, Some("/w/notes.md".to_string()))];
    assert_eq!(open_target(&open, "/w//notes.md", false), OpenTarget::Focus(0));
}
