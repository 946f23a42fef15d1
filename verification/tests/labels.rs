use flow_state::overlays::{jump_status, Search, SpellCorrection};
use flow_state::sidebar::{context_status, entry_label, ContextItem, ContextMenu, ContextMode, Entry};
use flow_state::spell::SpellIssue;
use flow_state::status::{confirm_text, paragraph_label, status_left, PendingKind};

#[test]
fn find_bar_counter() {
    let mut s = Search::opened((0, 0));
    assert_eq!(s.count_label(), "");
    s.set_matches("zz".to_string(), Vec::new());
    assert_eq!(s.count_label(), "no matches");
    s.set_matches("ab".to_string(), vec![((0, 0), (0, 2)), ((3, 1), (3, 3))]);
    assert_eq!(s.count_label(), "1/2");
    s.step(true);
    assert_eq!(s.count_label(), "2/2");
}

#[test]
fn spelling_chooser_texts() {
    let issue = SpellIssue { start: (0, 0), end: (0, 5), word: "wurld".to_string() };
    let mut c = SpellCorrection::opened(0, 0, issue);
    assert_eq!(c.heading(), "Correct “wurld”");
    assert_eq!(c.suggestions_note().as_deref(), Some("Finding suggestions…"));
    c.receive_suggestions(Vec::new());
    assert_eq!(
        c.suggestions_note().as_deref(),
        Some("No dictionary suggestions — type a replacement above.")
    );
    c.receive_suggestions(vec!["world".to_string()]);
    assert_eq!(c.suggestions_note(), None);
}

#[test]
fn status_bar_texts() {
    assert_eq!(status_left("a.md", true, true, Some("saved a.md")), " a.md ●   ⟳ compiling…   saved a.md");
    assert_eq!(status_left("[untitled]", false, false, None), " [untitled]");
    assert_eq!(paragraph_label(2, 13), "¶ 2/13 ");
    assert_eq!(paragraph_label(0, 1907), "¶ 0/1907 ");
}

#[test]
fn unsaved_changes_dialog_texts() {
    let (title, detail) = confirm_text(PendingKind::CloseWindow, 3, None);
    assert_eq!(title, "Save changes before closing?");
    assert_eq!(detail, "3 files have unsaved changes.");
    let (_, detail) = confirm_text(PendingKind::CloseWindow, 1, None);
    assert_eq!(detail, "There are unsaved changes.");
    let (title, detail) = confirm_text(PendingKind::ClosePane, 1, Some("a.md"));
    assert_eq!(title, "Save changes to a.md?");
    assert_eq!(detail, "Unsaved changes will be lost when the pane closes.");
    let (title, _) = confirm_text(PendingKind::ClosePane, 1, None);
    assert_eq!(title, "Save changes to this pane?");
}

#[test]
fn context_panel_offers_what_the_target_allows() {
    let folder = ContextMenu {
        target: "/w/notes".to_string(),
        is_dir: true,
        mode: ContextMode::Menu,
        input: String::new(),
    };
    assert_eq!(
        folder.menu_items("/w"),
        vec![
            ContextItem::ChangeDirectory,
            ContextItem::NewFile,
            ContextItem::NewFolder,
            ContextItem::Rename,
            ContextItem::Delete
        ]
    );
    assert_eq!(folder.menu_items("/w/notes"), vec![ContextItem::NewFile, ContextItem::NewFolder]);
    assert_eq!(folder.target_kind(), "FOLDER");
    assert_eq!(folder.target_name(), "notes");
    assert_eq!(folder.delete_prompt(), "Delete notes and all its contents?");
    assert_eq!(folder.placeholder(), None);
    let file = ContextMenu {
        target: "/w/a.md".to_string(),
        is_dir: false,
        mode: ContextMode::Rename,
        input: String::new(),
    };
    assert_eq!(file.menu_items("/w"), vec![ContextItem::NewFile, ContextItem::NewFolder, ContextItem::Rename, ContextItem::Delete]);
    assert_eq!(file.delete_prompt(), "Delete a.md?");
    assert_eq!(file.placeholder(), Some("new name"));
    assert_eq!(file.target_kind(), "FILE");
}

#[test]
fn tree_rows_mark_folders() {
    let dir = Entry { path: "/w/n".to_string(), name: "n".to_string(), depth: 0, is_dir: true, expanded: true };
    assert_eq!(entry_label(&dir), "▾ n");
    let closed = Entry { expanded: false, ..dir };
    assert_eq!(entry_label(&closed), "▸ n");
    let file = Entry { path: "/w/a".to_string(), name: "a".to_string(), depth: 1, is_dir: false, expanded: false };
    assert_eq!(entry_label(&file), "a");
}

#[test]
fn statuses_for_jumps_and_sidebar_actions() {
    assert_eq!(jump_status("wurld"), "next misspelling: wurld");
    let made: Result<String, String> = Ok("/w/a.md".to_string());
    assert_eq!(context_status(ContextMode::CreateFile, &made), Some("created /w/a.md".to_string()));
    assert_eq!(
        context_status(ContextMode::CreateFolder, &made),
        Some("created folder /w/a.md".to_string())
    );
    assert_eq!(context_status(ContextMode::Rename, &made), Some("renamed to /w/a.md".to_string()));
    let failed: Result<String, String> = Err("exists".to_string());
    assert_eq!(
        context_status(ContextMode::Rename, &failed),
        Some("filesystem action failed: exists".to_string())
    );
    assert_eq!(context_status(ContextMode::Menu, &made), None);
}
