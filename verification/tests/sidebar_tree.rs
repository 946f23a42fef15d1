use flow_state::paths::{child_path, remap_descendant};
use flow_state::sidebar::{
    contains_open_document, keybind_hints, order_entries, remapped_documents, rename_destination,
    row_tone, ContextAction, ContextMenu, ContextMode, Listing, RawEntry, RowTone, Sidebar,
};

fn raw(path: &str, name: &str, is_dir: bool) -> RawEntry {
    RawEntry { path: path.to_string(), name: name.to_string(), is_dir }
}

fn listing(dir: &str, entries: Vec<RawEntry>) -> Listing {
    Listing { dir: dir.to_string(), entries }
}

#[test]
fn collapse_state_toggles_and_is_reversible() {
    let mut sidebar = Sidebar::new(String::new(), &Vec::new());
    assert!(!sidebar.collapsed);

    sidebar.toggle_collapsed();
    assert!(sidebar.collapsed);

    sidebar.toggle_collapsed();
    assert!(!sidebar.collapsed);
}

#[test]
fn only_folder_contexts_offer_a_directory_target() {
    let mut sidebar = Sidebar::new(String::new(), &Vec::new());
    let folder = "notes".to_string();
    sidebar.open_context(folder.clone(), true);
    assert_eq!(sidebar.context_directory(), Some(folder));

    sidebar.open_context("notes.md".to_string(), false);
    assert_eq!(sidebar.context_directory(), None);
}

#[test]
fn child_path_accepts_only_one_plain_name() {
    assert_eq!(child_path("/work", " notes.md ").unwrap(), "/work/notes.md");
    assert!(child_path("/work", "../notes.md").is_err());
    assert!(child_path("/work", "a/b").is_err());
    assert!(child_path("/work", "").is_err());
}

#[test]
fn remap_descendant_preserves_relative_tail() {
    assert_eq!(
        remap_descendant("/work/old/chapter/one.md", "/work/old", "/work/new"),
        Some("/work/new/chapter/one.md".to_string())
    );
    assert_eq!(remap_descendant("/work/other.md", "/work/old", "/work/new"), None);
}

#[test]
fn changing_root_rebuilds_from_the_selected_folder() {
    let base = "/tmp/flow-state-sidebar";
    let nested = "/tmp/flow-state-sidebar/nested";
    let listings = vec![
        listing(base, vec![raw(nested, "nested", true)]),
        listing(nested, vec![raw("/tmp/flow-state-sidebar/nested/visible.txt", "visible.txt", false)]),
    ];
    let mut sidebar = Sidebar::new(base.to_string(), &listings);
    sidebar.set_root(nested.to_string(), &listings);

    assert_eq!(sidebar.root, nested);
    assert_eq!(sidebar.entries().len(), 1);
    assert_eq!(sidebar.entries()[0].name, "visible.txt");
}

#[test]
fn tree_lists_folders_first_by_name_and_skips_hidden() {
    let listings = vec![listing(
        "/w",
        vec![
            raw("/w/zeta.md", "zeta.md", false),
            raw("/w/.git", ".git", true),
            raw("/w/notes", "notes", true),
            raw("/w/alpha.md", "alpha.md", false),
            raw("/w/archive", "archive", true),
        ],
    )];
    let sidebar = Sidebar::new("/w".to_string(), &listings);
    let names: Vec<&str> = sidebar.entries().iter().map(|e| e.name.as_str()).collect();
    assert_eq!(names, vec!["archive", "notes", "alpha.md", "zeta.md"]);
    assert!(sidebar.entries().iter().all(|e| e.depth == 0 && !e.expanded));
}

#[test]
fn expanding_a_folder_shows_its_entries_one_level_deeper() {
    let listings = vec![
        listing("/w", vec![raw("/w/b.md", "b.md", false), raw("/w/notes", "notes", true)]),
        listing("/w/notes", vec![raw("/w/notes/one.md", "one.md", false)]),
    ];
    let mut sidebar = Sidebar::new("/w".to_string(), &listings);
    assert_eq!(sidebar.entries().len(), 2);
    sidebar.toggle("/w/notes".to_string(), &listings);
    let rows: Vec<(&str, u16, bool)> =
        sidebar.entries().iter().map(|e| (e.name.as_str(), e.depth, e.expanded)).collect();
    assert_eq!(rows, vec![("notes", 0, true), ("one.md", 1, false), ("b.md", 0, false)]);
    assert_eq!(sidebar.expanded_dirs(), vec!["/w/notes".to_string()]);
    sidebar.toggle("/w/notes".to_string(), &listings);
    assert_eq!(sidebar.entries().len(), 2);
    assert!(sidebar.expanded_dirs().is_empty());
}

#[test]
fn names_sort_by_code_point() {
    let ordered = order_entries(&vec![
        raw("/w/b", "b", false),
        raw("/w/B", "B", false),
        raw("/w/é", "é", false),
        raw("/w/a", "a", false),
    ]);
    let names: Vec<&str> = ordered.iter().map(|e| e.name.as_str()).collect();
    assert_eq!(names, vec!["B", "a", "b", "é"]);
}

#[test]
fn context_menu_plans_file_system_actions() {
    let mut c = ContextMenu {
        target: "/w/notes".to_string(),
        is_dir: true,
        mode: ContextMode::Menu,
        input: String::new(),
    };
    assert!(matches!(c.submission("/w"), ContextAction::Nothing));
    c.begin(ContextMode::CreateFile);
    c.input = " draft.md ".to_string();
    match c.submission("/w") {
        ContextAction::Create { path, folder } => {
            assert_eq!(path, "/w/notes/draft.md");
            assert!(!folder);
        }
        other => panic!("unexpected {other:?}"),
    }
    c.input = "../escape".to_string();
    match c.submission("/w") {
        ContextAction::Refused(e) => assert_eq!(e, "enter a single file or folder name"),
        other => panic!("unexpected {other:?}"),
    }
    let mut f = ContextMenu {
        target: "/w/notes/one.md".to_string(),
        is_dir: false,
        mode: ContextMode::Menu,
        input: String::new(),
    };
    f.begin(ContextMode::Rename);
    assert_eq!(f.input, "one.md");
    f.begin(ContextMode::CreateFolder);
    assert_eq!(f.input, "");
    f.input = "sub".to_string();
    match f.submission("/w") {
        ContextAction::Create { path, folder } => {
            assert_eq!(path, "/w/notes/sub");
            assert!(folder);
        }
        other => panic!("unexpected {other:?}"),
    }
    let mut s = Sidebar::new("/w".to_string(), &Vec::new());
    s.open_context("/w/notes".to_string(), true);
    assert!(!s.context_is_editing());
    s.context.as_mut().unwrap().begin(ContextMode::Rename);
    assert!(s.context_is_editing());
    s.close_context();
    assert!(s.context.is_none());
}

#[test]
fn renames_move_open_documents_along() {
    assert_eq!(rename_destination("/w/old", " new ").unwrap(), "/w/new");
    assert!(rename_destination("/", "x").is_err());
    assert!(rename_destination("/w/old", "a/b").is_err());
    let docs = vec![
        (1, "/w/old/a.md".to_string()),
        (2, "/w/other.md".to_string()),
        (3, "/w/old/sub/b.md".to_string()),
    ];
    assert_eq!(
        remapped_documents(&docs, "/w/old", "/w/new"),
        vec![(1, "/w/new/a.md".to_string()), (3, "/w/new/sub/b.md".to_string())]
    );
    let open = vec!["/w/old/a.md".to_string()];
    assert!(contains_open_document(&open, "/w/old"));
    assert!(contains_open_document(&open, "/w/old/a.md"));
    assert!(!contains_open_document(&open, "/w/ol"));
}

#[test]
fn keybind_hints_follow_the_held_modifiers() {
    let (heading, rows) = keybind_hints(false, true, true, false);
    assert_eq!(heading, "⌃⇧");
    assert_eq!(rows, vec![("⌃⇧Z".to_string(), "redo".to_string())]);
    let (heading, rows) = keybind_hints(true, true, false, false);
    assert_eq!(heading, "phantom");
    assert_eq!(rows.len(), 3);
    let (heading, rows) = keybind_hints(false, false, false, false);
    assert_eq!(heading, "hold a key");
    assert_eq!(rows[1], ("⇧".to_string(), "delete sentence".to_string()));
    let (heading, rows) = keybind_hints(false, true, false, false);
    assert_eq!(heading, "⌃ held");
    assert_eq!(rows.len(), 6);
    let (heading, _) = keybind_hints(false, false, false, true);
    assert_eq!(heading, "⌥ held");
}

#[test]
fn the_active_file_is_accented_and_open_files_stay_readable() {
    let open = vec!["/w/a.md".to_string(), "/w/b.md".to_string()];
    assert_eq!(row_tone(false, Some("/w/a.md"), &open, Some("/w/a.md")), RowTone::Active);
    assert_eq!(row_tone(false, Some("/w/b.md"), &open, Some("/w/a.md")), RowTone::Open);
    assert_eq!(row_tone(false, Some("/w/c.md"), &open, Some("/w/a.md")), RowTone::Inactive);
    assert_eq!(row_tone(true, Some("/w/a.md"), &open, Some("/w/a.md")), RowTone::Inactive);
    assert_eq!(row_tone(false, None, &open, None), RowTone::Inactive);
}

#[test]
fn rows_and_menus_compare_paths_by_component() {
    let open = vec!["/w/b.md".to_string()];
    assert_eq!(row_tone(false, Some("/w//b.md"), &open, Some("/w/a.md/")), RowTone::Open);
    assert_eq!(row_tone(false, Some("/w/a.md"), &open, Some("/w/./a.md")), RowTone::Active);
}
