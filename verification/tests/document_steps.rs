use flow_state::document::{save_request, save_result};
use flow_state::editing::{plan_action, EditKind, EditorAction};
use flow_state::steps::{accept_phantom, create_file, trim_phantom_word, Created, DocState};
use flow_state::workspace::Workspace;

fn doc(lines: &[&str], cursor: (usize, usize)) -> DocState {
    let mut d = DocState::untitled();
    d.lines = lines.iter().map(|l| l.to_string()).collect();
    d.cursor = cursor;
    d
}

#[test]
fn accepting_a_phantom_moves_the_caret_over_it() {
    assert_eq!(accept_phantom((0, 5), "ab\ncd"), (1, 2));
    assert_eq!(accept_phantom((2, 1), "é!"), (2, 4));
    assert_eq!(accept_phantom((0, 0), ""), (0, 0));
}

#[test]
fn trimming_a_phantom_drops_its_last_word() {
    assert_eq!(trim_phantom_word("alpha beta"), (5, Some("alpha".to_string())));
    assert_eq!(trim_phantom_word("The cat sat."), (5, Some("The cat".to_string())));
    assert_eq!(trim_phantom_word("café  au lait "), (6, Some("café  au".to_string())));
    assert_eq!(trim_phantom_word("  word  "), (8, None));
    assert_eq!(trim_phantom_word("one"), (3, None));
}

#[test]
fn deleting_a_sentence_makes_a_phantom_that_one_undo_takes_back() {
    let mut d = doc(&["Hello there. This is it"], (0, 23));
    d.delete_sentence();
    assert_eq!(d.phantom, Some("This is it".to_string()));
    assert_eq!(d.cursor, (0, 13));
    assert_eq!(d.lines, vec!["Hello there. This is it".to_string()]);
    assert!(d.modified);
    let current = d.snapshot();
    let before = d.history.undo(current).unwrap();
    assert_eq!(before.text, "Hello there. This is it");
    assert_eq!(before.cursor, (0, 23));
}

#[test]
fn deleting_again_discards_the_phantom() {
    let mut d = doc(&["Hello there. This is it", "next"], (0, 23));
    d.delete_sentence();
    d.delete_sentence();
    assert_eq!(d.phantom, None);
    assert_eq!(d.cursor, (0, 13));
    assert_eq!(d.lines, vec!["Hello there. ".to_string(), "next".to_string()]);
    let current = d.snapshot();
    let before = d.history.undo(current).unwrap();
    assert_eq!(before.text, "Hello there. This is it\nnext");
    assert_eq!(before.cursor, (0, 13));
}

#[test]
fn nothing_to_delete_at_a_paragraph_start() {
    let mut d = doc(&["Hello"], (0, 0));
    d.delete_sentence();
    assert_eq!(d.phantom, None);
    assert_eq!(d.cursor, (0, 0));
    assert!(!d.modified);
}

#[test]
fn accepting_and_trimming_the_phantom() {
    let mut d = doc(&["Hello there. This is it"], (0, 23));
    d.delete_sentence();
    d.phantom_accept();
    assert_eq!(d.phantom, None);
    assert_eq!(d.cursor, (0, 23));
    assert_eq!(d.lines, vec!["Hello there. This is it".to_string()]);

    let mut d = doc(&["Hello there. This is it"], (0, 23));
    d.delete_sentence();
    d.phantom_trim_word();
    assert_eq!(d.lines, vec!["Hello there. This is".to_string()]);
    assert_eq!(d.phantom, Some("This is".to_string()));
    assert_eq!(d.cursor, (0, 13));
}

#[test]
fn creating_a_file_names_the_untitled_buffer() {
    let mut workspace = Workspace::new(0, 10);
    let mut active = doc(&["draft"], (0, 5));
    let mut input = " notes.md ".to_string();
    match create_file(&mut input, "/w", &mut active, &mut workspace) {
        Created::Named(status) => assert_eq!(status, "created notes.md — CTRL+S to save"),
        other => panic!("{other:?}"),
    }
    assert_eq!(input, "");
    assert_eq!(active.path, Some("/w/notes.md".to_string()));
    assert_eq!(active.lines, vec!["draft".to_string()]);
    assert!(active.modified);
    assert_eq!(workspace.documents, vec![0]);
    assert_eq!(workspace.panes.len(), 1);
}

#[test]
fn creating_a_file_beside_a_named_buffer_opens_a_new_document() {
    let mut workspace = Workspace::new(0, 10);
    let mut active = doc(&["text"], (0, 0));
    active.path = Some("/w/a.md".to_string());
    let mut input = "b.md".to_string();
    match create_file(&mut input, "/w", &mut active, &mut workspace) {
        Created::Opened { id, doc, status } => {
            assert_eq!(id, 1);
            assert_eq!(doc.path, Some("/w/b.md".to_string()));
            assert_eq!(doc.lines, vec![String::new()]);
            assert!(doc.modified);
            assert_eq!(status, "created b.md — CTRL+S to save");
        }
        other => panic!("{other:?}"),
    }
    assert_eq!(workspace.documents, vec![0, 1]);
    assert_eq!(active.path, Some("/w/a.md".to_string()));

    let mut input = "a/b".to_string();
    assert!(matches!(
        create_file(&mut input, "/w", &mut active, &mut workspace),
        Created::Refused(_)
    ));
    assert_eq!(input, "");
    let mut input = "   ".to_string();
    assert!(matches!(create_file(&mut input, "/w", &mut active, &mut workspace), Created::Nothing));
    assert_eq!(input, "   ");
}

#[test]
fn applying_an_edit_records_the_pre_edit_snapshot() {
    let mut d = DocState::untitled();
    let plan = plan_action(None, EditorAction::Edit(EditKind::Insert('a')));
    if let Some(coalesce) = plan.record {
        let before = d.snapshot();
        d.history.record(before, coalesce);
    }
    assert!(plan.perform);
    d.lines = vec!["a".to_string()];
    assert_eq!(d.lines.join("\n"), "a");

    let previous = d.history.undo(d.snapshot()).unwrap();
    assert_eq!(previous.text, "");
}

struct MemoryStorage(std::cell::RefCell<String>);

impl flow_state::document::DocumentStorage for MemoryStorage {
    fn read(&self, _path: &str) -> Result<String, String> {
        Ok(self.0.borrow().clone())
    }

    fn write(&self, _path: &str, contents: &str) -> Result<(), String> {
        self.0.replace(contents.to_string());
        Ok(())
    }
}

struct FailingStorage;

impl flow_state::document::DocumentStorage for FailingStorage {
    fn read(&self, _path: &str) -> Result<String, String> {
        Err("unreadable".to_string())
    }

    fn write(&self, _path: &str, _contents: &str) -> Result<(), String> {
        Err("disk full".to_string())
    }
}

#[test]
fn saving_writes_the_buffer_with_a_final_newline_and_drops_the_phantom() {
    let storage = MemoryStorage(std::cell::RefCell::new(String::new()));
    let mut d = doc(&["Hello there. This is it"], (0, 23));
    d.path = Some("note.md".to_string());
    d.delete_sentence();
    assert_eq!(d.save_with(&storage), Ok("note.md".to_string()));
    assert_eq!(&*storage.0.borrow(), "Hello there. \n");
    assert_eq!(d.phantom, None);
    assert!(!d.modified);
    assert_eq!(d.saved, "Hello there. ");
    d.refresh_modified();
    assert!(!d.modified);
    d.lines = vec!["Hello there. x".to_string()];
    d.refresh_modified();
    assert!(d.modified);
}

#[test]
fn a_failed_or_pathless_save_keeps_the_saved_text() {
    let mut d = doc(&["draft"], (0, 0));
    assert_eq!(
        d.save_with(&FailingStorage),
        Err("no filename — create one in the sidebar".to_string())
    );
    d.path = Some("x.md".to_string());
    d.modified = true;
    assert_eq!(d.save_with(&FailingStorage), Err("disk full".to_string()));
    assert_eq!(d.saved, "");
    assert!(d.modified);
}

#[test]
fn spelling_correction_is_one_undoable_edit() {
    let mut d = doc(&["hello wurld"], (0, 0));
    d.replace_span((0, 6), (0, 11), "world");
    assert_eq!(d.lines.join("\n"), "hello world");
    assert_eq!(d.cursor, (0, 11));

    let current = d.snapshot();
    let previous = d.history.undo(current).unwrap();
    d.restore(previous);
    assert_eq!(d.lines.join("\n"), "hello wurld");
}

#[test]
fn undo_and_redo_walk_the_recorded_states() {
    let mut d = doc(&["one", "two"], (1, 3));
    assert!(!d.undo());
    d.replace_span((0, 0), (1, 1), "x");
    assert_eq!(d.lines, vec!["xwo".to_string()]);
    assert_eq!(d.cursor, (0, 1));
    assert!(d.undo());
    assert_eq!(d.lines, vec!["one".to_string(), "two".to_string()]);
    assert_eq!(d.cursor, (1, 3));
    assert!(d.redo());
    assert_eq!(d.lines, vec!["xwo".to_string()]);
    assert_eq!(d.cursor, (0, 1));
    assert!(!d.redo());
}

#[test]
fn a_save_hands_the_storage_the_buffer_ending_in_a_newline() {
    assert_eq!(
        save_request(Some("note.md"), "draft!"),
        Ok(("note.md".to_string(), "draft!\n".to_string()))
    );
    assert_eq!(
        save_request(Some("note.md"), "done\n"),
        Ok(("note.md".to_string(), "done\n".to_string()))
    );
    assert_eq!(
        save_request(None, "x"),
        Err("no filename — create one in the sidebar".to_string())
    );
    assert_eq!(save_result("note.md", Ok(())), Ok("note.md".to_string()));
    assert_eq!(save_result("note.md", Err("disk full".to_string())), Err("disk full".to_string()));
}

#[test]
fn the_phantom_is_dropped_before_the_save_request() {
    let mut d = doc(&["Hello there. This is it"], (0, 23));
    d.path = Some("n.md".to_string());
    d.delete_sentence();
    assert_eq!(
        d.save_request(),
        Ok(("n.md".to_string(), "Hello there. \n".to_string()))
    );
    assert_eq!(d.phantom, None);
    assert!(d.modified);
    assert_eq!(d.finish_save("n.md", Err("no".to_string())), Err("no".to_string()));
    assert!(d.modified);
    assert_eq!(d.finish_save("n.md", Ok(())), Ok("n.md".to_string()));
    assert!(!d.modified);
    assert_eq!(d.saved, "Hello there. ");
}
