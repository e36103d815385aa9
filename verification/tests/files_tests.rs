use modalterm::context::Context;
use modalterm::editor::{Editor, State};
use modalterm::files::{Entry, EntryKind, Files, FilesAction};
use modalterm::keys::Key;

fn name_chars(s: &str) -> Vec<char> {
    s.chars().collect()
}

fn entry(name: &str, kind: EntryKind) -> Entry {
    Entry { name: name_chars(name), kind }
}

fn dir_components(names: &[&str]) -> Vec<Vec<char>> {
    names.iter().map(|n| name_chars(n)).collect()
}

#[test]
fn selecting_a_file_requests_the_editor_with_its_absolute_path() {
    let mut fs = Files::new(dir_components(&["tmp"]));
    let entries = vec![entry("b", EntryKind::Directory), entry("a.txt", EntryKind::File)];
    let mut context = Context::new();

    let a = fs.update(Some(Key::Down), &entries, &mut context);
    assert!(matches!(a, FilesAction::Render));
    assert_eq!(fs.row, 1);

    let a = fs.update(Some(Key::Enter), &entries, &mut context);
    assert!(matches!(a, FilesAction::Render));
    let path = context.take_editor_call().expect("a switch request for the editor");
    assert_eq!(path, "/tmp/a.txt");

    let ed = Editor::open(name_chars("contents of a"));
    assert!(matches!(ed.state, State::Editing));
    assert_eq!(ed.edit_state.buffer, name_chars("contents of a"));
}

#[test]
fn entering_and_leaving_a_subdirectory_restores_the_selection() {
    let mut fs = Files::new(dir_components(&["home"]));
    let entries = vec![entry("a.txt", EntryKind::File), entry("sub", EntryKind::Directory)];
    let mut context = Context::new();

    fs.update(Some(Key::Down), &entries, &mut context);
    let a = fs.update(Some(Key::Enter), &entries, &mut context);
    assert!(matches!(a, FilesAction::Rerender));
    assert_eq!(fs.directory, dir_components(&["home", "sub"]));
    assert_eq!(fs.row, 0);

    let child_entries = vec![entry("inner.txt", EntryKind::File)];
    fs.update(Some(Key::Down), &child_entries, &mut context);
    assert_eq!(fs.row, 1);
    let a = fs.update(Some(Key::Enter), &child_entries, &mut context);
    let name = match a {
        FilesAction::AscendTo(name) => name,
        _ => panic!("expected an ascent"),
    };
    assert_eq!(name, name_chars("sub"));
    assert_eq!(fs.directory, dir_components(&["home"]));

    assert!(fs.finish_ascend(&name, &entries));
    assert_eq!(fs.row, 1);
}

#[test]
fn finish_ascend_reports_a_vanished_directory() {
    let mut fs = Files::new(dir_components(&["home"]));
    let entries = vec![entry("a.txt", EntryKind::File)];
    let ok = fs.finish_ascend(&name_chars("gone"), &entries);
    assert!(!ok);
    assert_eq!(fs.row, 0);
}

#[test]
fn the_parent_entry_at_the_root_fails() {
    let mut fs = Files::new(dir_components(&[]));
    let entries = vec![entry("a.txt", EntryKind::File)];
    let mut context = Context::new();
    fs.update(Some(Key::Down), &entries, &mut context);
    assert_eq!(fs.row, 1);
    let a = fs.update(Some(Key::Enter), &entries, &mut context);
    assert!(matches!(a, FilesAction::Fail));
}

#[test]
fn esc_in_the_browser_asks_for_exit_and_changes_nothing() {
    let mut fs = Files::new(dir_components(&["home"]));
    let entries = vec![entry("a.txt", EntryKind::File)];
    let mut context = Context::new();
    let a = fs.update(Some(Key::Esc), &entries, &mut context);
    assert!(matches!(a, FilesAction::Exit));
    assert_eq!(fs.row, 0);
    assert_eq!(fs.directory, dir_components(&["home"]));
    assert!(context.take_editor_call().is_none());
}

#[test]
fn the_selection_clamps_to_the_synthetic_parent_row() {
    let mut fs = Files::new(dir_components(&["home"]));
    let entries = vec![entry("a.txt", EntryKind::File)];
    let mut context = Context::new();
    fs.update(Some(Key::Down), &entries, &mut context);
    fs.update(Some(Key::Down), &entries, &mut context);
    assert_eq!(fs.row, 1);
    fs.update(Some(Key::Up), &entries, &mut context);
    fs.update(Some(Key::Up), &entries, &mut context);
    assert_eq!(fs.row, 0);
}

#[test]
fn an_empty_directory_only_offers_the_parent_row() {
    let mut fs = Files::new(dir_components(&["home"]));
    let entries: Vec<Entry> = vec![];
    let mut context = Context::new();
    let a = fs.update(Some(Key::Down), &entries, &mut context);
    assert!(matches!(a, FilesAction::Render));
    assert_eq!(fs.row, 0);
    let a = fs.update(Some(Key::Enter), &entries, &mut context);
    let name = match a {
        FilesAction::AscendTo(name) => name,
        _ => panic!("expected an ascent"),
    };
    assert_eq!(name, name_chars("home"));
    assert_eq!(fs.directory, dir_components(&[]));
}

#[test]
fn selecting_a_subdirectory_selects_its_first_row() {
    let mut fs = Files::new(dir_components(&[]));
    let entries = vec![entry("sub", EntryKind::Directory)];
    let mut context = Context::new();
    let a = fs.update(Some(Key::Enter), &entries, &mut context);
    assert!(matches!(a, FilesAction::Rerender));
    assert_eq!(fs.directory, dir_components(&["sub"]));
    assert_eq!(fs.row, 0);
    assert!(context.take_editor_call().is_none());
}

#[test]
fn selecting_an_unusual_entry_does_nothing() {
    let mut fs = Files::new(dir_components(&["home"]));
    let entries = vec![entry("dev0", EntryKind::Other)];
    let mut context = Context::new();
    let a = fs.update(Some(Key::Enter), &entries, &mut context);
    assert!(matches!(a, FilesAction::Render));
    assert_eq!(fs.row, 0);
    assert_eq!(fs.directory, dir_components(&["home"]));
    assert!(context.take_editor_call().is_none());
}

#[test]
fn a_stale_selection_is_clamped_onto_a_fresh_listing() {
    let mut fs = Files::new(dir_components(&["home"]));
    let many = vec![
        entry("a", EntryKind::File),
        entry("b", EntryKind::File),
        entry("c", EntryKind::File),
    ];
    let mut context = Context::new();
    fs.update(Some(Key::Down), &many, &mut context);
    fs.update(Some(Key::Down), &many, &mut context);
    fs.update(Some(Key::Down), &many, &mut context);
    assert_eq!(fs.row, 3);
    let few = vec![entry("a", EntryKind::File)];
    fs.update(None, &few, &mut context);
    assert_eq!(fs.row, 1);
}
