use modalterm::editor::{Editor, EditorAction, State};
use modalterm::keys::Key;

fn text_chars(s: &str) -> Vec<char> {
    s.chars().collect()
}

fn type_text(ed: &mut Editor, s: &str) {
    for c in s.chars() {
        let a = ed.update(Some(Key::Char(c)));
        assert!(matches!(a, EditorAction::Render));
    }
}

#[test]
fn typing_then_saving_produces_the_buffer_under_the_typed_path() {
    let mut ed = Editor::new();
    type_text(&mut ed, "hi");
    ed.update(Some(Key::Enter));
    type_text(&mut ed, "there");
    assert_eq!(ed.edit_state.buffer, text_chars("hi\nthere"));

    let a = ed.update(Some(Key::Tab));
    assert!(matches!(a, EditorAction::Rerender));
    assert!(matches!(&ed.state, State::Saving(p) if p.is_empty()));
    assert!(matches!(ed.update(None), EditorAction::Render));

    type_text(&mut ed, "out.txt");
    let a = ed.update(Some(Key::Enter));
    match a {
        EditorAction::Save(path) => assert_eq!(path, text_chars("out.txt")),
        _ => panic!("expected a save action"),
    }
    assert!(matches!(ed.state, State::Editing));
    assert_eq!(ed.edit_state.buffer, text_chars("hi\nthere"));
}

#[test]
fn esc_while_editing_asks_for_exit_and_changes_nothing() {
    let mut ed = Editor::new();
    type_text(&mut ed, "abc");
    let a = ed.update(Some(Key::Esc));
    assert!(matches!(a, EditorAction::Exit));
    assert!(matches!(ed.state, State::Editing));
    assert_eq!(ed.edit_state.buffer, text_chars("abc"));
    assert_eq!(ed.edit_state.row, 0);
    assert_eq!(ed.edit_state.column, 3);
}

#[test]
fn esc_in_saving_mode_discards_the_path_instead_of_exiting() {
    let mut ed = Editor::new();
    ed.update(Some(Key::Tab));
    type_text(&mut ed, "somewhere");
    let a = ed.update(Some(Key::Esc));
    assert!(matches!(a, EditorAction::Rerender));
    assert!(matches!(ed.state, State::Editing));
}

#[test]
fn esc_in_loading_mode_discards_the_path_instead_of_exiting() {
    let mut ed = Editor::new();
    ed.update(Some(Key::Insert));
    assert!(matches!(&ed.state, State::Loading(p) if p.is_empty()));
    type_text(&mut ed, "x");
    let a = ed.update(Some(Key::Esc));
    assert!(matches!(a, EditorAction::Rerender));
    assert!(matches!(ed.state, State::Editing));
}

#[test]
fn loading_asks_for_the_typed_path_and_takes_the_loaded_text() {
    let mut ed = Editor::new();
    type_text(&mut ed, "old");
    ed.update(Some(Key::Insert));
    type_text(&mut ed, "in.txt");
    let a = ed.update(Some(Key::Enter));
    match a {
        EditorAction::Load(path) => assert_eq!(path, text_chars("in.txt")),
        _ => panic!("expected a load action"),
    }
    ed.finish_load(text_chars("fresh\ntext"));
    assert!(matches!(ed.state, State::Editing));
    assert_eq!(ed.edit_state.buffer, text_chars("fresh\ntext"));
    assert_eq!(ed.edit_state.row, 0);
    assert_eq!(ed.edit_state.column, 0);
}

#[test]
fn open_starts_editing_at_the_origin() {
    let ed = Editor::open(text_chars("a\nb"));
    assert!(matches!(ed.state, State::Editing));
    assert_eq!(ed.edit_state.buffer, text_chars("a\nb"));
    assert_eq!(ed.edit_state.row, 0);
    assert_eq!(ed.edit_state.column, 0);
}

#[test]
fn arrows_move_the_cursor_with_clamping() {
    let mut ed = Editor::open(text_chars("ab\nc"));
    ed.update(Some(Key::Right));
    ed.update(Some(Key::Right));
    assert_eq!(ed.edit_state.column, 2);
    ed.update(Some(Key::Down));
    assert_eq!(ed.edit_state.row, 1);
    assert_eq!(ed.edit_state.column, 1);
    ed.update(Some(Key::Up));
    assert_eq!(ed.edit_state.row, 0);
    assert_eq!(ed.edit_state.column, 1);
    ed.update(Some(Key::Left));
    assert_eq!(ed.edit_state.column, 0);
}

#[test]
fn backspace_in_editing_mode_deletes_before_the_cursor() {
    let mut ed = Editor::new();
    type_text(&mut ed, "ab");
    ed.update(Some(Key::Backspace));
    assert_eq!(ed.edit_state.buffer, text_chars("a"));
    assert_eq!(ed.edit_state.column, 1);
}

#[test]
fn unlisted_keys_only_repaint_in_path_modes() {
    let mut ed = Editor::new();
    ed.update(Some(Key::Tab));
    type_text(&mut ed, "p");
    let a = ed.update(Some(Key::Left));
    assert!(matches!(a, EditorAction::Render));
    assert!(matches!(&ed.state, State::Saving(p) if *p == text_chars("p")));
}
