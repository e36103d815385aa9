use modalterm::buffer::EditState;

fn buf_chars(s: &str) -> Vec<char> {
    s.chars().collect()
}

fn state_at(text: &str, row: usize, column: usize) -> EditState {
    let mut st = EditState::from_text(buf_chars(text));
    for _ in 0..row {
        st.move_down();
    }
    for _ in 0..column {
        st.move_right();
    }
    assert_eq!(st.row, row);
    assert_eq!(st.column, column);
    st
}

#[test]
fn typing_concatenates_in_order() {
    let mut st = EditState::new();
    for c in "hello".chars() {
        st.insert_char(c);
    }
    assert_eq!(st.buffer, buf_chars("hello"));
    assert_eq!(st.row, 0);
    assert_eq!(st.column, 5);
}

#[test]
fn typing_tracks_rows_and_columns_across_newlines() {
    let mut st = EditState::new();
    for c in "ab".chars() {
        st.insert_char(c);
    }
    st.insert_newline();
    for c in "cde".chars() {
        st.insert_char(c);
    }
    assert_eq!(st.buffer, buf_chars("ab\ncde"));
    assert_eq!(st.row, 1);
    assert_eq!(st.column, 3);
}

#[test]
fn insert_then_delete_restores_state() {
    let mut st = state_at("ab\ncd", 1, 1);
    st.insert_char('x');
    assert_eq!(st.buffer, buf_chars("ab\ncxd"));
    st.delete_before_cursor();
    assert_eq!(st.buffer, buf_chars("ab\ncd"));
    assert_eq!(st.row, 1);
    assert_eq!(st.column, 1);
}

#[test]
fn newline_then_delete_restores_single_line() {
    let mut st = state_at("abcd", 0, 2);
    st.insert_newline();
    assert_eq!(st.buffer, buf_chars("ab\ncd"));
    assert_eq!(st.row, 1);
    assert_eq!(st.column, 0);
    st.delete_before_cursor();
    assert_eq!(st.buffer, buf_chars("abcd"));
    assert_eq!(st.row, 0);
    assert_eq!(st.column, 2);
}

#[test]
fn move_down_clamps_column_to_destination_line() {
    let mut st = state_at("ab\nc", 0, 2);
    st.move_down();
    assert_eq!(st.row, 1);
    assert_eq!(st.column, 1);
}

#[test]
fn move_up_clamps_column_to_destination_line() {
    let mut st = state_at("a\nbcd", 1, 3);
    st.move_up();
    assert_eq!(st.row, 0);
    assert_eq!(st.column, 1);
}

#[test]
fn delete_on_empty_buffer_is_a_no_op() {
    let mut st = EditState::new();
    st.delete_before_cursor();
    assert_eq!(st.buffer, buf_chars(""));
    assert_eq!(st.row, 0);
    assert_eq!(st.column, 0);
}

#[test]
fn delete_at_origin_of_nonempty_buffer_is_a_no_op() {
    let mut st = EditState::from_text(buf_chars("abc"));
    st.delete_before_cursor();
    assert_eq!(st.buffer, buf_chars("abc"));
    assert_eq!(st.row, 0);
    assert_eq!(st.column, 0);
}

#[test]
fn delete_at_line_start_joins_lines() {
    let mut st = state_at("ab\ncd", 1, 0);
    st.delete_before_cursor();
    assert_eq!(st.buffer, buf_chars("abcd"));
    assert_eq!(st.row, 0);
    assert_eq!(st.column, 2);
}

#[test]
fn horizontal_moves_clamp_at_line_ends() {
    let mut st = EditState::from_text(buf_chars("ab"));
    st.move_left();
    assert_eq!(st.column, 0);
    st.move_right();
    st.move_right();
    assert_eq!(st.column, 2);
    st.move_right();
    assert_eq!(st.column, 2);
}

#[test]
fn vertical_moves_clamp_at_first_and_last_row() {
    let mut st = EditState::from_text(buf_chars("a\nb"));
    st.move_up();
    assert_eq!(st.row, 0);
    st.move_down();
    st.move_down();
    assert_eq!(st.row, 1);
}

#[test]
fn cursor_offset_counts_lines_above_plus_column() {
    let st = state_at("ab\ncd", 1, 2);
    assert_eq!(st.cursor_offset(), 5);
    let origin = EditState::new();
    assert_eq!(origin.cursor_offset(), 0);
}

#[test]
fn newline_splits_a_line_in_two() {
    let mut st = state_at("abcd", 0, 0);
    st.insert_newline();
    assert_eq!(st.buffer, buf_chars("\nabcd"));
    assert_eq!(st.row, 1);
    assert_eq!(st.column, 0);
}
