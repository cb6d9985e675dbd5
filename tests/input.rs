use applauncher::input::{Input, InputState};

#[test]
fn typing_moves_the_cursor() {
    let mut s = InputState::new();
    s.enter_char('a');
    s.enter_char('b');
    assert_eq!(s.filter, "ab");
    assert_eq!(s.cursor_index, 2);
    s.move_cursor_left();
    s.enter_char('x');
    assert_eq!(s.filter, "axb");
    assert_eq!(s.cursor_index, 2);
}

#[test]
fn delete_removes_before_the_cursor() {
    let mut s = InputState::new();
    for c in "fire".chars() {
        s.enter_char(c);
    }
    s.delete_char();
    assert_eq!(s.filter, "fir");
    assert_eq!(s.cursor_index, 3);
    s.move_cursor_left();
    s.move_cursor_left();
    s.move_cursor_left();
    s.delete_char();
    assert_eq!(s.filter, "fir");
    assert_eq!(s.cursor_index, 0);
}

#[test]
fn right_delete_removes_after_the_cursor() {
    let mut s = InputState::new();
    for c in "abc".chars() {
        s.enter_char(c);
    }
    s.right_delete_char();
    assert_eq!(s.filter, "abc");
    s.move_cursor_left();
    s.move_cursor_left();
    s.right_delete_char();
    assert_eq!(s.filter, "ac");
    assert_eq!(s.cursor_index, 1);
}

#[test]
fn cursor_stays_within_the_text() {
    let mut s = InputState::new();
    s.move_cursor_left();
    assert_eq!(s.cursor_index, 0);
    s.enter_char('q');
    s.move_cursor_right();
    s.move_cursor_right();
    assert_eq!(s.cursor_index, 1);
}

#[test]
fn long_text_scrolls_the_window() {
    let mut s = InputState::new();
    s.set_width(4);
    for c in "abcdef".chars() {
        s.enter_char(c);
    }
    assert_eq!(s.filter, "abcdef");
    assert_eq!(s.overflow, 2);
    assert_eq!(s.cursor_index, 4);
    assert_eq!(Input.visible_text(&s), "cdef");
    s.move_cursor_left();
    s.move_cursor_left();
    s.move_cursor_left();
    s.move_cursor_left();
    s.move_cursor_left();
    assert_eq!(s.overflow, 1);
    assert_eq!(Input.visible_text(&s), "bcde");
}

#[test]
fn multibyte_characters_are_single_positions() {
    let mut s = InputState::new();
    s.enter_char('é');
    s.enter_char('ß');
    s.move_cursor_left();
    s.delete_char();
    assert_eq!(s.filter, "ß");
    assert_eq!(s.cursor_index, 0);
}
