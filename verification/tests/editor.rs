use calcr::editor::LineEditor;
use calcr::input::{InputCmd, Key};

fn press(editor: &mut LineEditor, key: Key) -> InputCmd {
    assert!(editor.accepts(key));
    editor.handle_key(key)
}

fn write(editor: &mut LineEditor, text: &str) {
    for ch in text.chars() {
        assert_eq!(press(editor, Key::Char(ch)), InputCmd::Nothing);
    }
}

#[test]
fn a_new_editor_is_empty() {
    let editor = LineEditor::new();
    assert_eq!(editor.line(), "");
    assert_eq!(editor.cursor(), 0);
}

#[test]
fn characters_go_in_at_the_cursor() {
    let mut editor = LineEditor::new();
    write(&mut editor, "1+2");
    assert_eq!(editor.line(), "1+2");
    assert_eq!(editor.cursor(), 3);
    press(&mut editor, Key::Left);
    press(&mut editor, Key::Left);
    write(&mut editor, "0");
    assert_eq!(editor.line(), "10+2");
    assert_eq!(editor.cursor(), 2);
    press(&mut editor, Key::Home);
    write(&mut editor, "(");
    press(&mut editor, Key::End);
    write(&mut editor, ")");
    assert_eq!(editor.line(), "(10+2)");
    assert_eq!(editor.cursor(), 6);
}

#[test]
fn enter_hands_the_line_over() {
    let mut editor = LineEditor::new();
    write(&mut editor, "1+2");
    assert_eq!(press(&mut editor, Key::Enter), InputCmd::Equation("1+2".to_string()));
    assert_eq!(editor.line(), "");
    assert_eq!(editor.cursor(), 0);
    assert_eq!(press(&mut editor, Key::Enter), InputCmd::Equation("".to_string()));
}

#[test]
fn quit_and_escape_leave() {
    let mut editor = LineEditor::new();
    assert_eq!(press(&mut editor, Key::Esc), InputCmd::Quit);
    write(&mut editor, "quit");
    assert_eq!(press(&mut editor, Key::Enter), InputCmd::Quit);
    // the line stays as it is
    assert_eq!(editor.line(), "quit");
    write(&mut editor, " ");
    assert_eq!(press(&mut editor, Key::Enter), InputCmd::Equation("quit ".to_string()));
}

#[test]
fn backspace_and_delete() {
    let mut editor = LineEditor::new();
    write(&mut editor, "abcd");
    press(&mut editor, Key::Backspace);
    assert_eq!(editor.line(), "abc");
    assert_eq!(editor.cursor(), 3);
    press(&mut editor, Key::Left);
    press(&mut editor, Key::Left);
    press(&mut editor, Key::Delete);
    assert_eq!(editor.line(), "ac");
    assert_eq!(editor.cursor(), 1);
    press(&mut editor, Key::Backspace);
    assert_eq!(editor.line(), "c");
    assert_eq!(editor.cursor(), 0);
    // nothing in front of the cursor
    press(&mut editor, Key::Backspace);
    assert_eq!(editor.line(), "c");
    press(&mut editor, Key::End);
    // nothing behind the cursor
    press(&mut editor, Key::Delete);
    assert_eq!(editor.line(), "c");
}

#[test]
fn the_cursor_stays_within_the_line() {
    let mut editor = LineEditor::new();
    write(&mut editor, "ab");
    press(&mut editor, Key::Right);
    assert_eq!(editor.cursor(), 2);
    press(&mut editor, Key::Left);
    press(&mut editor, Key::Left);
    press(&mut editor, Key::Left);
    assert_eq!(editor.cursor(), 0);
    press(&mut editor, Key::Right);
    assert_eq!(editor.cursor(), 1);
    write(&mut editor, "x");
    assert_eq!(editor.line(), "axb");
}

#[test]
fn history() {
    let mut editor = LineEditor::new();
    write(&mut editor, "1+1");
    press(&mut editor, Key::Enter);
    write(&mut editor, "2*2");
    press(&mut editor, Key::Enter);
    write(&mut editor, "3");

    press(&mut editor, Key::Up);
    assert_eq!(editor.line(), "2*2");
    assert_eq!(editor.cursor(), 3);
    press(&mut editor, Key::Up);
    assert_eq!(editor.line(), "1+1");
    // there is no earlier line
    press(&mut editor, Key::Up);
    assert_eq!(editor.line(), "1+1");
    press(&mut editor, Key::Down);
    press(&mut editor, Key::Down);
    assert_eq!(editor.line(), "3");
    // there is no later line
    press(&mut editor, Key::Down);
    assert_eq!(editor.line(), "3");
    assert_eq!(editor.cursor(), 1);
}

#[test]
fn an_edited_old_line_is_entered_anew() {
    let mut editor = LineEditor::new();
    write(&mut editor, "1+1");
    press(&mut editor, Key::Enter);
    press(&mut editor, Key::Up);
    write(&mut editor, "0");
    assert_eq!(press(&mut editor, Key::Enter), InputCmd::Equation("1+10".to_string()));
    // the old line is as it was entered, the new one follows it
    press(&mut editor, Key::Up);
    assert_eq!(editor.line(), "1+10");
    press(&mut editor, Key::Up);
    assert_eq!(editor.line(), "1+1");
}

#[test]
fn wide_characters_take_two_columns() {
    let mut editor = LineEditor::new();
    write(&mut editor, "日本");
    assert_eq!(editor.line(), "日本");
    assert_eq!(editor.cursor(), 4);
    press(&mut editor, Key::Left);
    assert_eq!(editor.cursor(), 2);
    write(&mut editor, "π");
    assert_eq!(editor.line(), "日π本");
    assert_eq!(editor.cursor(), 3);
    press(&mut editor, Key::Right);
    assert_eq!(editor.cursor(), 5);
    press(&mut editor, Key::Home);
    press(&mut editor, Key::Delete);
    assert_eq!(editor.line(), "π本");
}

#[test]
fn backspace_moves_the_cursor_by_one_column() {
    let mut editor = LineEditor::new();
    write(&mut editor, "日");
    press(&mut editor, Key::Backspace);
    assert_eq!(editor.line(), "");
    assert_eq!(editor.cursor(), 1);
    // with nothing in front of it the cursor cannot go left
    assert!(!editor.accepts(Key::Left));
    assert!(editor.accepts(Key::Home));
    press(&mut editor, Key::Home);
    assert_eq!(editor.cursor(), 0);
    assert!(editor.accepts(Key::Left));
}

#[test]
fn a_character_without_width_leaves_no_column_to_step_back() {
    let mut editor = LineEditor::new();
    write(&mut editor, "\u{301}");
    assert_eq!(editor.cursor(), 0);
    assert!(!editor.accepts(Key::Backspace));
    assert!(editor.accepts(Key::Left));
    press(&mut editor, Key::Left);
    assert_eq!(editor.line(), "\u{301}");
}

#[test]
fn other_keys_do_nothing() {
    let mut editor = LineEditor::new();
    write(&mut editor, "12");
    for key in [Key::Tab, Key::Insert, Key::PgUp, Key::PgDown, Key::F(5), Key::Unknown] {
        assert_eq!(press(&mut editor, key), InputCmd::Nothing);
        assert_eq!(editor.line(), "12");
        assert_eq!(editor.cursor(), 2);
    }
}
