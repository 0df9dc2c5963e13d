use rune::command::Command;
use rune::editor::{Action, Editor, Event, Key, Mode, Modifiers};
use rune::render::{decimal_string, save_answer, Row};
use rune::selection::Selection;
use rune::text::{join_lines, split_lines};

fn editor_with(text: &str) -> Editor {
    let mut e = Editor::new(80, 24);
    e.load("notes.txt", Some(text));
    e
}

fn lines(e: &Editor) -> Vec<&str> {
    e.buffer.iter().map(|s| s.as_str()).collect()
}

fn select(e: &mut Editor, start_x: u16, start_y: usize, end_x: u16, end_y: usize) {
    e.selection = Some(Selection { start_x, start_y, end_x, end_y });
}

#[test]
fn normalize_keeps_order() {
    let s = Selection { start_x: 2, start_y: 1, end_x: 5, end_y: 3 };
    assert_eq!(s.normalize(), (2, 1, 5, 3));
}

#[test]
fn normalize_swaps_backwards_rows() {
    let s = Selection { start_x: 2, start_y: 4, end_x: 7, end_y: 1 };
    assert_eq!(s.normalize(), (7, 1, 2, 4));
}

#[test]
fn normalize_swaps_backwards_columns() {
    let s = Selection { start_x: 6, start_y: 2, end_x: 1, end_y: 2 };
    assert_eq!(s.normalize(), (1, 2, 6, 2));
}

#[test]
fn sel_string_one_line() {
    let text = vec!["hello world".to_string()];
    let s = Selection { start_x: 6, start_y: 0, end_x: 11, end_y: 0 };
    assert_eq!(s.sel_string(&text), "world");
}

#[test]
fn sel_string_several_lines() {
    let text = vec!["abc".to_string(), "def".to_string(), "ghi".to_string()];
    let s = Selection { start_x: 1, start_y: 2, end_x: 2, end_y: 0 };
    assert_eq!(s.sel_string(&text), "c\ndef\ng");
}

#[test]
fn split_lines_like_str_lines() {
    for text in ["", "a", "a\n", "a\nb", "a\r\nb\r\n", "\n\n", "x\ry", "end\r", "\r\r\n"] {
        let expected: Vec<String> = text.lines().map(|l| l.to_string()).collect();
        assert_eq!(split_lines(text), expected, "text {:?}", text);
    }
}

#[test]
fn join_lines_with_newlines() {
    let v = vec!["a".to_string(), "".to_string(), "bc".to_string()];
    assert_eq!(join_lines(&v), "a\n\nbc");
    assert_eq!(join_lines(&Vec::new()), "");
}

#[test]
fn load_missing_file_gives_one_empty_line() {
    let mut e = Editor::new(80, 24);
    e.modified = true;
    e.load("new.txt", None);
    assert_eq!(lines(&e), vec![""]);
    assert_eq!(e.path, "new.txt");
    assert!(!e.modified);
}

#[test]
fn save_after_load_drops_final_newline() {
    let e = editor_with("first\nsecond\n");
    assert_eq!(e.contents(), "first\nsecond");
    let e = editor_with("a\r\nb");
    assert_eq!(e.contents(), "a\nb");
}

#[test]
fn load_after_save_gives_same_lines() {
    let e = editor_with("one\n\nthree");
    let saved = e.contents();
    let again = editor_with(&saved);
    assert_eq!(lines(&again), vec!["one", "", "three"]);
}

#[test]
fn typing_a_character() {
    let mut e = editor_with("helo");
    e.cursor_x = 3;
    e.insert(Key::Char('l'));
    assert_eq!(lines(&e), vec!["hello"]);
    assert_eq!(e.cursor_x, 4);
    assert!(e.modified);
    assert!(matches!(e.undo_stack[0], Command::InsertChar { x: 3, y: 0, c: 'l' }));
}

#[test]
fn typing_non_ascii_at_byte_column() {
    let mut e = editor_with("née");
    e.cursor_x = 3;
    e.insert(Key::Char('é'));
    assert_eq!(lines(&e), vec!["néée"]);
    assert_eq!(e.cursor_x, 4);
    assert!(matches!(e.undo_stack[0], Command::InsertChar { x: 3, y: 0, c: 'é' }));
}

#[test]
fn backspace_after_non_ascii_removes_char_at_byte() {
    let mut e = editor_with("éab");
    e.cursor_x = 3;
    e.insert(Key::Backspace);
    assert_eq!(lines(&e), vec!["éb"]);
    assert_eq!(e.cursor_x, 2);
    assert!(matches!(e.undo_stack[0], Command::DeleteChar { x: 2, y: 0, c: 'b' }));
}

#[test]
fn backspace_joins_onto_non_ascii_line() {
    let mut e = editor_with("é\nb");
    e.cursor_y = 1;
    e.insert(Key::Backspace);
    assert_eq!(lines(&e), vec!["éb"]);
    assert_eq!((e.cursor_x, e.cursor_y), (2, 0));
    assert!(matches!(e.undo_stack[0], Command::MergeLine { y: 0, prev_line_len: 2 }));
}

#[test]
fn moving_up_onto_non_ascii_keeps_byte_column() {
    let mut e = editor_with("é\nab");
    e.cursor_x = 2;
    e.cursor_y = 1;
    e.move_cursor(Key::Up);
    assert_eq!((e.cursor_x, e.cursor_y), (2, 0));
}

#[test]
fn moving_down_onto_non_ascii_keeps_byte_column() {
    let mut e = editor_with("ab\né");
    e.cursor_x = 2;
    e.move_cursor(Key::Down);
    assert_eq!((e.cursor_x, e.cursor_y), (2, 1));
}

#[test]
fn moving_left_wraps_to_byte_length() {
    let mut e = editor_with("é\nx");
    e.cursor_y = 1;
    e.move_cursor(Key::Left);
    assert_eq!((e.cursor_x, e.cursor_y), (2, 0));
}

#[test]
fn right_then_left_inside_non_ascii_line() {
    let mut e = editor_with("é");
    e.cursor_x = 1;
    e.move_cursor(Key::Right);
    assert_eq!(e.cursor_x, 2);
    e.move_cursor(Key::Left);
    assert_eq!((e.cursor_x, e.cursor_y, e.scroll_y), (1, 0, 0));
}

#[test]
fn delete_selection_by_byte_columns() {
    let mut e = editor_with("aéb");
    select(&mut e, 1, 0, 3, 0);
    e.delete_selection();
    assert_eq!(lines(&e), vec!["ab"]);
    assert_eq!((e.cursor_x, e.cursor_y), (1, 0));
}

#[test]
fn sel_string_by_byte_columns() {
    let text = vec!["aéb".to_string()];
    let s = Selection { start_x: 0, start_y: 0, end_x: 3, end_y: 0 };
    assert_eq!(s.sel_string(&text), "aé");
}

#[test]
fn empty_selection_inside_non_ascii_line() {
    let text = vec!["é".to_string()];
    let s = Selection { start_x: 2, start_y: 0, end_x: 2, end_y: 0 };
    assert_eq!(s.sel_string(&text), "");
}

#[test]
fn saving_clears_the_modified_flag() {
    let mut e = editor_with("abc");
    assert!(!e.close_asks_to_save());
    e.insert(Key::Char('x'));
    assert!(e.close_asks_to_save());
    e.mark_saved();
    assert!(!e.modified);
    assert!(!e.close_asks_to_save());
    assert_eq!(lines(&e), vec!["xabc"]);
}

#[test]
fn update_selection_without_selection_changes_nothing() {
    let mut e = editor_with("abc");
    e.cursor_x = 2;
    e.update_selection();
    assert!(e.selection.is_none());
    assert_eq!(e.cursor_x, 2);
}

#[test]
fn tab_puts_four_spaces() {
    let mut e = editor_with("ab");
    e.cursor_x = 1;
    e.insert(Key::Tab);
    assert_eq!(lines(&e), vec!["a    b"]);
    assert_eq!(e.cursor_x, 5);
    assert!(matches!(e.undo_stack[0], Command::InsertChar { x: 1, y: 0, c: '\t' }));
}

#[test]
fn enter_splits_the_line() {
    let mut e = editor_with("hello world\nnext");
    e.cursor_x = 5;
    e.insert(Key::Enter);
    assert_eq!(lines(&e), vec!["hello", " world", "next"]);
    assert_eq!((e.cursor_x, e.cursor_y), (0, 1));
    assert!(matches!(e.undo_stack[0], Command::SplitLine { x: 5, y: 0 }));
}

#[test]
fn backspace_deletes_before_cursor() {
    let mut e = editor_with("abc");
    e.cursor_x = 2;
    e.insert(Key::Backspace);
    assert_eq!(lines(&e), vec!["ac"]);
    assert_eq!(e.cursor_x, 1);
    assert!(matches!(e.undo_stack[0], Command::DeleteChar { x: 1, y: 0, c: 'b' }));
}

#[test]
fn backspace_at_line_start_joins_lines() {
    let mut e = editor_with("ab\ncd");
    e.cursor_y = 1;
    e.insert(Key::Backspace);
    assert_eq!(lines(&e), vec!["abcd"]);
    assert_eq!((e.cursor_x, e.cursor_y), (2, 0));
    assert!(matches!(e.undo_stack[0], Command::MergeLine { y: 0, prev_line_len: 2 }));
}

#[test]
fn backspace_at_buffer_start_does_nothing() {
    let mut e = editor_with("ab");
    e.insert(Key::Backspace);
    assert_eq!(lines(&e), vec!["ab"]);
    assert!(e.modified);
    assert!(e.undo_stack.is_empty());
}

#[test]
fn char_then_backspace_restores() {
    let mut e = editor_with("text\nmore");
    e.cursor_x = 2;
    e.cursor_y = 1;
    e.insert(Key::Char('X'));
    e.insert(Key::Backspace);
    assert_eq!(lines(&e), vec!["text", "more"]);
    assert_eq!((e.cursor_x, e.cursor_y), (2, 1));
}

#[test]
fn enter_then_backspace_restores() {
    let mut e = editor_with("split here");
    e.cursor_x = 5;
    e.insert(Key::Enter);
    e.insert(Key::Backspace);
    assert_eq!(lines(&e), vec!["split here"]);
    assert_eq!((e.cursor_x, e.cursor_y), (5, 0));
}

#[test]
fn recording_clears_redo() {
    let mut e = editor_with("a");
    e.redo_stack.push(Command::SplitLine { x: 0, y: 0 });
    e.push_undo(Command::SplitLine { x: 1, y: 0 });
    assert_eq!(e.undo_stack.len(), 1);
    assert!(e.redo_stack.is_empty());
    e.skip_undo = true;
    e.redo_stack.push(Command::SplitLine { x: 0, y: 0 });
    e.push_undo(Command::SplitLine { x: 1, y: 0 });
    assert_eq!(e.undo_stack.len(), 1);
    assert_eq!(e.redo_stack.len(), 1);
}

#[test]
fn delete_selection_on_one_line() {
    let mut e = editor_with("hello world");
    select(&mut e, 11, 0, 5, 0);
    e.delete_selection();
    assert_eq!(lines(&e), vec!["hello"]);
    assert_eq!((e.cursor_x, e.cursor_y), (5, 0));
    assert!(e.selection.is_none());
    match &e.undo_stack[0] {
        Command::DeleteSelection { start_x, start_y, text } => {
            assert_eq!((*start_x, *start_y, text.as_str()), (5, 0, " world"));
        }
        _ => panic!("wrong command"),
    }
}

#[test]
fn delete_selection_over_lines() {
    let mut e = editor_with("abc\ndef\nghi\njkl");
    select(&mut e, 1, 0, 2, 2);
    e.delete_selection();
    assert_eq!(lines(&e), vec!["ai", "jkl"]);
    assert_eq!((e.cursor_x, e.cursor_y), (1, 0));
    assert_eq!(e.contents(), "ai\njkl");
}

#[test]
fn check_insert_replaces_selection() {
    let mut e = editor_with("abcdef");
    select(&mut e, 1, 0, 4, 0);
    e.check_insert(Key::Char('X'));
    assert_eq!(lines(&e), vec!["aXef"]);
    assert_eq!(e.cursor_x, 2);
}

#[test]
fn check_insert_delete_key_removes_selection() {
    let mut e = editor_with("abcdef");
    select(&mut e, 1, 0, 4, 0);
    e.check_insert(Key::Delete);
    assert_eq!(lines(&e), vec!["aef"]);
}

#[test]
fn check_insert_other_key_with_selection_does_nothing() {
    let mut e = editor_with("abcdef");
    select(&mut e, 1, 0, 4, 0);
    e.check_insert(Key::Esc);
    assert_eq!(lines(&e), vec!["abcdef"]);
    assert!(e.selection.is_some());
    assert!(!e.modified);
}

#[test]
fn paste_inserts_text_at_cursor() {
    let mut e = editor_with("start end");
    e.cursor_x = 6;
    e.paste(Some("one\ntwo ".to_string()));
    assert_eq!(lines(&e), vec!["start one", "two end"]);
    assert_eq!((e.cursor_x, e.cursor_y), (4, 1));
    assert_eq!(e.undo_stack.len(), 1);
    assert!(e.skip_undo);
    match &e.undo_stack[0] {
        Command::InsertStr { x, y, text } => assert_eq!((*x, *y, text.as_str()), (6, 0, "one\ntwo ")),
        _ => panic!("wrong command"),
    }
}

#[test]
fn paste_without_clipboard_only_deletes_selection() {
    let mut e = editor_with("abcdef");
    select(&mut e, 0, 0, 3, 0);
    e.paste(None);
    assert_eq!(lines(&e), vec!["def"]);
}

#[test]
fn copy_then_paste_over_selection_keeps_text() {
    let mut e = editor_with("first line\nsecond line");
    select(&mut e, 6, 0, 6, 1);
    let copied = e.copy_selection();
    assert_eq!(copied.as_deref(), Some("line\nsecond"));
    e.paste(copied);
    assert_eq!(e.contents(), "first line\nsecond line");
}

#[test]
fn copy_without_selection() {
    let e = editor_with("abc");
    assert_eq!(e.copy_selection(), None);
}

#[test]
fn moving_right_wraps_to_next_line() {
    let mut e = editor_with("ab\ncd");
    e.cursor_x = 2;
    e.move_cursor(Key::Right);
    assert_eq!((e.cursor_x, e.cursor_y), (0, 1));
}

#[test]
fn moving_left_wraps_to_previous_line_end() {
    let mut e = editor_with("abc\nd");
    e.cursor_y = 1;
    e.move_cursor(Key::Left);
    assert_eq!((e.cursor_x, e.cursor_y), (3, 0));
}

#[test]
fn moving_up_clamps_column() {
    let mut e = editor_with("ab\nlonger");
    e.cursor_x = 5;
    e.cursor_y = 1;
    e.move_cursor(Key::Up);
    assert_eq!((e.cursor_x, e.cursor_y), (2, 0));
}

#[test]
fn moving_down_scrolls_at_window_bottom() {
    let mut e = Editor::new(80, 4);
    e.load("f", Some("0\n1\n2\n3\n4"));
    e.move_cursor(Key::Down);
    e.move_cursor(Key::Down);
    assert_eq!((e.cursor_y, e.scroll_y), (2, 0));
    e.move_cursor(Key::Down);
    assert_eq!((e.cursor_y, e.scroll_y), (2, 1));
    e.move_cursor(Key::Down);
    e.move_cursor(Key::Down);
    assert_eq!((e.cursor_y, e.scroll_y), (2, 2));
}

#[test]
fn moving_up_scrolls_back() {
    let mut e = editor_with("0\n1\n2");
    e.scroll_y = 2;
    e.move_cursor(Key::Up);
    assert_eq!((e.cursor_y, e.scroll_y), (0, 1));
}

#[test]
fn selection_follows_cursor() {
    let mut e = editor_with("abc\ndef");
    e.cursor_x = 1;
    e.start_selection();
    e.cursor_x = 2;
    e.cursor_y = 1;
    e.update_selection();
    let s = e.selection.unwrap();
    assert_eq!((s.start_x, s.start_y, s.end_x, s.end_y), (1, 0, 2, 1));
}

#[test]
fn events_switch_modes_and_type() {
    let mut e = editor_with("x");
    assert_eq!(e.handle_event(Event::Key(Key::Char('a'), Modifiers::Plain)), Action::Continue);
    assert_eq!(lines(&e), vec!["x"]);
    e.handle_event(Event::Key(Key::Char('i'), Modifiers::Plain));
    assert!(e.mode == Mode::Insert);
    e.handle_event(Event::Key(Key::Char('i'), Modifiers::Plain));
    e.handle_event(Event::Key(Key::Char('a'), Modifiers::Control));
    assert_eq!(lines(&e), vec!["iax"]);
    e.handle_event(Event::Key(Key::Esc, Modifiers::Plain));
    assert!(e.mode == Mode::Viewing);
}

#[test]
fn control_keys_are_handed_on() {
    let mut e = editor_with("x");
    let cases = [('q', Action::Quit), ('s', Action::Save), ('c', Action::Copy), ('v', Action::Paste), ('z', Action::Undo), ('y', Action::Redo)];
    for (c, a) in cases {
        assert_eq!(e.handle_event(Event::Key(Key::Char(c), Modifiers::Control)), a);
    }
    assert_eq!(lines(&e), vec!["x"]);
}

#[test]
fn shift_arrows_select() {
    let mut e = editor_with("abcd");
    e.handle_event(Event::Key(Key::Right, Modifiers::Shift));
    e.handle_event(Event::Key(Key::Right, Modifiers::Shift));
    let s = e.selection.unwrap();
    assert_eq!((s.start_x, s.end_x), (0, 2));
    e.handle_event(Event::Key(Key::Right, Modifiers::Plain));
    assert!(e.selection.is_none());
    assert_eq!(e.cursor_x, 3);
}

#[test]
fn resize_sets_window() {
    let mut e = editor_with("x");
    e.handle_event(Event::Resize(100, 40));
    assert_eq!((e.window_width, e.window_height), (100, 40));
}

#[test]
fn frame_shows_numbered_lines_and_status() {
    let mut e = Editor::new(60, 5);
    e.load("a.txt", Some("one\ntwo\n3\n4\n5\n6\n7\n8\n9\n10"));
    e.cursor_x = 1;
    e.modified = true;
    let f = e.frame();
    assert_eq!(f.rows.len(), 4);
    match &f.rows[1] {
        Row::Line { number, cells } => {
            assert_eq!(number, " 2 ");
            let text: String = cells.iter().map(|c| c.0).collect();
            assert_eq!(text, "two");
        }
        Row::Filler => panic!("expected a line"),
    }
    let status = "x: 2, y: 1  MODE:VIEWING  FILE:a.txt   [+]";
    assert_eq!(f.status, format!("{}{}", status, " ".repeat(60 - status.len())));
    assert_eq!((f.cursor_col, f.cursor_row), (4, 0));
}

#[test]
fn frame_highlights_selection_and_fills() {
    let mut e = Editor::new(10, 4);
    e.load("b", Some("abcd\nefgh"));
    e.selection = Some(Selection { start_x: 2, start_y: 0, end_x: 1, end_y: 1 });
    let f = e.frame();
    let marks: Vec<Vec<bool>> = f.rows.iter().filter_map(|r| match r {
        Row::Line { cells, .. } => Some(cells.iter().map(|c| c.1).collect()),
        Row::Filler => None,
    }).collect();
    assert_eq!(marks, vec![vec![false, false, true, true], vec![true, false, false, false]]);
    assert!(matches!(f.rows[2], Row::Filler));
    assert!(f.status.starts_with("x: 1, y: 1  MODE:VIEWING  FILE:b   "));
}

#[test]
fn decimal_digits() {
    assert_eq!(decimal_string(0), "0");
    assert_eq!(decimal_string(907), "907");
    assert_eq!(decimal_string(usize::MAX), usize::MAX.to_string());
}

#[test]
fn save_prompt_answers() {
    assert_eq!(save_answer(Key::Char('y')), Some(true));
    assert_eq!(save_answer(Key::Char('n')), Some(false));
    assert_eq!(save_answer(Key::Enter), None);
}
