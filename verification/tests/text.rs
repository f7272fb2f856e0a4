use zhist::text::{apply_edit, split_text, substring, TextEdit};

fn edit(text: &str, cursor: usize, e: TextEdit) -> (String, usize, bool) {
    let mut text = text.to_string();
    let mut cursor = cursor;
    let changed = apply_edit(&mut text, &mut cursor, e);
    (text, cursor, changed)
}

#[test]
fn typing_goes_in_at_the_cursor() {
    assert_eq!(edit("", 0, TextEdit::Insert('a')), ("a".to_string(), 1, true));
    assert_eq!(edit("ac", 1, TextEdit::Insert('…')), ("a…c".to_string(), 4, true));
    assert_eq!(edit("a…", 4, TextEdit::Insert('!')), ("a…!".to_string(), 5, true));
}

#[test]
fn backspace_and_delete_take_whole_characters() {
    assert_eq!(edit("a…c", 4, TextEdit::Backspace), ("ac".to_string(), 1, true));
    assert_eq!(edit("a…c", 0, TextEdit::Backspace), ("a…c".to_string(), 0, false));
    assert_eq!(edit("a…c", 1, TextEdit::Delete), ("ac".to_string(), 1, true));
    assert_eq!(edit("a…c", 5, TextEdit::Delete), ("a…c".to_string(), 5, false));
}

#[test]
fn the_cursor_moves_by_characters() {
    assert_eq!(edit("a…c", 1, TextEdit::Right), ("a…c".to_string(), 4, false));
    assert_eq!(edit("a…c", 5, TextEdit::Right), ("a…c".to_string(), 5, false));
    assert_eq!(edit("a…c", 4, TextEdit::Left), ("a…c".to_string(), 1, false));
    assert_eq!(edit("a…c", 0, TextEdit::Left), ("a…c".to_string(), 0, false));
    assert_eq!(edit("a…c", 4, TextEdit::Home), ("a…c".to_string(), 0, false));
    assert_eq!(edit("a…c", 0, TextEdit::End), ("a…c".to_string(), 5, false));
}

#[test]
fn clearing_counts_as_a_change() {
    assert_eq!(edit("a…c", 4, TextEdit::Clear), (String::new(), 0, true));
    assert_eq!(edit("", 0, TextEdit::Clear), (String::new(), 0, true));
}

#[test]
fn typing_and_backspace_cancel_out() {
    let mut text = "x…y".to_string();
    let mut cursor = 4;
    apply_edit(&mut text, &mut cursor, TextEdit::Insert('é'));
    assert_eq!((text.as_str(), cursor), ("x…éy", 6));
    apply_edit(&mut text, &mut cursor, TextEdit::Backspace);
    assert_eq!((text.as_str(), cursor), ("x…y", 4));
}

#[test]
fn right_and_left_cancel_out() {
    let mut text = "x…y".to_string();
    let mut cursor = 1;
    apply_edit(&mut text, &mut cursor, TextEdit::Right);
    apply_edit(&mut text, &mut cursor, TextEdit::Left);
    assert_eq!(cursor, 1);
}

#[test]
fn texts_split_at_boundaries() {
    assert_eq!(split_text("a…c", 4), ("a…", "c"));
    assert_eq!(split_text("a…c", 0), ("", "a…c"));
    assert_eq!(substring("a…c", 1, 4), "…");
    assert_eq!(substring("a…c", 4, 4), "");
}
