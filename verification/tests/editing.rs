use termedit::code_tabs::CodeTab;

fn tab(lines: &[&str]) -> CodeTab {
    CodeTab::from_lines(
        "main".to_string(),
        "main.rs".to_string(),
        lines.iter().map(|s| s.to_string()).collect(),
    )
}

#[test]
fn new_tab_starts_at_the_top() {
    let t = tab(&["fn main() {", "}"]);
    assert_eq!(t.cursor, (0, 0));
    assert_eq!(t.lineTokens.len(), 2);
    assert_eq!(t.lineTokenFlags.len(), 2);
    assert!(t.changeBuffer.is_empty());
}

#[test]
fn typing_inserts_at_the_cursor() {
    let mut t = tab(&["hello"]);
    let touched = t.InsertChars("ab".to_string());
    assert_eq!(t.lines, vec!["abhello".to_string()]);
    assert_eq!(t.cursor, (0, 2));
    assert_eq!(touched, vec![0]);
    assert_eq!(t.changeBuffer.len(), 1);
}

#[test]
fn undo_takes_back_typing() {
    let mut t = tab(&["hello", "world"]);
    t.cursor = (1, 5);
    t.InsertChars("!!".to_string());
    assert_eq!(t.lines[1], "world!!");
    t.Undo();
    assert_eq!(t.lines, vec!["hello".to_string(), "world".to_string()]);
    assert_eq!(t.redoneBuffer.len(), 1);
    assert!(t.changeBuffer.is_empty());
}

#[test]
fn redo_repeats_undone_typing() {
    let mut t = tab(&["abc"]);
    t.cursor = (0, 1);
    t.InsertChars("xy".to_string());
    t.Undo();
    t.Redo();
    assert_eq!(t.lines, vec!["axybc".to_string()]);
    assert_eq!(t.changeBuffer.len(), 1);
    assert!(t.redoneBuffer.is_empty());
}

#[test]
fn undo_with_an_empty_history_changes_nothing() {
    let mut t = tab(&["abc", "def"]);
    t.cursor = (1, 2);
    let touched = t.Undo();
    assert!(touched.is_empty());
    assert_eq!(t.lines, vec!["abc".to_string(), "def".to_string()]);
    assert_eq!(t.cursor, (1, 2));
}

#[test]
fn deleting_removes_the_character_before_the_cursor() {
    let mut t = tab(&["abhello"]);
    t.cursor = (0, 2);
    t.DelChars(1, 0);
    assert_eq!(t.lines, vec!["ahello".to_string()]);
    assert_eq!(t.cursor, (0, 1));
}

#[test]
fn deleting_at_a_line_start_joins_the_lines() {
    let mut t = tab(&["ab", "cd"]);
    t.cursor = (1, 0);
    t.DelChars(1, 0);
    assert_eq!(t.lines, vec!["abcd".to_string()]);
    assert_eq!(t.cursor, (0, 2));
    assert_eq!(t.lineTokens.len(), 1);
}

#[test]
fn undo_takes_back_a_deletion() {
    let mut t = tab(&["hello world"]);
    t.cursor = (0, 11);
    t.DelChars(5, 0);
    assert_eq!(t.lines[0], "hello ");
    t.Undo();
    assert_eq!(t.lines, vec!["hello world".to_string()]);
}

// Undoing a join replays the recorded empty deletion and the line removal: each
// inserts a line below the joined one, so the join itself stays.
#[test]
fn undo_of_a_line_join_inserts_empty_lines() {
    let mut t = tab(&["ab", "cd"]);
    t.cursor = (1, 0);
    t.DelChars(1, 0);
    t.Undo();
    assert_eq!(t.lines, vec!["abcd".to_string(), "".to_string(), "".to_string()]);
}

#[test]
fn line_break_splits_the_line() {
    let mut t = tab(&["abcd"]);
    t.cursor = (0, 2);
    t.LineBreakIn(false);
    assert_eq!(t.lines, vec!["ab".to_string(), "cd".to_string()]);
    assert_eq!(t.cursor, (1, 0));
    assert_eq!(t.lineTokens.len(), 2);
}

#[test]
fn undo_and_redo_a_line_break() {
    let mut t = tab(&["abcd"]);
    t.cursor = (0, 2);
    t.LineBreakIn(false);
    t.Undo();
    assert_eq!(t.lines, vec!["abcd".to_string()]);
    t.Redo();
    assert_eq!(t.lines, vec!["ab".to_string(), "cd".to_string()]);
}

#[test]
fn typing_replaces_the_selection() {
    let mut t = tab(&["hello world"]);
    t.cursor = (0, 5);
    t.cursorEnd = (0, 0);
    t.highlighting = true;
    t.InsertChars("bye".to_string());
    assert_eq!(t.lines, vec!["bye world".to_string()]);
    assert!(!t.highlighting);
}

#[test]
fn selection_text_spans_lines() {
    let mut t = tab(&["abc", "def"]);
    t.cursor = (1, 2);
    t.cursorEnd = (0, 1);
    t.highlighting = true;
    assert_eq!(t.GetSelection(), "bc\nde");
}

#[test]
fn selection_without_highlight_is_the_line() {
    let mut t = tab(&["abc", "def"]);
    t.cursor = (1, 1);
    assert_eq!(t.GetSelection(), "def\n");
}

#[test]
fn save_text_joins_the_lines() {
    let t = tab(&["a", "", "bc"]);
    assert_eq!(t.SaveText(), "a\n\nbc");
}

#[test]
fn cursor_moves_stay_on_lines() {
    let mut t = tab(&["abc", "de"]);
    t.CursorDown(false);
    assert_eq!(t.cursor.0, 1);
    t.CursorDown(false);
    assert_eq!(t.cursor.0, 1);
    t.CursorUp(false);
    t.CursorUp(false);
    assert_eq!(t.cursor.0, 0);
}

#[test]
fn cursor_left_and_right() {
    let mut t = tab(&["abc", "de"]);
    t.cursor = (0, 1);
    t.MoveCursorRight(1, false);
    assert_eq!(t.cursor, (0, 2));
    t.MoveCursorLeft(2, false);
    assert_eq!(t.cursor, (0, 0));
}
