//! Word deletion, cursor visibility, history edge cases, and layout
//! details.

use fresh::editor::Editor;
use fresh::layout::{line_index_of, offset_to_screen, screen_to_offset, wrap_line};
use fresh::scroll::visual_row_of_exec;

fn content_string(ed: &Editor) -> String {
    String::from_utf8(ed.content()).unwrap()
}

/// Test Ctrl+Backspace deletes the word before the cursor
#[test]
fn test_ctrl_backspace_deletes_word_backward() {
    let mut ed = Editor::new(72, 22);
    ed.insert_text(b"hello world test");
    assert_eq!(ed.primary_position(), 16);

    ed.delete_word_backward();
    assert_eq!(content_string(&ed), "hello world ");
    assert_eq!(ed.primary_position(), 12);

    ed.delete_word_backward();
    assert_eq!(content_string(&ed), "hello ");
}

/// Test the cursor lands on the new row after Enter at the end of the file
#[test]
fn test_cursor_visible_after_enter_at_end_of_file() {
    let mut ed = Editor::new(72, 22);
    ed.insert_text(b"line1\nline2\nline3");
    ed.insert_text(b"\n");
    assert_eq!(content_string(&ed), "line1\nline2\nline3\n");

    // The cursor sits on the fourth row (index 3), which is visible.
    let row = visual_row_of_exec(&ed.content(), ed.primary_position(), 72, 4);
    assert_eq!(row, 3, "Cursor should be on row 4 (new line after line3), got row {}", row);
    assert!(ed.scroll.scroll_top <= row && row < ed.scroll.scroll_top + 22);

    ed.insert_text(b"x");
    assert_eq!(content_string(&ed), "line1\nline2\nline3\nx");
}

/// Test the cursor stays visible when moving down through a large file
#[test]
fn test_cursor_visible_when_scrolling_down_in_large_file() {
    let height = 8;
    let mut ed = Editor::new(72, height);
    let mut content = String::new();
    for i in 0..30 {
        if i > 0 {
            content.push('\n');
        }
        content.push_str(&format!("line {}", i));
    }
    ed.insert_text(content.as_bytes());
    ed.move_to_buffer_start();

    for _ in 0..16 {
        ed.move_vertical(true, false);
        let row = visual_row_of_exec(&ed.content(), ed.primary_position(), 72, 4);
        assert!(
            ed.scroll.scroll_top <= row && row < ed.scroll.scroll_top + height,
            "After down arrows, cursor disappeared off screen at row {}",
            row
        );
    }

    let line = line_index_of(&ed.content(), ed.primary_position());
    assert_eq!(line, 16, "Should be at line 16 (0-indexed), got line {}", line);
}

/// Undo and redo on empty stacks are silent no-ops.
#[test]
fn test_undo_redo_empty_stacks() {
    let mut ed = Editor::new(72, 22);
    ed.undo();
    assert_eq!(content_string(&ed), "");
    ed.redo();
    assert_eq!(content_string(&ed), "");

    ed.insert_text(b"abc");
    ed.undo();
    assert_eq!(content_string(&ed), "");
    ed.undo();
    assert_eq!(content_string(&ed), "");
    ed.redo();
    assert_eq!(content_string(&ed), "abc");
    ed.redo();
    assert_eq!(content_string(&ed), "abc");
}

/// A new edit clears the redo stack.
#[test]
fn test_new_edit_clears_redo() {
    let mut ed = Editor::new(72, 22);
    ed.insert_text(b"one");
    ed.undo();
    ed.insert_text(b"two");
    ed.redo();
    assert_eq!(content_string(&ed), "two");
}

/// Bounds faults clamp silently: backspace at the start and delete at the
/// end change nothing.
#[test]
fn test_delete_at_buffer_edges() {
    let mut ed = Editor::new(72, 22);
    ed.insert_text(b"ab");
    ed.delete_forward();
    assert_eq!(content_string(&ed), "ab");
    ed.move_to_buffer_start();
    ed.delete_backward();
    assert_eq!(content_string(&ed), "ab");
    ed.move_left(false);
    assert_eq!(ed.primary_position(), 0);
    ed.move_to_buffer_end();
    ed.move_right(false);
    assert_eq!(ed.primary_position(), 2);
}

/// Cursors that land on the same position collapse into one.
#[test]
fn test_colliding_cursors_collapse() {
    let mut ed = Editor::from_bytes(b"a\nb".to_vec(), 72, 22);
    ed.move_to_buffer_start();
    ed.add_cursor_below();
    assert_eq!(ed.cursor_count(), 2);
    // Moving every cursor to the buffer start merges them.
    ed.move_to_buffer_start();
    assert_eq!(ed.cursor_count(), 1);
    assert_eq!(ed.primary_position(), 0);
}

/// An empty logical line is exactly one empty visual row.
#[test]
fn test_empty_line_single_row() {
    let rows = wrap_line(b"", 52, 4);
    assert_eq!(rows, vec![(0, 0)]);
}

/// Tabs count their configured display width, multi-byte characters one
/// column per character.
#[test]
fn test_display_width_rules() {
    // "a<tab>b": columns 0, 1..5, 5.
    let line = b"a\tb";
    let (row, col) = offset_to_screen(line, 2, 52, 4);
    assert_eq!((row, col), (0, 5));

    // A two-byte UTF-8 character occupies one column.
    let line2 = "aéb".as_bytes();
    assert_eq!(line2.len(), 4);
    let (_, col_end) = offset_to_screen(line2, 4, 52, 4);
    assert_eq!(col_end, 3);
}

/// The inverse mapping rounds to the first character boundary at or past
/// the requested column, clamped to the row's end.
#[test]
fn test_screen_to_offset_rounding() {
    let line = b"a\tbc";
    // Column 5 is the boundary right after the tab.
    assert_eq!(screen_to_offset(line, 0, 5, 52, 4), 2);
    // Columns inside the tab round forward to the same boundary.
    assert_eq!(screen_to_offset(line, 0, 3, 52, 4), 2);
    // Columns past the row's text clamp to the row end.
    assert_eq!(screen_to_offset(line, 0, 40, 52, 4), 4);
    // A row index past the line clamps to the last row.
    assert_eq!(screen_to_offset(line, 7, 0, 52, 4), 0);
}

/// Vertical movement keeps the display column, clamped to the target row.
#[test]
fn test_vertical_movement_clamps_column() {
    let mut ed = Editor::new(72, 22);
    ed.insert_text(b"a much longer first line\nxy\nanother long third line");
    // End of the second line.
    ed.move_to(27);
    assert_eq!(content_string(&ed).as_bytes()[25], b'x');
    // Down to the third line, column 2.
    ed.move_vertical(true, false);
    let pos = ed.primary_position();
    assert_eq!(pos, 30);
    // Up twice: to the short line's end (clamp), then into the first line.
    ed.move_vertical(false, false);
    assert_eq!(ed.primary_position(), 27);
    ed.move_vertical(false, false);
    assert_eq!(ed.primary_position(), 2);
}

/// Selections extend with shift-style movement and clear on plain movement.
#[test]
fn test_selection_anchor_handling() {
    let mut ed = Editor::new(72, 22);
    ed.insert_text(b"hello");
    ed.move_home(false);
    ed.move_right(true);
    ed.move_right(true);
    assert_eq!(ed.primary_position(), 2);
    assert_eq!(ed.primary_anchor(), Some(0));
    ed.move_right(false);
    assert_eq!(ed.primary_anchor(), None);
}

/// Disabling wrap never changes the logical buffer content.
#[test]
fn test_wrap_toggle_preserves_content() {
    let text = "a line that is certainly longer than the configured viewport width of the editor";
    let mut ed = Editor::new(40, 22);
    ed.insert_text(text.as_bytes());
    let before = content_string(&ed);
    ed.set_wrap_enabled(false);
    assert_eq!(content_string(&ed), before);
    ed.set_wrap_enabled(true);
    assert_eq!(content_string(&ed), before);
    assert_eq!(ed.scroll.h_offset, 0);
}

/// Mouse clicks translate through the wrapped visible-row accounting.
#[test]
fn test_mouse_click_on_wrapped_lines() {
    // A 110-character line wraps into rows 0..=2 at width 52; the empty
    // line is row 3; the short line is row 4.
    let long_line = "x".repeat(110);
    let text = format!("{}\n\nShort line here.", long_line);
    let mut ed = Editor::new(52, 22);
    ed.insert_text(text.as_bytes());
    ed.move_to_buffer_start();

    // Click on the first row of the wrapped line.
    ed.click(0, 5);
    assert_eq!(ed.primary_position(), 5);

    // Click on a wrapped continuation row stays within the same logical line.
    ed.click(1, 2);
    assert_eq!(ed.primary_position(), 54);

    // Click on the empty line lands at its (empty) start.
    ed.click(3, 5);
    assert_eq!(ed.primary_position(), 111);

    // Click on the line after the empty line.
    ed.click(4, 2);
    assert_eq!(ed.primary_position(), 114);

    // Click past the end of the text clamps to the buffer's end.
    ed.click(100, 0);
    assert_eq!(ed.primary_position(), text.len());
}

/// Word deletion applies at every cursor simultaneously and is one
/// undoable transaction.
#[test]
fn test_multi_cursor_word_delete() {
    let mut ed = Editor::new(72, 22);
    ed.insert_text(b"alpha one\nbeta two\ngamma three");
    ed.move_to_buffer_end();
    ed.move_to(9);
    ed.add_cursor_below();
    ed.add_cursor_below();
    assert_eq!(ed.cursor_count(), 3);

    // Each cursor sits at its line's end; each deletes its last word.
    ed.move_end(false);
    ed.delete_word_backward();
    assert_eq!(content_string(&ed), "alpha \nbeta \ngamma ");
    assert_eq!(ed.cursor_count(), 3);

    ed.undo();
    assert_eq!(content_string(&ed), "alpha one\nbeta two\ngamma three");
}

/// A word deletion is clamped at the previous cursor, keeping simultaneous
/// deletions disjoint.
#[test]
fn test_word_delete_clamps_at_previous_cursor() {
    // Both cursors sit inside the same word "abcdcd": select "cd" (2..4)
    // and add a cursor at the next occurrence, giving cursors at 4 and 6.
    let mut ed = Editor::from_bytes(b"abcdcd".to_vec(), 72, 22);
    ed.move_to(2);
    ed.move_right(true);
    ed.move_right(true);
    ed.add_cursor_at_next_match();
    assert_eq!(ed.cursor_count(), 2);

    // The lower cursor deletes the word back to 0; the higher cursor's word
    // start would also be 0, but it is clamped at the lower cursor (4), so
    // it deletes only [4, 6) and the whole buffer empties without overlap.
    ed.delete_word_backward();
    assert_eq!(content_string(&ed), "");
    assert_eq!(ed.cursor_count(), 1);
    ed.undo();
    assert_eq!(content_string(&ed), "abcdcd");
    assert_eq!(ed.cursor_count(), 2);
}

/// `move_to` past the buffer clamps silently to its end.
#[test]
fn test_move_to_clamps() {
    let mut ed = Editor::from_bytes(b"abc".to_vec(), 72, 22);
    ed.move_to(100);
    assert_eq!(ed.primary_position(), 3);
}
