//! Multi-cursor editing and atomic undo/redo.

use fresh::editor::Editor;

fn editor_with(text: &str) -> Editor {
    let mut ed = Editor::new(72, 22);
    ed.insert_text(text.as_bytes());
    ed
}

fn content_string(ed: &Editor) -> String {
    String::from_utf8(ed.content()).unwrap()
}

fn count_x(s: &str) -> usize {
    s.matches('X').count()
}

/// Test adding cursor at next match
#[test]
fn test_add_cursor_next_match() {
    let mut ed = editor_with("foo bar foo baz foo");
    assert_eq!(content_string(&ed), "foo bar foo baz foo");

    // Select the first "foo" (positions 0-3)
    ed.move_home(false);
    ed.move_right(true);
    ed.move_right(true);
    ed.move_right(true);

    assert_eq!(ed.primary_position(), 3);
    assert_eq!(ed.primary_anchor(), Some(0));

    // Add cursor at next "foo"
    ed.add_cursor_at_next_match();
    assert_eq!(ed.cursor_count(), 2);

    // Add cursor at third "foo"
    ed.add_cursor_at_next_match();
    assert_eq!(ed.cursor_count(), 3);
}

/// Test adding cursor above
#[test]
fn test_add_cursor_above() {
    let mut ed = editor_with("Line 1\nLine 2\nLine 3");
    assert_eq!(content_string(&ed), "Line 1\nLine 2\nLine 3");

    // Cursor is at the end, on Line 3; add cursors above
    ed.add_cursor_above();
    assert_eq!(ed.cursor_count(), 2);

    ed.add_cursor_above();
    assert_eq!(ed.cursor_count(), 3);
}

/// Test adding cursor below
#[test]
fn test_add_cursor_below() {
    let mut ed = editor_with("Line 1\nLine 2\nLine 3");

    // Position cursor at the buffer start (Line 1)
    ed.move_to_buffer_start();

    ed.add_cursor_below();
    assert_eq!(ed.cursor_count(), 2);

    ed.add_cursor_below();
    assert_eq!(ed.cursor_count(), 3);
}

/// Test multi-cursor typing
#[test]
fn test_multi_cursor_typing() {
    let mut ed = editor_with("aaa\nbbb\nccc\nddd");

    ed.move_to_buffer_start();

    // Each add-below promotes the new cursor, so the adds chain.
    ed.add_cursor_below();
    ed.add_cursor_below();
    assert_eq!(ed.cursor_count(), 3, "Should have 3 cursors");

    ed.insert_text(b"X");

    let result = content_string(&ed);
    assert_eq!(
        count_x(&result),
        3,
        "Should have inserted exactly 3 X's, one per cursor"
    );
}

/// Test removing secondary cursors
#[test]
fn test_remove_secondary_cursors() {
    let mut ed = editor_with("Line 1\nLine 2\nLine 3");

    ed.add_cursor_above();
    ed.add_cursor_above();
    assert_eq!(ed.cursor_count(), 3);

    ed.remove_secondary();
    assert_eq!(ed.cursor_count(), 1);
}

/// Test multi-cursor undo atomicity
/// When using multiple cursors, undo should undo all cursor actions in one step
#[test]
fn test_multi_cursor_undo_atomic() {
    let mut ed = editor_with("aaa\nbbb\nccc\nddd");

    ed.move_to_buffer_start();
    ed.add_cursor_below();
    ed.add_cursor_below();
    assert_eq!(ed.cursor_count(), 3, "Should have 3 cursors");

    ed.insert_text(b"X");
    let result = content_string(&ed);
    assert_eq!(
        count_x(&result),
        3,
        "Should have inserted exactly 3 X's, one per cursor. Buffer: {}",
        result
    );

    // Undo once - this should undo ALL three insertions atomically
    ed.undo();
    let result_after_undo = content_string(&ed);
    assert_eq!(
        count_x(&result_after_undo),
        0,
        "Should have removed all X's with single undo. Buffer: {}",
        result_after_undo
    );
    assert_eq!(result_after_undo, "aaa\nbbb\nccc\nddd");

    // Redo once - this should redo ALL three insertions atomically
    ed.redo();
    let result_after_redo = content_string(&ed);
    assert_eq!(
        count_x(&result_after_redo),
        3,
        "Should have restored all 3 X's with single redo. Buffer: {}",
        result_after_redo
    );
}

/// Test multi-cursor delete undo atomicity
#[test]
fn test_multi_cursor_delete_undo_atomic() {
    let mut ed = editor_with("aaa\nbbb\nccc");

    ed.move_to_buffer_start();
    ed.add_cursor_below();
    ed.add_cursor_below();
    assert_eq!(ed.cursor_count(), 3);

    // Delete forward at all three cursors - deletes 'a', 'b', 'c'
    ed.delete_forward();
    assert_eq!(content_string(&ed), "aa\nbb\ncc");

    // Undo once - should restore all three characters
    ed.undo();
    assert_eq!(content_string(&ed), "aaa\nbbb\nccc");
}

/// Test that adding cursors can be undone
#[test]
fn test_add_cursor_undo() {
    let mut ed = editor_with("Line 1\nLine 2\nLine 3");

    ed.move_to_buffer_start();
    assert_eq!(ed.cursor_count(), 1);

    ed.add_cursor_below();
    assert_eq!(ed.cursor_count(), 2);

    ed.add_cursor_below();
    assert_eq!(ed.cursor_count(), 3);

    // Undo - should remove the last cursor added
    ed.undo();
    assert_eq!(ed.cursor_count(), 2);

    // Undo again - should remove the second cursor
    ed.undo();
    assert_eq!(ed.cursor_count(), 1);

    // Redo - should add cursor back
    ed.redo();
    assert_eq!(ed.cursor_count(), 2);
}

/// Test that removing cursors can be undone
#[test]
fn test_remove_cursor_undo() {
    let mut ed = editor_with("Line 1\nLine 2\nLine 3");

    ed.move_to_buffer_start();
    ed.add_cursor_below();
    ed.add_cursor_below();
    assert_eq!(ed.cursor_count(), 3);

    ed.remove_secondary();
    assert_eq!(ed.cursor_count(), 1);

    // Undo - should restore the secondary cursors
    ed.undo();
    assert_eq!(ed.cursor_count(), 3);

    // Redo - should remove them again
    ed.redo();
    assert_eq!(ed.cursor_count(), 1);
}

/// Test undo beyond cursor add removes the cursor and undoes the edit
#[test]
fn test_undo_beyond_cursor_add() {
    let mut ed = editor_with("aaa\nbbb\nccc");

    ed.move_to_buffer_start();
    assert_eq!(ed.cursor_count(), 1);

    ed.add_cursor_below();
    assert_eq!(ed.cursor_count(), 2);

    ed.insert_text(b"X");
    let result = content_string(&ed);
    assert_eq!(count_x(&result), 2, "Should have 2 X's. Buffer: {}", result);

    // Undo - should undo the batch insertion
    ed.undo();
    let result = content_string(&ed);
    assert_eq!(count_x(&result), 0, "Should have 0 X's. Buffer: {}", result);
    assert_eq!(ed.cursor_count(), 2);

    // Undo again - should remove the second cursor
    ed.undo();
    assert_eq!(ed.cursor_count(), 1);

    // Redo - should add the cursor back
    ed.redo();
    assert_eq!(ed.cursor_count(), 2);

    // Redo again - should redo the batch insertion
    ed.redo();
    let result = content_string(&ed);
    assert_eq!(count_x(&result), 2, "Should have 2 X's back. Buffer: {}", result);
}

/// Test comprehensive multi-cursor editing with multiple 'abc' lines
#[test]
fn test_multi_cursor_comprehensive_abc_editing() {
    let mut ed = editor_with("abc1\nabc2\nabc3\nabc4");

    ed.move_to_buffer_start();
    ed.add_cursor_below();
    ed.add_cursor_below();
    ed.add_cursor_below();
    assert_eq!(ed.cursor_count(), 4, "Should have 4 cursors");

    ed.insert_text(b"X");
    let result = content_string(&ed);
    assert_eq!(
        count_x(&result),
        4,
        "Should have inserted exactly 4 X's, one per cursor. Buffer: {}",
        result
    );

    ed.undo();
    let result_after_undo = content_string(&ed);
    assert_eq!(
        count_x(&result_after_undo),
        0,
        "Should have removed all X's with single undo. Buffer: {}",
        result_after_undo
    );
    assert_eq!(ed.cursor_count(), 4);
}

/// Test cursor behavior with identical line content
#[test]
fn test_identical_lines_cursor_positions() {
    let mut ed = editor_with("abc\nabc\nabc\nabc");
    assert_eq!(content_string(&ed), "abc\nabc\nabc\nabc");

    ed.move_to_buffer_start();

    ed.add_cursor_below();
    ed.add_cursor_below();
    ed.add_cursor_below();
    assert_eq!(ed.cursor_count(), 4);

    ed.insert_text(b"X");
    let result = content_string(&ed);
    assert_eq!(
        count_x(&result),
        4,
        "Should have 4 X's, one per cursor. Buffer:\n{}",
        result
    );
}
