//! Soft-wrap layout, wrapped-line navigation and editing.
//!
//! The editors here use a text width of 52 columns: a 60-column terminal
//! minus an 8-column gutter.

use fresh::editor::Editor;
use fresh::layout::{offset_to_screen, wrap_line};
use fresh::scroll::visual_row_of_exec;

const WIDTH: usize = 52;

fn editor_with(text: &str) -> Editor {
    let mut ed = Editor::new(WIDTH, 22);
    ed.insert_text(text.as_bytes());
    ed
}

fn content_string(ed: &Editor) -> String {
    String::from_utf8(ed.content()).unwrap()
}

/// Test basic line wrapping
#[test]
fn test_line_wrapping_basic_rendering() {
    let long_text = "This is a very long line of text that will definitely exceed the terminal width and should wrap to multiple lines when line wrapping is enabled.";
    let ed = editor_with(long_text);

    // The layout decomposes the line into several visual rows.
    let rows = wrap_line(long_text.as_bytes(), WIDTH, 4);
    assert!(rows.len() > 1, "Screen should contain some part of the wrapped text");

    // Buffer content is still a single logical line (no newlines added).
    assert_eq!(content_string(&ed), long_text);
    assert!(!content_string(&ed).contains('\n'));
}

/// Test line wrapping can be disabled
#[test]
fn test_line_wrapping_disabled() {
    let mut ed = Editor::new(WIDTH, 22);
    ed.set_wrap_enabled(false);

    let long_text = "This is a very long line of text that will definitely exceed the terminal width and would normally wrap but should not when disabled.";
    ed.insert_text(long_text.as_bytes());

    // Buffer content should still be a single line
    assert_eq!(content_string(&ed), long_text);
    assert!(!content_string(&ed).contains('\n'));
}

/// Test cursor navigation with wrapped lines - Home key
#[test]
fn test_wrapped_line_navigation_home() {
    let long_text = "This is a very long line of text that will definitely exceed the terminal width and should wrap to multiple lines.";
    let mut ed = editor_with(long_text);

    // Cursor should be at the end
    assert_eq!(ed.primary_position(), long_text.len());

    // Home goes to the start of the logical line, not the wrapped row
    ed.move_home(false);
    assert_eq!(ed.primary_position(), 0);
}

/// Test cursor navigation with wrapped lines - End key
#[test]
fn test_wrapped_line_navigation_end() {
    let long_text = "This is a very long line of text that will definitely exceed the terminal width and should wrap to multiple lines.";
    let mut ed = editor_with(long_text);

    ed.move_home(false);
    assert_eq!(ed.primary_position(), 0);

    // End goes to the end of the logical line, not just the wrapped portion
    ed.move_end(false);
    assert_eq!(ed.primary_position(), long_text.len());
}

/// Test cursor navigation with wrapped lines - Left/Right arrows
#[test]
fn test_wrapped_line_navigation_arrows() {
    let mut ed = editor_with(
        "This is a very long line of text that will definitely exceed the terminal width and should wrap to multiple lines.",
    );
    let end_pos = ed.primary_position();

    for _ in 0..10 {
        ed.move_left(false);
    }
    assert_eq!(ed.primary_position(), end_pos - 10);

    for _ in 0..5 {
        ed.move_right(false);
    }
    assert_eq!(ed.primary_position(), end_pos - 5);
}

/// Test editing in the middle of a wrapped line
#[test]
fn test_wrapped_line_editing_middle() {
    let long_text = "This is a very long line of text that will definitely exceed the terminal width and should wrap.";
    let mut ed = editor_with(long_text);

    ed.move_home(false);
    for _ in 0..20 {
        ed.move_right(false);
    }
    assert_eq!(ed.primary_position(), 20);

    ed.insert_text(b"[INSERTED]");

    let expected = "This is a very long [INSERTED]line of text that will definitely exceed the terminal width and should wrap.";
    assert_eq!(content_string(&ed), expected);
    assert_eq!(ed.primary_position(), 30);
}

/// Test multiple wrapped lines
#[test]
fn test_multiple_wrapped_lines() {
    let mut ed = Editor::new(WIDTH, 22);
    ed.insert_text(
        b"First very long line that will wrap across multiple display lines in the terminal window.",
    );
    ed.insert_text(b"\n");
    ed.insert_text(
        b"Second very long line that will also wrap and take up multiple rows in the display.",
    );
    ed.insert_text(b"\n");
    ed.insert_text(b"Third line is shorter.");

    let buffer_content = content_string(&ed);

    // Should have exactly 2 newlines (3 logical lines)
    assert_eq!(buffer_content.matches('\n').count(), 2);

    assert!(buffer_content.contains("First very long line"));
    assert!(buffer_content.contains("Second very long line"));
    assert!(buffer_content.contains("Third line is shorter"));
}

/// Test Up/Down navigation with wrapped lines
#[test]
fn test_wrapped_line_navigation_up_down() {
    let mut ed = Editor::new(WIDTH, 22);
    ed.insert_text(
        b"This is a very long first line that will wrap to multiple display lines in the terminal.",
    );
    ed.insert_text(b"\n");
    ed.insert_text(b"Short second line.");

    let second_line_end = ed.primary_position();

    // Up goes to the first line
    ed.move_vertical(false, false);
    let first_line_pos = ed.primary_position();
    assert!(first_line_pos < second_line_end);

    // Down goes back near the end of the second line
    ed.move_vertical(true, false);
    assert!(ed.primary_position() >= second_line_end - 20);
}

/// Test deleting content in wrapped lines
#[test]
fn test_wrapped_line_deletion() {
    let mut ed = editor_with("This is a very long line that will wrap to multiple display lines.");
    let initial_len = content_string(&ed).len();

    for _ in 0..10 {
        ed.delete_backward();
    }

    assert_eq!(content_string(&ed).len(), initial_len - 10);

    let content = content_string(&ed);
    assert!(content.ends_with("disp"), "Content should end with 'disp' after deletion");
}

/// Test that the logical line structure is kept with wrapped lines
#[test]
fn test_wrapped_line_numbers() {
    let mut ed = Editor::new(WIDTH, 22);
    ed.insert_text(
        b"First line is very long and will wrap across multiple display rows in the terminal window.",
    );
    ed.insert_text(b"\n");
    ed.insert_text(b"Second line is short.");
    ed.insert_text(b"\n");
    ed.insert_text(b"Third line is also short.");

    let content = content_string(&ed);

    // Three logical lines, and the first alone takes several visual rows.
    assert_eq!(content.matches('\n').count(), 2);
    let first_line_len = content.find('\n').unwrap();
    let rows = wrap_line(&content.as_bytes()[..first_line_len], WIDTH, 4);
    assert!(rows.len() > 1);

    // The cursor at the end sits on logical line 3 (index 2).
    let pos = ed.primary_position();
    assert_eq!(fresh::layout::line_index_of(&ed.content(), pos), 2);
}

/// Test that horizontal scrolling stays off when line wrapping is enabled
#[test]
fn test_wrapped_line_no_horizontal_scroll() {
    let long_text = "A fast, lightweight terminal text editor written in Rust. Handles files of any size with instant startup, low memory usage, and modern IDE features.";
    let mut ed = editor_with(long_text);

    ed.move_home(false);
    assert_eq!(ed.scroll.h_offset, 0);

    // End moves to the line's end without any horizontal scroll
    ed.move_end(false);
    assert_eq!(ed.primary_position(), long_text.len(), "Cursor should be at end of line");
    assert_eq!(ed.scroll.h_offset, 0);
}

/// Test cursor position updates correctly as it moves through wrapped lines
#[test]
fn test_wrapped_line_cursor_positioning() {
    let long_text = "The quick brown fox jumps over the lazy dog and runs through the forest, exploring ancient trees and mysterious pathways that wind between towering oaks.";
    let mut ed = editor_with(long_text);
    let text = long_text.as_bytes();
    let n = text.len();

    ed.move_home(false);
    assert_eq!(ed.primary_position(), 0, "Cursor should be at position 0 after Home");
    let (row0, col0) = offset_to_screen(text, 0, WIDTH, 4);
    assert_eq!((row0, col0), (0, 0));

    // Walking right, the screen position follows the greedy wrap: for pure
    // ASCII, each row holds exactly WIDTH columns, and the wrap boundary
    // belongs to the next row.
    let mut first_wrap = None;
    let mut second_wrap = None;
    for i in 0..=n {
        let (row, col) = offset_to_screen(text, i, WIDTH, 4);
        assert_eq!(row, i / WIDTH, "Buffer position should be {}", i);
        assert_eq!(col, i % WIDTH);
        if i > 0 && col == 0 {
            if first_wrap.is_none() {
                first_wrap = Some(i);
            } else if second_wrap.is_none() {
                second_wrap = Some(i);
            }
        }
    }
    assert_eq!(first_wrap, Some(WIDTH), "Should have detected first wrap point");
    assert_eq!(second_wrap, Some(2 * WIDTH), "Should have detected second wrap point");

    // End lands on a later visual row than the start.
    ed.move_end(false);
    assert_eq!(ed.primary_position(), n, "Cursor should be at end after End key");
    let (end_row, _) = offset_to_screen(text, n, WIDTH, 4);
    assert!(end_row > 0, "End cursor should be on a later line than start (text should wrap)");

    // Moving left across a wrap boundary goes back up a row.
    ed.move_home(false);
    assert_eq!(ed.primary_position(), 0, "Cursor should be at position 0 after final Home");
}

/// Test scrolling when navigating down through wrapped lines
#[test]
fn test_wrapped_line_scrolling_down_past_viewport() {
    let height = 10;
    let mut ed = Editor::new(WIDTH, height);
    let mut content = String::new();
    for i in 0..20 {
        if i > 0 {
            content.push('\n');
        }
        content.push_str(&format!(
            "[{}] This line number {} is deliberately written long enough to wrap over more than one visual row in the viewport.",
            i, i
        ));
    }
    ed.insert_text(content.as_bytes());
    ed.move_to_buffer_start();
    assert_eq!(ed.primary_position(), 0, "Should be at start of buffer");
    assert_eq!(ed.scroll.scroll_top, 0);

    let mut scrolled = false;
    for _ in 0..30 {
        ed.move_vertical(true, false);
        let row = visual_row_of_exec(&ed.content(), ed.primary_position(), WIDTH, 4);
        // The primary cursor's visual row stays inside the viewport.
        assert!(ed.scroll.scroll_top <= row);
        assert!(row < ed.scroll.scroll_top + height);
        if ed.scroll.scroll_top > 0 {
            scrolled = true;
        }
    }
    assert!(
        scrolled,
        "Scrolling should have occurred when navigating through wrapped lines"
    );

    // We moved well past the first few logical lines.
    let line = fresh::layout::line_index_of(&ed.content(), ed.primary_position());
    assert!(line >= 5, "Should have navigated to at least line 5, but only reached line {}", line);
}
