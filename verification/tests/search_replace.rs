//! Literal search and the interactive query-replace walk.

use fresh::editor::Editor;
use fresh::search::{find_in_range, QueryReplace};

fn content_string(ed: &Editor) -> String {
    String::from_utf8(ed.content()).unwrap()
}

/// Test basic forward search
#[test]
fn test_basic_search_forward() {
    let content = b"hello world\nfoo bar\nhello again\nbaz";

    // First occurrence from the start.
    let first = find_in_range(content, b"hello", 0, content.len());
    assert_eq!(first, Some(0), "Cursor should be at the start of first 'hello'");

    // Next occurrence, searching past the first.
    let second = find_in_range(content, b"hello", 1, content.len());
    assert_eq!(second, Some(20), "Cursor should be at the start of second 'hello'");

    // No further occurrence.
    let third = find_in_range(content, b"hello", 21, content.len());
    assert_eq!(third, None);
}

/// Test interactive replace wrap-around behavior
#[test]
fn test_interactive_replace_wrap_around() {
    // "foo" appears at offsets 0, 16 and 29; the walk starts at offset 25,
    // between the second and third occurrence.
    let mut ed = Editor::from_bytes(b"foo is here\nand\nfoo is there\nfoo again".to_vec(), 72, 22);
    ed.move_to(25);
    assert_eq!(ed.primary_position(), 25, "Cursor should be at position 25");

    let mut qr = QueryReplace::start(&mut ed, b"foo".to_vec(), b"XXX".to_vec());

    // First visit: the match after the starting position.
    assert_eq!(ed.primary_position(), 29, "Should be at third 'foo' (position 29)");
    assert!(!qr.wrapped);
    assert!(!qr.finished);

    // Replace it; the walk wraps to the buffer's start.
    qr.step(&mut ed, true);
    assert_eq!(ed.primary_position(), 0, "Should wrap to first 'foo' (position 0)");
    assert!(qr.wrapped);

    // Skip this one; next is the second occurrence.
    qr.step(&mut ed, false);
    assert_eq!(ed.primary_position(), 16, "Should be at second 'foo' (position 16)");
    assert!(qr.wrapped);

    // Replace it; the walk reaches the starting position and stops.
    qr.step(&mut ed, true);
    assert!(qr.finished);
    assert_eq!(qr.replaced, 2);

    assert_eq!(
        content_string(&ed),
        "foo is here\nand\nXXX is there\nXXX again",
        "Should have replaced 2nd and 3rd 'foo' only"
    );
}

/// Test interactive replace stops at starting position after wrap
#[test]
fn test_interactive_replace_wrap_stops_at_start() {
    // "foo" appears at offsets 0, 12 and 20; the walk starts at offset 12.
    let mut ed = Editor::from_bytes(b"foo\nbar\nbaz\nfoo\nqux\nfoo".to_vec(), 72, 22);
    ed.move_to(12);

    let mut qr = QueryReplace::start(&mut ed, b"foo".to_vec(), b"XXX".to_vec());

    // Starts on the second "foo"; skip it.
    assert_eq!(ed.primary_position(), 12);
    qr.step(&mut ed, false);

    // Third "foo"; skip it.
    assert_eq!(ed.primary_position(), 20);
    qr.step(&mut ed, false);

    // Wraps to the first "foo"; replace it.
    assert!(qr.wrapped);
    assert_eq!(ed.primary_position(), 0);
    qr.step(&mut ed, true);

    // The next match would reach the starting position: done.
    assert!(qr.finished);
    assert_eq!(qr.replaced, 1);
    assert_eq!(content_string(&ed), "XXX\nbar\nbaz\nfoo\nqux\nfoo");
}

/// A replacement made through query-replace is one undoable transaction.
#[test]
fn test_replace_is_undoable() {
    let mut ed = Editor::from_bytes(b"one two one".to_vec(), 72, 22);
    ed.move_to(0);
    let mut qr = QueryReplace::start(&mut ed, b"one".to_vec(), b"1".to_vec());
    assert_eq!(ed.primary_position(), 0);
    qr.step(&mut ed, true);
    assert_eq!(content_string(&ed), "1 two one");
    assert_eq!(ed.primary_position(), 6);
    ed.undo();
    assert_eq!(content_string(&ed), "one two one");
}

/// With no match anywhere the session starts out finished.
#[test]
fn test_replace_no_match() {
    let mut ed = Editor::from_bytes(b"alpha beta".to_vec(), 72, 22);
    let qr = QueryReplace::start(&mut ed, b"zzz".to_vec(), b"q".to_vec());
    assert!(qr.finished);
    assert_eq!(qr.current, None);
    assert_eq!(qr.replaced, 0);
}

/// Replacements with a different length keep the walk coherent.
#[test]
fn test_replace_length_change() {
    // "ab" at 0, 5, 10; start at 3: visits 5, 10, wraps to 0.
    let mut ed = Editor::from_bytes(b"ab.cdab.cdab".to_vec(), 72, 22);
    ed.move_to(3);
    let mut qr = QueryReplace::start(&mut ed, b"ab".to_vec(), b"WXYZ".to_vec());
    assert_eq!(ed.primary_position(), 5);
    qr.step(&mut ed, true);
    assert_eq!(content_string(&ed), "ab.cdWXYZ.cdab");
    assert_eq!(ed.primary_position(), 12);
    qr.step(&mut ed, true);
    assert_eq!(content_string(&ed), "ab.cdWXYZ.cdWXYZ");
    assert!(qr.wrapped);
    assert_eq!(ed.primary_position(), 0);
    qr.step(&mut ed, true);
    assert_eq!(content_string(&ed), "WXYZ.cdWXYZ.cdWXYZ");
    assert!(qr.finished);
    assert_eq!(qr.replaced, 3);
}
