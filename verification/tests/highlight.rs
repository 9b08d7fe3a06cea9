//! The highlighting engine: backend selection, caching, invalidation,
//! span merging and category mapping.

use fresh::buffer::TextBuffer;
use fresh::engine::{scope_to_category, HighlightEngine, HighlighterPreference, Language};
use fresh::spans::{merge_adjacent_spans, CachedSpan, HighlightCategory, Theme};
use fresh::syntect_api::load_default_syntax_set;

#[test]
fn test_highlighter_preference_default() {
    let pref = HighlighterPreference::default();
    assert_eq!(pref, HighlighterPreference::Auto);
}

#[test]
fn test_highlight_engine_default() {
    let engine = HighlightEngine::default();
    assert!(!engine.has_highlighting());
    assert_eq!(engine.backend_name(), "none");
}

#[test]
fn test_unknown_extension() {
    let registry = load_default_syntax_set();
    let engine = HighlightEngine::for_file(b"test.unknown_xyz_123", registry);
    // Might be none or might find something; just exercise the queries.
    let _ = engine.backend_name();
}

/// Files with TextMate grammars get the TextMate backend, and the language
/// is detected from the extension regardless.
#[test]
fn test_textmate_backend_for_known_files() {
    let engine = HighlightEngine::for_file(b"test.rs", load_default_syntax_set());
    assert_eq!(engine.backend_name(), "textmate");
    assert_eq!(engine.language(), Some(Language::Rust));

    let engine = HighlightEngine::for_file(b"test.py", load_default_syntax_set());
    assert_eq!(engine.backend_name(), "textmate");
    assert_eq!(engine.language(), Some(Language::Python));

    let engine = HighlightEngine::for_file(b"test.js", load_default_syntax_set());
    assert_eq!(engine.backend_name(), "textmate");
    assert_eq!(engine.language(), Some(Language::JavaScript));
}

/// Asking for the tree-sitter backend yields no highlighting in this build.
#[test]
fn test_tree_sitter_preference_degrades() {
    let engine = HighlightEngine::for_file_with_preference(
        b"test.rs",
        load_default_syntax_set(),
        HighlighterPreference::TreeSitter,
    );
    assert_eq!(engine.backend_name(), "none");
}

fn rust_engine() -> HighlightEngine {
    HighlightEngine::for_file(b"main.rs", load_default_syntax_set())
}

/// A Rust comment is highlighted with the comment color.
#[test]
fn test_highlight_rust_comment() {
    let mut engine = rust_engine();
    let theme = Theme::default_dark();
    let text = b"// hello\nfn main() {}\n".to_vec();
    let n = text.len();
    let buffer = TextBuffer::from_bytes(text);
    let spans = engine.highlight_viewport(&buffer, 0, n, &theme, 64);
    assert!(!spans.is_empty());
    let comment_span = spans.iter().find(|s| s.color == theme.comment);
    assert!(comment_span.is_some(), "A comment span should be colored as comment");
    let cs = comment_span.unwrap();
    assert!(cs.start <= 1 && cs.end >= 7, "The comment span covers the comment text");
}

/// Highlighting an unedited region twice returns identical span sets: the
/// second request is served from the cache left by the first.
#[test]
fn test_highlight_round_trip() {
    let mut engine = rust_engine();
    let theme = Theme::default_dark();
    let text = b"let x = \"str\"; // note\n".to_vec();
    let n = text.len();
    let buffer = TextBuffer::from_bytes(text);
    let first = engine.highlight_viewport(&buffer, 0, n, &theme, 32);
    let second = engine.highlight_viewport(&buffer, 0, n, &theme, 32);
    assert_eq!(first.len(), second.len());
    for (a, b) in first.iter().zip(second.iter()) {
        assert_eq!(a.start, b.start);
        assert_eq!(a.end, b.end);
        assert_eq!(a.color, b.color);
    }
}

/// After invalidating an edited range, highlighting reflects the buffer as
/// it stands, never spans computed before the edit.
#[test]
fn test_invalidate_range_discards_stale_spans() {
    let mut engine = rust_engine();
    let theme = Theme::default_dark();

    // First parse: the whole line is a comment.
    let before = b"// abcdefgh\n".to_vec();
    let n = before.len();
    let buffer_before = TextBuffer::from_bytes(before);
    let spans_before = engine.highlight_viewport(&buffer_before, 0, n, &theme, 16);
    assert!(spans_before.iter().any(|s| s.color == theme.comment));

    // The edit replaces the comment markers; same length, so only the
    // invalidation can force a reparse.
    let after = b"ab abcdefgh\n".to_vec();
    let buffer_after = TextBuffer::from_bytes(after);
    engine.invalidate_range(0, 2);
    let spans_after = engine.highlight_viewport(&buffer_after, 0, n, &theme, 16);
    assert!(
        !spans_after.iter().any(|s| s.color == theme.comment && s.start == 0),
        "No stale comment span may survive the invalidated edit"
    );
}

/// `invalidate_all` unconditionally drops the cache.
#[test]
fn test_invalidate_all_forces_reparse() {
    let mut engine = rust_engine();
    let theme = Theme::default_dark();
    let text = b"// x\n".to_vec();
    let n = text.len();
    let buffer = TextBuffer::from_bytes(text);
    let first = engine.highlight_viewport(&buffer, 0, n, &theme, 8);
    engine.invalidate_all();
    let second = engine.highlight_viewport(&buffer, 0, n, &theme, 8);
    assert_eq!(first.len(), second.len());
}

/// An edit outside the parsed range leaves the cache valid.
#[test]
fn test_invalidate_range_outside_keeps_cache() {
    let mut engine = rust_engine();
    let theme = Theme::default_dark();
    let text = b"// comment line\n".to_vec();
    let buffer = TextBuffer::from_bytes(text);
    // Parse only a prefix, with no context, so the parsed range is [0, 4).
    let _ = engine.highlight_viewport(&buffer, 0, 4, &theme, 0);
    // An edit past the parsed range does not touch it.
    engine.invalidate_range(10, 12);
    let again = engine.highlight_viewport(&buffer, 0, 4, &theme, 0);
    assert!(again.iter().all(|s| s.start < 4));
}

/// An oversized parse region yields no spans rather than parsing.
#[test]
fn test_oversized_region_returns_no_spans() {
    let mut engine = rust_engine();
    let theme = Theme::default_dark();
    let big = vec![b'a'; 1024 * 1024 + 2];
    let n = big.len();
    let buffer = TextBuffer::from_bytes(big);
    let spans = engine.highlight_viewport(&buffer, 0, n, &theme, 0);
    assert!(spans.is_empty());
}

/// Invalid UTF-8 in the requested region yields no spans, not a crash.
#[test]
fn test_invalid_utf8_returns_no_spans() {
    let mut engine = rust_engine();
    let theme = Theme::default_dark();
    let bytes = vec![b'/', b'/', 0xff, 0xfe, b'\n'];
    let n = bytes.len();
    let buffer = TextBuffer::from_bytes(bytes);
    let spans = engine.highlight_viewport(&buffer, 0, n, &theme, 8);
    assert!(spans.is_empty());
}

/// Adjacent spans of identical category with touching ranges collapse.
#[test]
fn test_merge_adjacent_spans_collapses() {
    let mut spans = vec![
        CachedSpan { start: 0, end: 4, category: HighlightCategory::Comment },
        CachedSpan { start: 4, end: 9, category: HighlightCategory::Comment },
        CachedSpan { start: 9, end: 12, category: HighlightCategory::Keyword },
        CachedSpan { start: 14, end: 16, category: HighlightCategory::Keyword },
    ];
    merge_adjacent_spans(&mut spans);
    assert_eq!(spans.len(), 3);
    assert_eq!((spans[0].start, spans[0].end), (0, 9));
    assert_eq!(spans[0].category, HighlightCategory::Comment);
    // Touching ranges of different categories stay apart.
    assert_eq!((spans[1].start, spans[1].end), (9, 12));
    // Same category with a gap stays apart.
    assert_eq!((spans[2].start, spans[2].end), (14, 16));
}

/// Scope selector names map to categories by prefix, innermost wins.
#[test]
fn test_scope_category_mapping() {
    assert_eq!(scope_to_category(b"comment.line.double-slash.rust"), Some(HighlightCategory::Comment));
    assert_eq!(scope_to_category(b"string.quoted.double"), Some(HighlightCategory::StringLit));
    assert_eq!(scope_to_category(b"constant.numeric.integer"), Some(HighlightCategory::Number));
    assert_eq!(scope_to_category(b"constant.language"), Some(HighlightCategory::Constant));
    assert_eq!(scope_to_category(b"keyword.control"), Some(HighlightCategory::Keyword));
    assert_eq!(scope_to_category(b"storage.type"), Some(HighlightCategory::Keyword));
    assert_eq!(scope_to_category(b"entity.name.function"), Some(HighlightCategory::FunctionName));
    assert_eq!(scope_to_category(b"support.type.primitive"), Some(HighlightCategory::TypeName));
    assert_eq!(scope_to_category(b"variable.other"), Some(HighlightCategory::Variable));
    assert_eq!(scope_to_category(b"source.rust"), None);
}

/// Theme colors resolve per category.
#[test]
fn test_theme_color_resolution() {
    let theme = Theme::default_dark();
    assert_eq!(theme.color_of(HighlightCategory::Comment), theme.comment);
    assert_eq!(theme.color_of(HighlightCategory::Keyword), theme.keyword);
    assert_eq!(theme.color_of(HighlightCategory::StringLit), theme.string_lit);
}
