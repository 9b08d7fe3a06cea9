//! The unified highlighting engine: a TextMate backend over syntect, behind
//! one shared contract, with a cache of parsed spans.
//!
//! The backend is chosen per file at construction time and fixed, exposed as
//! a variant over the TextMate backend and no-highlighting. A best-effort
//! language is still detected from the file name even when it is not needed
//! for highlighting, so other features (indentation, semantic analysis) can
//! consult it.
//!
//! The cache holds the spans of one parsed super-range and is valid only
//! while the buffer's total length is unchanged and no edit has touched the
//! parsed range; an oversized parse region degrades to no spans for the
//! request rather than parsing, and invalid UTF-8 in the requested region
//! yields no spans rather than a crash.

use vstd::prelude::*;
use vstd::slice::slice_subrange;
use vstd::string::StringSliceAdditionalSpecFns;
use crate::buffer::TextBuffer;
use crate::layout::line_end_exec;
use crate::spans::{
    push_span,
    color_spans, filter_and_color, filter_spans, merge_adjacent_spans, spans_chain, spans_merged,
    spans_within, CachedSpan, HighlightCategory, HighlightSpan, Theme,
};
use crate::syntect_api::{
    apply_scope_op, find_syntax_name_by_extension, found_by_extension, is_utf8, parse_line_ops,
    parse_state_for, scope_name, scope_stack_new, set_well_formed, stack_scopes, state_matches,
    syntax_count, syntax_name_at, syntax_names_of, utf8_check,
};

verus! {

/// Maximum bytes parsed in a single highlight request: the sole guard
/// against unbounded per-keystroke latency on very large viewports.
pub const MAX_PARSE_BYTES: usize = 1024 * 1024;

/// Preference for which highlighting backend to use.
#[derive(Debug, Clone, Copy, PartialEq, Eq, Structural)]
pub enum HighlighterPreference {
    /// Use the TextMate backend (the default).
    Auto,
    /// Ask for tree-sitter highlighting; this build carries no tree-sitter
    /// backend, so the engine degrades to no highlighting.
    TreeSitter,
    /// Explicitly use the TextMate backend (same as `Auto`).
    TextMate,
}

impl Default for HighlighterPreference {
    fn default() -> (r: Self)
        ensures
            r == HighlighterPreference::Auto,
    {
        HighlighterPreference::Auto
    }
}

/// Best-effort language identification from a file name, for features
/// beyond highlighting.
#[derive(Debug, Clone, Copy, PartialEq, Eq, Structural)]
pub enum Language {
    Rust,
    Python,
    JavaScript,
    TypeScript,
    C,
    Go,
    Json,
    Markdown,
    Html,
    Css,
    Shell,
}

/// `p` is a prefix of `s`.
pub open spec fn has_prefix(s: Seq<u8>, p: Seq<u8>) -> bool {
    p.len() <= s.len() && s.take(p.len() as int) == p
}

/// Tests whether the byte slice starts with the given literal.
pub fn has_prefix_exec(s: &[u8], p: &str) -> (r: bool)
    ensures
        r == has_prefix(s@, p.spec_bytes()),
{
    let pb = p.as_bytes();
    let m = pb.len();
    if m > s.len() {
        return false;
    }
    let mut k: usize = 0;
    while k < m
        invariant
            k <= m,
            m == p.spec_bytes().len(),
            m <= s@.len(),
            pb@ == p.spec_bytes(),
            forall|q: int| 0 <= q < k ==> s@[q] == p.spec_bytes()[q],
        decreases m - k,
    {
        if s[k] != pb[k] {
            assert(s@.take(m as int)[k as int] != p.spec_bytes()[k as int]);
            return false;
        }
        k = k + 1;
    }
    assert(s@.take(m as int) =~= p.spec_bytes());
    true
}

/// Whole-slice equality against a literal.
pub fn eq_bytes(s: &[u8], p: &str) -> (r: bool)
    ensures
        r == (s@ == p.spec_bytes()),
{
    if s.len() != p.as_bytes().len() {
        proof {
            assert(s@.len() != p.spec_bytes().len());
        }
        return false;
    }
    let r = has_prefix_exec(s, p);
    proof {
        if r {
            assert(s@.take(s@.len() as int) =~= s@);
        } else {
            assert(s@.take(p.spec_bytes().len() as int) =~= s@);
        }
    }
    r
}

/// Equality of two byte vectors.
pub fn bytes_equal(a: &Vec<u8>, b: &Vec<u8>) -> (r: bool)
    ensures
        r == (a@ == b@),
{
    let n = a.len();
    if n != b.len() {
        return false;
    }
    let mut k: usize = 0;
    while k < n
        invariant
            k <= n,
            n == a@.len(),
            n == b@.len(),
            forall|q: int| 0 <= q < k ==> a@[q] == b@[q],
        decreases n - k,
    {
        if a[k] != b[k] {
            return false;
        }
        k = k + 1;
    }
    assert(a@ =~= b@);
    true
}

/// The language this library associates with a file extension.
#[verifier::opaque]
pub open spec fn spec_language_for(ext: Seq<u8>) -> Option<Language> {
    if ext == "rs".spec_bytes() {
        Some(Language::Rust)
    } else if ext == "py".spec_bytes() {
        Some(Language::Python)
    } else if ext == "js".spec_bytes() || ext == "jsx".spec_bytes() {
        Some(Language::JavaScript)
    } else if ext == "ts".spec_bytes() || ext == "tsx".spec_bytes() {
        Some(Language::TypeScript)
    } else if ext == "c".spec_bytes() || ext == "h".spec_bytes() {
        Some(Language::C)
    } else if ext == "go".spec_bytes() {
        Some(Language::Go)
    } else if ext == "json".spec_bytes() {
        Some(Language::Json)
    } else if ext == "md".spec_bytes() {
        Some(Language::Markdown)
    } else if ext == "html".spec_bytes() {
        Some(Language::Html)
    } else if ext == "css".spec_bytes() {
        Some(Language::Css)
    } else if ext == "sh".spec_bytes() {
        Some(Language::Shell)
    } else {
        None
    }
}

/// Detects the language for a file extension.
pub fn language_for_extension(ext: &[u8]) -> (r: Option<Language>)
    ensures
        r == spec_language_for(ext@),
{
    proof {
        reveal(spec_language_for);
    }
    if eq_bytes(ext, "rs") {
        Some(Language::Rust)
    } else if eq_bytes(ext, "py") {
        Some(Language::Python)
    } else if eq_bytes(ext, "js") || eq_bytes(ext, "jsx") {
        Some(Language::JavaScript)
    } else if eq_bytes(ext, "ts") || eq_bytes(ext, "tsx") {
        Some(Language::TypeScript)
    } else if eq_bytes(ext, "c") || eq_bytes(ext, "h") {
        Some(Language::C)
    } else if eq_bytes(ext, "go") {
        Some(Language::Go)
    } else if eq_bytes(ext, "json") {
        Some(Language::Json)
    } else if eq_bytes(ext, "md") {
        Some(Language::Markdown)
    } else if eq_bytes(ext, "html") {
        Some(Language::Html)
    } else if eq_bytes(ext, "css") {
        Some(Language::Css)
    } else if eq_bytes(ext, "sh") {
        Some(Language::Shell)
    } else {
        None
    }
}

/// Where the extension of a file name starts: just past the last `.` of the
/// final path component, if any.
pub open spec fn ext_start(s: Seq<u8>, i: int) -> Option<int>
    decreases i,
{
    if i <= 0 {
        None
    } else if s[i - 1] == 46 {
        Some(i)
    } else if s[i - 1] == 47 {
        None
    } else {
        ext_start(s, i - 1)
    }
}

/// Finds the start of the file name's extension.
pub fn find_ext_start(path: &[u8]) -> (r: Option<usize>)
    ensures
        ({
            match r {
                Some(i) => ext_start(path@, path@.len() as int) == Some(i as int) && i
                    <= path@.len(),
                None => ext_start(path@, path@.len() as int) is None,
            }
        }),
{
    let n = path.len();
    let mut i: usize = n;
    while i > 0
        invariant
            i <= n,
            n == path@.len(),
            ext_start(path@, n as int) == ext_start(path@, i as int),
        decreases i,
    {
        if path[i - 1] == 46 {
            return Some(i);
        }
        if path[i - 1] == 47 {
            return None;
        }
        i = i - 1;
    }
    None
}

/// The extension bytes of a file name: what follows the last `.` of the
/// final path component, or empty when there is none. A leading-dot name
/// counts as all extension — a deliberate, consistent rule.
pub open spec fn path_ext(s: Seq<u8>) -> Seq<u8> {
    match ext_start(s, s.len() as int) {
        Some(i) => s.subrange(i, s.len() as int),
        None => Seq::empty(),
    }
}

/// The category a single TextMate scope selector maps to, by prefix.
#[verifier::opaque]
pub open spec fn spec_scope_category(name: Seq<u8>) -> Option<HighlightCategory> {
    if has_prefix(name, "comment".spec_bytes()) {
        Some(HighlightCategory::Comment)
    } else if has_prefix(name, "string".spec_bytes()) {
        Some(HighlightCategory::StringLit)
    } else if has_prefix(name, "constant.numeric".spec_bytes()) {
        Some(HighlightCategory::Number)
    } else if has_prefix(name, "constant".spec_bytes()) {
        Some(HighlightCategory::Constant)
    } else if has_prefix(name, "keyword".spec_bytes()) {
        Some(HighlightCategory::Keyword)
    } else if has_prefix(name, "storage".spec_bytes()) {
        Some(HighlightCategory::Keyword)
    } else if has_prefix(name, "entity.name.function".spec_bytes()) {
        Some(HighlightCategory::FunctionName)
    } else if has_prefix(name, "support.function".spec_bytes()) {
        Some(HighlightCategory::FunctionName)
    } else if has_prefix(name, "entity.name.type".spec_bytes()) {
        Some(HighlightCategory::TypeName)
    } else if has_prefix(name, "support.type".spec_bytes()) {
        Some(HighlightCategory::TypeName)
    } else if has_prefix(name, "support.class".spec_bytes()) {
        Some(HighlightCategory::TypeName)
    } else if has_prefix(name, "variable".spec_bytes()) {
        Some(HighlightCategory::Variable)
    } else {
        None
    }
}

/// Maps one scope selector to a highlight category, by prefix.
pub fn scope_to_category(name: &[u8]) -> (r: Option<HighlightCategory>)
    ensures
        r == spec_scope_category(name@),
{
    proof {
        reveal(spec_scope_category);
    }
    if has_prefix_exec(name, "comment") {
        Some(HighlightCategory::Comment)
    } else if has_prefix_exec(name, "string") {
        Some(HighlightCategory::StringLit)
    } else if has_prefix_exec(name, "constant.numeric") {
        Some(HighlightCategory::Number)
    } else if has_prefix_exec(name, "constant") {
        Some(HighlightCategory::Constant)
    } else if has_prefix_exec(name, "keyword") {
        Some(HighlightCategory::Keyword)
    } else if has_prefix_exec(name, "storage") {
        Some(HighlightCategory::Keyword)
    } else if has_prefix_exec(name, "entity.name.function") {
        Some(HighlightCategory::FunctionName)
    } else if has_prefix_exec(name, "support.function") {
        Some(HighlightCategory::FunctionName)
    } else if has_prefix_exec(name, "entity.name.type") {
        Some(HighlightCategory::TypeName)
    } else if has_prefix_exec(name, "support.type") {
        Some(HighlightCategory::TypeName)
    } else if has_prefix_exec(name, "support.class") {
        Some(HighlightCategory::TypeName)
    } else if has_prefix_exec(name, "variable") {
        Some(HighlightCategory::Variable)
    } else {
        None
    }
}

/// The category a stack of scope selector names resolves to: the first
/// name, walking innermost (last) to outermost (first), that maps to a
/// known category; none when no name maps — uncategorised, not an error.
pub open spec fn spec_stack_category(names: Seq<Seq<u8>>) -> Option<HighlightCategory>
    decreases names.len(),
{
    if names.len() == 0 {
        None
    } else if spec_scope_category(names.last()) is Some {
        spec_scope_category(names.last())
    } else {
        spec_stack_category(names.drop_last())
    }
}

/// Resolves a stack of scope selector names (outermost first) to a
/// category, walking innermost to outermost; the first mapped name wins.
pub fn category_of_scope_names(names: &Vec<Vec<u8>>) -> (r: Option<HighlightCategory>)
    ensures
        r == spec_stack_category(names@.map_values(|v: Vec<u8>| v@)),
{
    let ghost m = names@.map_values(|v: Vec<u8>| v@);
    let n = names.len();
    proof {
        assert(m.take(n as int) =~= m);
    }
    let mut i: usize = n;
    while i > 0
        invariant
            i <= n,
            n == names@.len(),
            m == names@.map_values(|v: Vec<u8>| v@),
            spec_stack_category(m) == spec_stack_category(m.take(i as int)),
        decreases i,
    {
        i = i - 1;
        let cat = scope_to_category(names[i].as_slice());
        proof {
            assert(m.take(i + 1).last() == m[i as int]);
            assert(m.take(i + 1).drop_last() =~= m.take(i as int));
        }
        if cat.is_some() {
            proof {
                assert(spec_stack_category(m.take(i + 1)) == cat);
            }
            return cat;
        }
    }
    proof {
        assert(m.take(0) =~= Seq::<Seq<u8>>::empty());
    }
    None
}

/// Resolves the active scope stack to a category: extracts the scope
/// selector names through the trusted boundary (what they are depends on
/// the grammar) and applies the fully specified innermost-first walk
/// `category_of_scope_names` to them.
fn current_category(stack: &syntect::parsing::ScopeStack) -> Option<HighlightCategory> {
    let scopes = stack_scopes(stack);
    let n = scopes.len();
    let mut names: Vec<Vec<u8>> = Vec::new();
    let mut i: usize = 0;
    while i < n
        invariant
            i <= n,
            n == scopes@.len(),
        decreases n - i,
    {
        names.push(scope_name(&scopes[i]));
        i = i + 1;
    }
    category_of_scope_names(&names)
}

/// One cached parse: the super-range that was parsed and its merged spans.
pub struct TextMateCache {
    pub start: usize,
    pub end: usize,
    pub spans: Vec<CachedSpan>,
}

/// The TextMate highlighting backend: a syntect syntax set with the chosen
/// syntax's index, a one-entry span cache, and the buffer length the cache
/// was parsed at.
pub struct TextMateEngine {
    pub syntax_set: syntect::parsing::SyntaxSet,
    pub syntax_index: usize,
    pub cache: Option<TextMateCache>,
    pub last_buffer_len: usize,
    /// Language detected for non-highlighting features, independent of the
    /// highlighting backend.
    pub ts_language: Option<Language>,
}

impl TextMateEngine {
    /// The set is internally complete, the syntax index in range, and any
    /// cached entry well-formed: ordered, non-overlapping, merged spans
    /// inside the parsed range.
    pub open spec fn wf(self) -> bool {
        &&& set_well_formed(self.syntax_set)
        &&& self.syntax_index < syntax_names_of(self.syntax_set).len()
        &&& match self.cache {
            Some(c) => {
                &&& c.start <= c.end
                &&& spans_chain(c.spans@)
                &&& spans_merged(c.spans@)
                &&& spans_within(c.spans@, c.start as int, c.end as int)
            },
            None => true,
        }
    }

    /// The cached entry fully covers `[vs, ve)` and was parsed at the
    /// current buffer length: its spans may be served without reparsing.
    pub open spec fn cache_valid(self, vs: int, ve: int, blen: int) -> bool {
        match self.cache {
            Some(c) => c.start <= vs && ve <= c.end && self.last_buffer_len == blen,
            None => false,
        }
    }

    /// What a cache hit returns: the cached spans intersecting the
    /// viewport, coloured through the theme.
    pub open spec fn cached_result(self, vs: int, ve: int, theme: Theme) -> Seq<HighlightSpan> {
        match self.cache {
            Some(c) => color_spans(filter_spans(c.spans@, vs, ve), theme),
            None => Seq::empty(),
        }
    }

    /// The clamped parse range for a viewport with symmetric context bytes.
    pub open spec fn parse_start(vs: int, ctx: int) -> int {
        if vs > ctx {
            vs - ctx
        } else {
            0
        }
    }

    /// The clamped end of the parse range.
    pub open spec fn parse_end(ve: int, ctx: int, blen: int) -> int {
        if ve + ctx < blen {
            ve + ctx
        } else {
            blen
        }
    }

    /// Creates a TextMate engine for the syntax at `syntax_index`.
    pub fn new(syntax_set: syntect::parsing::SyntaxSet, syntax_index: usize) -> (r: TextMateEngine)
        requires
            set_well_formed(syntax_set),
            syntax_index < syntax_names_of(syntax_set).len(),
        ensures
            r.wf(),
            r.cache is None,
            r.last_buffer_len == 0,
            r.syntax_index == syntax_index,
            r.syntax_set == syntax_set,
            r.ts_language is None,
    {
        TextMateEngine { syntax_set, syntax_index, cache: None, last_buffer_len: 0, ts_language: None }
    }

    /// Creates a TextMate engine that also carries a detected language for
    /// non-highlighting features.
    pub fn with_language(
        syntax_set: syntect::parsing::SyntaxSet,
        syntax_index: usize,
        ts_language: Option<Language>,
    ) -> (r: TextMateEngine)
        requires
            set_well_formed(syntax_set),
            syntax_index < syntax_names_of(syntax_set).len(),
        ensures
            r.wf(),
            r.cache is None,
            r.last_buffer_len == 0,
            r.syntax_index == syntax_index,
            r.syntax_set == syntax_set,
            r.ts_language == ts_language,
    {
        TextMateEngine { syntax_set, syntax_index, cache: None, last_buffer_len: 0, ts_language }
    }

    /// The detected language, for indentation and other non-highlighting
    /// features.
    pub fn language(&self) -> (r: Option<Language>)
        ensures
            r == self.ts_language,
    {
        self.ts_language
    }

    /// Name of this engine's syntax.
    pub fn syntax_name(&self) -> (r: Vec<u8>)
        requires
            self.wf(),
        ensures
            r@ == syntax_names_of(self.syntax_set)[self.syntax_index as int],
    {
        syntax_name_at(&self.syntax_set, self.syntax_index)
    }

    /// Drops the cached entry if the edited range `[start, end)` overlaps
    /// the parsed range; an edit elsewhere leaves the cache untouched.
    #[verifier::rlimit(100)]
    #[verifier::spinoff_prover]
    pub fn invalidate_range(&mut self, start: usize, end: usize)
        requires
            old(self).wf(),
        ensures
            final(self).wf(),
            final(self).syntax_set == old(self).syntax_set,
            final(self).syntax_index == old(self).syntax_index,
            final(self).ts_language == old(self).ts_language,
            final(self).last_buffer_len == old(self).last_buffer_len,
            ({
                match old(self).cache {
                    Some(c) => {
                        &&& (start < c.end && end > c.start) ==> final(self).cache is None
                        &&& !(start < c.end && end > c.start) ==> *final(self) == *old(self)
                    },
                    None => *final(self) == *old(self),
                }
            }),
    {
        let drop_it: bool = match &self.cache {
            Some(c) => start < c.end && end > c.start,
            None => false,
        };
        if drop_it {
            self.cache = None;
        }
    }

    /// Unconditionally drops the cached entry.
    #[verifier::rlimit(100)]
    #[verifier::spinoff_prover]
    pub fn invalidate_all(&mut self)
        requires
            old(self).wf(),
        ensures
            final(self).wf(),
            final(self).cache is None,
            final(self).syntax_set == old(self).syntax_set,
            final(self).syntax_index == old(self).syntax_index,
            final(self).ts_language == old(self).ts_language,
            final(self).last_buffer_len == old(self).last_buffer_len,
    {
        self.cache = None;
    }

    /// Highlights the viewport `[vs, ve)`. A valid cached entry is served
    /// without reparsing; otherwise the viewport plus `context_bytes` on
    /// each side (clamped to the buffer) is parsed line by line, the spans
    /// merged and cached. An oversized region or invalid UTF-8 yields no
    /// spans and leaves the cache as it was.
    #[verifier::rlimit(100)]
    #[verifier::spinoff_prover]
    pub fn highlight_viewport(
        &mut self,
        buffer: &TextBuffer,
        vs: usize,
        ve: usize,
        theme: &Theme,
        context_bytes: usize,
    ) -> (r: Vec<HighlightSpan>)
        requires
            old(self).wf(),
            vs <= ve <= buffer@.len(),
        ensures
            final(self).wf(),
            final(self).syntax_set == old(self).syntax_set,
            final(self).syntax_index == old(self).syntax_index,
            final(self).ts_language == old(self).ts_language,
            old(self).cache_valid(vs as int, ve as int, buffer@.len() as int) ==> *final(self)
                == *old(self) && r@ == old(self).cached_result(vs as int, ve as int, *theme),
            !old(self).cache_valid(vs as int, ve as int, buffer@.len() as int) ==> ({
                let ps = TextMateEngine::parse_start(vs as int, context_bytes as int);
                let pe = TextMateEngine::parse_end(
                    ve as int,
                    context_bytes as int,
                    buffer@.len() as int,
                );
                if pe - ps > MAX_PARSE_BYTES as int {
                    r@.len() == 0 && *final(self) == *old(self)
                } else if !is_utf8(buffer@.subrange(ps, pe)) {
                    r@.len() == 0 && *final(self) == *old(self)
                } else {
                    &&& final(self).cache matches Some(c) && c.start == ps && c.end == pe
                    &&& final(self).last_buffer_len == buffer@.len()
                    &&& final(self).cache_valid(vs as int, ve as int, buffer@.len() as int)
                    &&& r@ == final(self).cached_result(vs as int, ve as int, *theme)
                }
            }),
    {
        let blen = buffer.len();
        // Serve from the cache when it covers the viewport at this length.
        let hit: bool = match &self.cache {
            Some(c) => c.start <= vs && ve <= c.end && self.last_buffer_len == blen,
            None => false,
        };
        if hit {
            match &self.cache {
                Some(c) => {
                    let r = filter_and_color(&c.spans, vs, ve, theme);
                    return r;
                },
                None => {
                    proof {
                        assert(false);
                    }
                    return Vec::new();
                },
            }
        }
        // Cache miss: parse the viewport region plus context.
        let ps = if vs > context_bytes {
            vs - context_bytes
        } else {
            0
        };
        let pe = if blen - ve <= context_bytes {
            blen
        } else {
            ve + context_bytes
        };
        if pe - ps > MAX_PARSE_BYTES {
            let r: Vec<HighlightSpan> = Vec::new();
            return r;
        }
        let content = buffer.slice_bytes(ps, pe);
        if !utf8_check(content.as_slice()) {
            let r: Vec<HighlightSpan> = Vec::new();
            return r;
        }
        let ghost pre = *self;
        let spans = parse_region(&self.syntax_set, self.syntax_index, &content, ps);
        let r = filter_and_color(&spans, vs, ve, theme);
        self.cache = Some(TextMateCache { start: ps, end: pe, spans });
        self.last_buffer_len = blen;
        proof {
            assert(r@ == (*self).cached_result(vs as int, ve as int, *theme));
            assert(ps as int == TextMateEngine::parse_start(vs as int, context_bytes as int));
            assert(pe as int == TextMateEngine::parse_end(
                ve as int,
                context_bytes as int,
                buffer@.len() as int,
            ));
            assert(is_utf8(buffer@.subrange(ps as int, pe as int)));
            assert(pe - ps <= MAX_PARSE_BYTES);
            assert((*self).cache_valid(vs as int, ve as int, buffer@.len() as int));
        }
        r
    }
}

/// Parses a clamped region one source line at a time, carrying the scope
/// stack across line boundaries, and returns the merged spans, positioned
/// at absolute buffer offsets (`ps` is the region's buffer offset).
#[verifier::rlimit(100)]
#[verifier::spinoff_prover]
fn parse_region(
    ss: &syntect::parsing::SyntaxSet,
    index: usize,
    content: &Vec<u8>,
    ps: usize,
) -> (spans: Vec<CachedSpan>)
    requires
        set_well_formed(*ss),
        index < syntax_names_of(*ss).len(),
        ps + content@.len() <= usize::MAX,
    ensures
        spans_chain(spans@),
        spans_merged(spans@),
        spans_within(spans@, ps as int, ps + content@.len()),
{
        let clen = content.len();
        let mut state = parse_state_for(ss, index);
        let mut stack = scope_stack_new();
        let mut spans: Vec<CachedSpan> = Vec::new();
        let mut off: usize = 0;
        // Parse one source line at a time; the scope stack carries across
        // line boundaries within the parsed region.
        while off < clen
            invariant
                off <= clen,
                clen == content@.len(),
                ps + clen <= usize::MAX,
                set_well_formed(*ss),
                state_matches(state, *ss),
                spans_chain(spans@),
                spans@.len() > 0 ==> ps <= spans@[0].start && spans@.last().end <= ps + off,
            decreases clen - off,
        {
            let le = line_end_exec(content.as_slice(), off);
            let lend = if le < clen {
                le + 1
            } else {
                clen
            };
            let line = slice_subrange(content.as_slice(), off, lend);
            let llen = lend - off;
            match parse_line_ops(&mut state, line, ss) {
                None => {
                    // A malformed line is skipped; the scope state carries
                    // forward unchanged.
                },
                Some(ops) => {
                    let nops = ops.len();
                    let mut char_off: usize = 0;
                    let mut k: usize = 0;
                    while k < nops
                        invariant
                            k <= nops,
                            nops == ops@.len(),
                            char_off <= llen,
                            llen == lend - off,
                            off < lend <= clen,
                            clen == content@.len(),
                            ps + clen <= usize::MAX,
                            spans_chain(spans@),
                            spans@.len() > 0 ==> ps <= spans@[0].start && spans@.last().end <= ps
                                + off + char_off,
                        decreases nops - k,
                    {
                        let op_off_raw = ops[k].0;
                        let op_off = if op_off_raw > llen {
                            llen
                        } else {
                            op_off_raw
                        };
                        if op_off > char_off {
                            match current_category(&stack) {
                                Some(cat) => {
                                    spans = push_span(
                                        spans,
                                        ps + off + char_off,
                                        ps + off + op_off,
                                        cat,
                                    );
                                },
                                None => {},
                            }
                            char_off = op_off;
                        }
                        apply_scope_op(&mut stack, &ops[k].1);
                        k = k + 1;
                    }
                    // Any remaining text of the line keeps the final scope.
                    if char_off < llen {
                        match current_category(&stack) {
                            Some(cat) => {
                                spans = push_span(
                                    spans,
                                    ps + off + char_off,
                                    ps + off + llen,
                                    cat,
                                );
                            },
                            None => {},
                        }
                    }
                },
            }
            off = lend;
        }
        let ghost raw = spans@;
        merge_adjacent_spans(&mut spans);
    proof {
        if spans@.len() > 0 {
            crate::spans::lemma_chain_bound(spans@);
            assert(spans@[0].start == raw[0].start);
            assert(spans@.last().end == raw.last().end);
        }
    }
    spans
}

/// Unified highlighting engine: the TextMate backend, or no highlighting.
/// The backend is chosen when the engine is built for a file and is fixed
/// from then on.
pub enum HighlightEngine {
    /// TextMate grammar based highlighting.
    TextMate(TextMateEngine),
    /// No highlighting available for this file.
    NoHighlighting,
}

impl Default for HighlightEngine {
    fn default() -> (r: Self)
        ensures
            r is NoHighlighting,
    {
        HighlightEngine::NoHighlighting
    }
}

impl HighlightEngine {
    pub open spec fn wf(self) -> bool {
        match self {
            HighlightEngine::TextMate(e) => e.wf(),
            HighlightEngine::NoHighlighting => true,
        }
    }

    /// The outcome of TextMate backend selection for a file name over a
    /// registry: a TextMate engine over the syntax the registry's extension
    /// lookup resolves, with the language this library detects from the
    /// extension, or no highlighting when the lookup finds nothing.
    pub open spec fn selected(self, path: Seq<u8>, registry: syntect::parsing::SyntaxSet) -> bool {
        match found_by_extension(registry, path_ext(path)) {
            Some(name) => self matches HighlightEngine::TextMate(e) && e.syntax_set == registry
                && e.cache is None && e.last_buffer_len == 0 && syntax_names_of(registry)[
                e.syntax_index as int
            ] == name && e.ts_language == spec_language_for(path_ext(path)),
            None => self is NoHighlighting,
        }
    }

    /// Builds the engine for a file name over the given syntax set, always
    /// preferring the TextMate backend; the language is detected from the
    /// extension regardless, for non-highlighting features.
    pub fn for_file(path: &[u8], registry: syntect::parsing::SyntaxSet) -> (r: HighlightEngine)
        requires
            set_well_formed(registry),
        ensures
            r.wf(),
            r.selected(path@, registry),
    {
        Self::for_file_with_preference(path, registry, HighlighterPreference::Auto)
    }

    /// Builds the engine for a file with an explicit backend preference.
    /// This build carries no tree-sitter backend, so that preference yields
    /// no highlighting.
    pub fn for_file_with_preference(
        path: &[u8],
        registry: syntect::parsing::SyntaxSet,
        preference: HighlighterPreference,
    ) -> (r: HighlightEngine)
        requires
            set_well_formed(registry),
        ensures
            r.wf(),
            preference == HighlighterPreference::TreeSitter ==> r is NoHighlighting,
            preference != HighlighterPreference::TreeSitter ==> r.selected(path@, registry),
    {
        match preference {
            HighlighterPreference::TreeSitter => HighlightEngine::NoHighlighting,
            HighlighterPreference::Auto | HighlighterPreference::TextMate => Self::textmate_for_file(
                path,
                registry,
            ),
        }
    }

    /// Finds a TextMate syntax for the file's extension and builds the
    /// TextMate backend around it; a file without a known grammar gets no
    /// highlighting.
    fn textmate_for_file(path: &[u8], registry: syntect::parsing::SyntaxSet) -> (r:
        HighlightEngine)
        requires
            set_well_formed(registry),
        ensures
            r.wf(),
            r.selected(path@, registry),
    {
        let ext_at = find_ext_start(path);
        let ext: Vec<u8> = match ext_at {
            Some(i) => {
                let e = slice_subrange(path, i, path.len());
                vstd::slice::slice_to_vec(e)
            },
            None => Vec::new(),
        };
        proof {
            assert(ext@ =~= path_ext(path@));
        }
        let ts_language = language_for_extension(ext.as_slice());
        match find_syntax_name_by_extension(&registry, ext.as_slice()) {
            None => HighlightEngine::NoHighlighting,
            Some(name) => {
                // Store the syntax by index rather than by reference. The
                // found name belongs to the set, so the scan must hit it.
                let n = syntax_count(&registry);
                let mut i: usize = 0;
                while i < n
                    invariant
                        i <= n,
                        n == syntax_names_of(registry).len(),
                        set_well_formed(registry),
                        name@ == found_by_extension(registry, path_ext(path@))->0,
                        found_by_extension(registry, path_ext(path@)) is Some,
                        ts_language == spec_language_for(path_ext(path@)),
                        forall|j: int| 0 <= j < i ==> syntax_names_of(registry)[j] != name@,
                    decreases n - i,
                {
                    let cand = syntax_name_at(&registry, i);
                    if bytes_equal(&cand, &name) {
                        return HighlightEngine::TextMate(
                            TextMateEngine::with_language(registry, i, ts_language),
                        );
                    }
                    i = i + 1;
                }
                proof {
                    let k = choose|k: int|
                        0 <= k < syntax_names_of(registry).len() && syntax_names_of(registry)[k]
                            == name@;
                    assert(false);
                }
                HighlightEngine::NoHighlighting
            },
        }
    }

    /// Highlights the viewport through the active backend; no backend, no
    /// spans. The TextMate backend behaves exactly as
    /// `TextMateEngine::highlight_viewport`: a valid cached entry is served
    /// unchanged, an oversized or non-UTF-8 region yields nothing, and
    /// otherwise the clamped context region is parsed and cached.
    #[verifier::rlimit(100)]
    #[verifier::spinoff_prover]
    pub fn highlight_viewport(
        &mut self,
        buffer: &TextBuffer,
        vs: usize,
        ve: usize,
        theme: &Theme,
        context_bytes: usize,
    ) -> (r: Vec<HighlightSpan>)
        requires
            old(self).wf(),
            vs <= ve <= buffer@.len(),
        ensures
            final(self).wf(),
            (*old(self)) is NoHighlighting ==> (*final(self)) is NoHighlighting && r@.len() == 0,
            (*old(self)) is TextMate ==> (*final(self)) is TextMate && ({
                let e0 = (*old(self))->TextMate_0;
                let e1 = (*final(self))->TextMate_0;
                &&& e1.syntax_set == e0.syntax_set
                &&& e1.syntax_index == e0.syntax_index
                &&& e1.ts_language == e0.ts_language
                &&& (e0.cache_valid(vs as int, ve as int, buffer@.len() as int) ==> e1 == e0
                    && r@ == e0.cached_result(vs as int, ve as int, *theme))
                &&& (!e0.cache_valid(vs as int, ve as int, buffer@.len() as int) ==> ({
                    let ps = TextMateEngine::parse_start(vs as int, context_bytes as int);
                    let pe = TextMateEngine::parse_end(
                        ve as int,
                        context_bytes as int,
                        buffer@.len() as int,
                    );
                    if pe - ps > MAX_PARSE_BYTES as int {
                        r@.len() == 0 && e1 == e0
                    } else if !is_utf8(buffer@.subrange(ps, pe)) {
                        r@.len() == 0 && e1 == e0
                    } else {
                        &&& e1.cache matches Some(c) && c.start == ps && c.end == pe
                        &&& e1.last_buffer_len == buffer@.len()
                        &&& e1.cache_valid(vs as int, ve as int, buffer@.len() as int)
                        &&& r@ == e1.cached_result(vs as int, ve as int, *theme)
                    }
                }))
            }),
    {
        match self {
            HighlightEngine::TextMate(e) => e.highlight_viewport(
                buffer,
                vs,
                ve,
                theme,
                context_bytes,
            ),
            HighlightEngine::NoHighlighting => Vec::new(),
        }
    }

    /// Invalidates any cached entry overlapping the edited range; nothing
    /// but the cache changes.
    pub fn invalidate_range(&mut self, start: usize, end: usize)
        requires
            old(self).wf(),
        ensures
            final(self).wf(),
            (*old(self)) is NoHighlighting ==> (*final(self)) is NoHighlighting,
            (*old(self)) is TextMate ==> (*final(self)) is TextMate && ({
                let e0 = (*old(self))->TextMate_0;
                let e1 = (*final(self))->TextMate_0;
                &&& e1.syntax_set == e0.syntax_set
                &&& e1.syntax_index == e0.syntax_index
                &&& e1.ts_language == e0.ts_language
                &&& e1.last_buffer_len == e0.last_buffer_len
                &&& match e0.cache {
                    Some(c) => {
                        &&& (start < c.end && end > c.start) ==> e1.cache is None
                        &&& !(start < c.end && end > c.start) ==> e1 == e0
                    },
                    None => e1 == e0,
                }
            }),
    {
        match self {
            HighlightEngine::TextMate(e) => e.invalidate_range(start, end),
            HighlightEngine::NoHighlighting => {},
        }
    }

    /// Unconditionally drops any cached entry; nothing but the cache
    /// changes.
    pub fn invalidate_all(&mut self)
        requires
            old(self).wf(),
        ensures
            final(self).wf(),
            (*old(self)) is NoHighlighting ==> (*final(self)) is NoHighlighting,
            (*old(self)) is TextMate ==> (*final(self)) is TextMate && ({
                let e0 = (*old(self))->TextMate_0;
                let e1 = (*final(self))->TextMate_0;
                &&& e1.cache is None
                &&& e1.syntax_set == e0.syntax_set
                &&& e1.syntax_index == e0.syntax_index
                &&& e1.ts_language == e0.ts_language
                &&& e1.last_buffer_len == e0.last_buffer_len
            }),
    {
        match self {
            HighlightEngine::TextMate(e) => e.invalidate_all(),
            HighlightEngine::NoHighlighting => {},
        }
    }

    /// Whether this engine can highlight at all.
    pub fn has_highlighting(&self) -> (r: bool)
        ensures
            r == !(self is NoHighlighting),
    {
        match self {
            HighlightEngine::TextMate(_) => true,
            HighlightEngine::NoHighlighting => false,
        }
    }

    /// A short description of the active backend.
    pub fn backend_name(&self) -> (r: &'static str)
        ensures
            self is TextMate ==> r@ == "textmate"@,
            self is NoHighlighting ==> r@ == "none"@,
    {
        match self {
            HighlightEngine::TextMate(_) => "textmate",
            HighlightEngine::NoHighlighting => "none",
        }
    }

    /// The active syntax's name, if a backend is active.
    pub fn syntax_name(&self) -> (r: Option<Vec<u8>>)
        requires
            self.wf(),
        ensures
            self is NoHighlighting ==> r is None,
            self is TextMate ==> (r matches Some(n) && n@ == syntax_names_of(
                self->TextMate_0.syntax_set,
            )[self->TextMate_0.syntax_index as int]),
    {
        match self {
            HighlightEngine::TextMate(e) => Some(e.syntax_name()),
            HighlightEngine::NoHighlighting => None,
        }
    }

    /// The detected language, for non-highlighting features.
    pub fn language(&self) -> (r: Option<Language>)
        ensures
            self is TextMate ==> r == self->TextMate_0.ts_language,
            self is NoHighlighting ==> r is None,
    {
        match self {
            HighlightEngine::TextMate(e) => e.language(),
            HighlightEngine::NoHighlighting => None,
        }
    }
}

/// After an edit overlapping the parsed range has invalidated the cache,
/// no viewport can be served from it: by the contract of
/// `highlight_viewport`, any later request parses the buffer as it then
/// stands, so spans computed before the edit are never returned.
pub proof fn lemma_no_cache_no_hit(e: TextMateEngine)
    requires
        e.cache is None,
    ensures
        forall|vs: int, ve: int, blen: int| !e.cache_valid(vs, ve, blen),
{
}

} // verus!
