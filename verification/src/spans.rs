//! Highlight spans, categories, theme colors, and span normalisation.
//!
//! Cached spans carry a category; the category is resolved to a display
//! color through the active theme only at render time, so cached spans stay
//! valid across theme switches. Adjacent spans of identical category with
//! touching byte ranges are always merged into one before caching.

use vstd::prelude::*;

verus! {

/// Semantic category of a highlighted region.
#[derive(Clone, Copy, Debug, PartialEq, Eq, Structural)]
pub enum HighlightCategory {
    Keyword,
    StringLit,
    Comment,
    Number,
    Constant,
    FunctionName,
    TypeName,
    Variable,
}

/// An RGB display color.
#[derive(Clone, Copy, Debug, PartialEq, Eq, Structural)]
pub struct Color {
    pub r: u8,
    pub g: u8,
    pub b: u8,
}

/// Maps categories to display colors; immutable after construction.
#[derive(Clone, Copy, Debug)]
pub struct Theme {
    pub keyword: Color,
    pub string_lit: Color,
    pub comment: Color,
    pub number: Color,
    pub constant: Color,
    pub function_name: Color,
    pub typename: Color,
    pub variable: Color,
}

impl Theme {
    /// The color this theme gives a category.
    pub open spec fn spec_color_of(self, c: HighlightCategory) -> Color {
        match c {
            HighlightCategory::Keyword => self.keyword,
            HighlightCategory::StringLit => self.string_lit,
            HighlightCategory::Comment => self.comment,
            HighlightCategory::Number => self.number,
            HighlightCategory::Constant => self.constant,
            HighlightCategory::FunctionName => self.function_name,
            HighlightCategory::TypeName => self.typename,
            HighlightCategory::Variable => self.variable,
        }
    }

    /// Executable counterpart of `spec_color_of`.
    pub fn color_of(&self, c: HighlightCategory) -> (r: Color)
        ensures
            r == self.spec_color_of(c),
    {
        match c {
            HighlightCategory::Keyword => self.keyword,
            HighlightCategory::StringLit => self.string_lit,
            HighlightCategory::Comment => self.comment,
            HighlightCategory::Number => self.number,
            HighlightCategory::Constant => self.constant,
            HighlightCategory::FunctionName => self.function_name,
            HighlightCategory::TypeName => self.typename,
            HighlightCategory::Variable => self.variable,
        }
    }

    /// A plain dark color scheme.
    pub fn default_dark() -> (r: Theme)
    {
        Theme {
            keyword: Color { r: 198, g: 120, b: 221 },
            string_lit: Color { r: 152, g: 195, b: 121 },
            comment: Color { r: 92, g: 99, b: 112 },
            number: Color { r: 209, g: 154, b: 102 },
            constant: Color { r: 209, g: 154, b: 102 },
            function_name: Color { r: 97, g: 175, b: 239 },
            typename: Color { r: 229, g: 192, b: 123 },
            variable: Color { r: 224, g: 108, b: 117 },
        }
    }
}

/// One cached highlighted region: a byte range with its category.
#[derive(Clone, Copy, Debug)]
pub struct CachedSpan {
    pub start: usize,
    pub end: usize,
    pub category: HighlightCategory,
}

/// One rendered highlighted region: a byte range with its resolved color.
#[derive(Clone, Copy, Debug)]
pub struct HighlightSpan {
    pub start: usize,
    pub end: usize,
    pub color: Color,
}

/// Spans are non-empty, sorted and pairwise non-overlapping.
pub open spec fn spans_chain(spans: Seq<CachedSpan>) -> bool {
    &&& forall|k: int| 0 <= k < spans.len() ==> (#[trigger] spans[k]).start < spans[k].end
    &&& forall|k: int| 0 <= k < spans.len() - 1 ==> (#[trigger] spans[k]).end <= spans[k + 1].start
}

/// Every span lies inside `[lo, hi]`.
pub open spec fn spans_within(spans: Seq<CachedSpan>, lo: int, hi: int) -> bool {
    forall|k: int| 0 <= k < spans.len() ==> lo <= (#[trigger] spans[k]).start && spans[k].end <= hi
}

/// No two adjacent spans with identical category and touching ranges are
/// left: they have been collapsed into one.
pub open spec fn spans_merged(spans: Seq<CachedSpan>) -> bool {
    forall|k: int|
        0 <= k < spans.len() - 1 ==> !((#[trigger] spans[k]).end == spans[k + 1].start
            && spans[k].category == spans[k + 1].category)
}

/// The merged form of a span sequence: walking left to right, a span whose
/// range touches the previous span's end with the same category is absorbed
/// into it; otherwise it starts a new span.
#[verifier::opaque]
pub open spec fn merge_spec(spans: Seq<CachedSpan>) -> Seq<CachedSpan>
    decreases spans.len(),
{
    if spans.len() == 0 {
        Seq::empty()
    } else {
        let rest = merge_spec(spans.drop_last());
        let c = spans.last();
        if rest.len() > 0 && rest.last().end == c.start && rest.last().category == c.category {
            rest.drop_last().push(
                CachedSpan { start: rest.last().start, end: c.end, category: c.category },
            )
        } else {
            rest.push(c)
        }
    }
}

/// In a chain, every span lies between the first start and the last end.
#[verifier::rlimit(100)]
pub proof fn lemma_chain_bound(s: Seq<CachedSpan>)
    requires
        spans_chain(s),
    ensures
        forall|k: int|
            0 <= k < s.len() ==> s[0].start <= (#[trigger] s[k]).start && s[k].end
                <= s.last().end,
    decreases s.len(),
{
    if s.len() > 1 {
        let f = s.drop_last();
        assert(forall|k: int| 0 <= k < f.len() ==> f[k] == s[k]);
        assert(spans_chain(f));
        lemma_chain_bound(f);
        assert(s[s.len() - 2].end <= s.last().start);
    }
}

/// Extent and length of the merged form: never longer, never empty when
/// the input is not, and the same overall extent.
#[verifier::rlimit(100)]
pub proof fn lemma_merge_spec_ends(spans: Seq<CachedSpan>)
    requires
        spans_chain(spans),
    ensures
        merge_spec(spans).len() <= spans.len(),
        merge_spec(spans).len() > 0 <==> spans.len() > 0,
        spans.len() > 0 ==> merge_spec(spans)[0].start == spans[0].start && merge_spec(
            spans,
        ).last().end == spans.last().end,
    decreases spans.len(),
{
    reveal(merge_spec);
    if spans.len() > 0 {
        let front = spans.drop_last();
        assert(forall|k: int| 0 <= k < front.len() ==> front[k] == spans[k]);
        assert(spans_chain(front));
        lemma_merge_spec_ends(front);
        let rest = merge_spec(front);
        let c = spans.last();
        if rest.len() > 0 && rest.last().end == c.start && rest.last().category == c.category {
            let l2 = CachedSpan { start: rest.last().start, end: c.end, category: c.category };
            let out = rest.drop_last().push(l2);
            if out.len() > 1 {
                assert(out[0] == rest[0]);
            } else {
                assert(out[0] == l2);
                assert(rest.len() == 1);
                assert(l2.start == rest[0].start);
            }
        }
    }
}

/// The merged form of a chain is a chain.
#[verifier::rlimit(100)]
#[verifier::spinoff_prover]
pub proof fn lemma_merge_spec_chain(spans: Seq<CachedSpan>)
    requires
        spans_chain(spans),
    ensures
        spans_chain(merge_spec(spans)),
    decreases spans.len(),
{
    reveal(merge_spec);
    if spans.len() > 0 {
        let front = spans.drop_last();
        assert(forall|k: int| 0 <= k < front.len() ==> front[k] == spans[k]);
        assert(spans_chain(front));
        lemma_merge_spec_chain(front);
        lemma_merge_spec_ends(front);
        let rest = merge_spec(front);
        let c = spans.last();
        if rest.len() > 0 && rest.last().end == c.start && rest.last().category == c.category {
            let l2 = CachedSpan { start: rest.last().start, end: c.end, category: c.category };
            let out = rest.drop_last().push(l2);
            assert(out.len() == rest.len());
            assert(forall|k: int| 0 <= k < out.len() - 1 ==> out[k] == rest[k]);
            assert(out.last() == l2);
            assert(rest.last().start < rest.last().end);
            assert forall|k: int| 0 <= k < out.len() implies (#[trigger] out[k]).start
                < out[k].end by {
                if k < out.len() - 1 {
                    assert(out[k] == rest[k]);
                }
            }
            assert forall|k: int| 0 <= k < out.len() - 1 implies (#[trigger] out[k]).end <= out[
                k + 1
            ].start by {
                assert(out[k] == rest[k]);
                if k + 1 < out.len() - 1 {
                    assert(out[k + 1] == rest[k + 1]);
                } else {
                    assert(out[k + 1] == l2);
                }
            }
        } else {
            let out = rest.push(c);
            assert(forall|k: int| 0 <= k < rest.len() ==> out[k] == rest[k]);
            assert(out.last() == c);
            if rest.len() > 0 {
                assert(front.len() > 0);
                assert(rest.last().end == front.last().end);
                assert(front.last().end <= c.start);
            }
            assert forall|k: int| 0 <= k < out.len() implies (#[trigger] out[k]).start
                < out[k].end by {
                if k < out.len() - 1 {
                    assert(out[k] == rest[k]);
                }
            }
            assert forall|k: int| 0 <= k < out.len() - 1 implies (#[trigger] out[k]).end <= out[
                k + 1
            ].start by {
                assert(out[k] == rest[k]);
                if k + 1 < out.len() - 1 {
                    assert(out[k + 1] == rest[k + 1]);
                } else {
                    assert(out[k + 1] == c);
                    lemma_chain_bound(rest);
                }
            }
        }
    }
}

/// In the merged form, no two adjacent spans of identical category touch.
#[verifier::rlimit(100)]
#[verifier::spinoff_prover]
pub proof fn lemma_merge_spec_merged(spans: Seq<CachedSpan>)
    requires
        spans_chain(spans),
    ensures
        spans_merged(merge_spec(spans)),
    decreases spans.len(),
{
    reveal(merge_spec);
    if spans.len() > 0 {
        let front = spans.drop_last();
        assert(forall|k: int| 0 <= k < front.len() ==> front[k] == spans[k]);
        assert(spans_chain(front));
        lemma_merge_spec_merged(front);
        let rest = merge_spec(front);
        let c = spans.last();
        if rest.len() > 0 && rest.last().end == c.start && rest.last().category == c.category {
            let l2 = CachedSpan { start: rest.last().start, end: c.end, category: c.category };
            let out = rest.drop_last().push(l2);
            assert(out.len() == rest.len());
            assert(forall|k: int| 0 <= k < out.len() - 1 ==> out[k] == rest[k]);
            assert(out.last() == l2);
            assert forall|k: int|
                0 <= k < out.len() - 1 implies !((#[trigger] out[k]).end == out[k + 1].start
                && out[k].category == out[k + 1].category) by {
                assert(out[k] == rest[k]);
                if k + 1 < out.len() - 1 {
                    assert(out[k + 1] == rest[k + 1]);
                } else {
                    assert(out[k + 1] == l2);
                    assert(l2.start == rest.last().start);
                    assert(!(rest[k].end == rest.last().start && rest[k].category
                        == rest.last().category));
                }
            }
        } else {
            let out = rest.push(c);
            assert(forall|k: int| 0 <= k < rest.len() ==> out[k] == rest[k]);
            assert(out.last() == c);
            assert forall|k: int|
                0 <= k < out.len() - 1 implies !((#[trigger] out[k]).end == out[k + 1].start
                && out[k].category == out[k + 1].category) by {
                assert(out[k] == rest[k]);
                if k + 1 < out.len() - 1 {
                    assert(out[k + 1] == rest[k + 1]);
                } else {
                    assert(out[k + 1] == c);
                }
            }
        }
    }
}



/// The category covering byte `pos`, if any span contains it (spans cached
/// by this library never overlap).
pub open spec fn category_at(spans: Seq<CachedSpan>, pos: int) -> Option<HighlightCategory>
    decreases spans.len(),
{
    if spans.len() == 0 {
        None
    } else if spans.last().start <= pos < spans.last().end {
        Some(spans.last().category)
    } else {
        category_at(spans.drop_last(), pos)
    }
}

/// Merging preserves the byte-to-category coverage exactly: every byte is
/// covered by the same category before and after adjacent spans of
/// identical category collapse. Together with `merge_adjacent_spans`
/// returning exactly `merge_spec`, merging never changes what is
/// highlighted.
#[verifier::rlimit(100)]
#[verifier::spinoff_prover]
pub proof fn lemma_merge_spec_coverage(spans: Seq<CachedSpan>, pos: int)
    requires
        spans_chain(spans),
    ensures
        category_at(merge_spec(spans), pos) == category_at(spans, pos),
    decreases spans.len(),
{
    reveal(merge_spec);
    if spans.len() > 0 {
        let front = spans.drop_last();
        let c = spans.last();
        assert(forall|k: int| 0 <= k < front.len() ==> front[k] == spans[k]);
        assert(spans_chain(front));
        lemma_merge_spec_coverage(front, pos);
        lemma_merge_spec_chain(front);
        let rest = merge_spec(front);
        if rest.len() > 0 && rest.last().end == c.start && rest.last().category == c.category {
            let l = rest.last();
            let l2 = CachedSpan { start: l.start, end: c.end, category: c.category };
            let merged = rest.drop_last().push(l2);
            assert(merged.last() == l2);
            assert(merged.drop_last() =~= rest.drop_last());
            assert(rest.drop_last().push(l) =~= rest);
            // The absorbed span starts where the old last span did, which
            // lies before the old last span's end and hence before `c`.
            assert(l.start < l.end);
        } else {
            assert(rest.push(c).last() == c);
            assert(rest.push(c).drop_last() =~= rest);
        }
    }
}

/// Merges adjacent spans of identical category with touching ranges into
/// single spans: afterwards no two adjacent spans with identical category
/// and touching byte ranges remain, and the overall extent is unchanged.
#[verifier::rlimit(100)]
#[verifier::spinoff_prover]
pub fn merge_adjacent_spans(spans: &mut Vec<CachedSpan>)
    requires
        spans_chain(old(spans)@),
    ensures
        final(spans)@ == merge_spec(old(spans)@),
        spans_chain(final(spans)@),
        spans_merged(final(spans)@),
        final(spans)@.len() <= old(spans)@.len(),
        final(spans)@.len() > 0 ==> old(spans)@.len() > 0 && final(spans)@[0].start == old(
            spans,
        )@[0].start && final(spans)@.last().end == old(spans)@.last().end,
        old(spans)@.len() > 0 ==> final(spans)@.len() > 0,
{
    let n = spans.len();
    let mut out: Vec<CachedSpan> = Vec::new();
    proof {
        reveal(merge_spec);
        assert(merge_spec(spans@.take(0)) =~= Seq::<CachedSpan>::empty());
    }
    let mut i: usize = 0;
    while i < n
        invariant
            i <= n,
            n == spans@.len(),
            spans@ == old(spans)@,
            spans_chain(spans@),
            out@ == merge_spec(spans@.take(i as int)),
        decreases n - i,
    {
        let c = spans[i];
        let ghost out_old = out@;
        proof {
            reveal(merge_spec);
            assert(spans@.take(i + 1).drop_last() =~= spans@.take(i as int));
            assert(spans@.take(i + 1).last() == spans@[i as int]);
            if i > 0 {
                assert(spans@[i - 1].end <= c.start);
            }
        }
        if out.len() > 0 && {
            let l = out[out.len() - 1];
            l.end == c.start && l.category == c.category
        } {
            let l = out[out.len() - 1];
            let l2 = CachedSpan { start: l.start, end: c.end, category: l.category };
            let _ = out.pop();
            out.push(l2);
            proof {
                assert(out@ =~= out_old.drop_last().push(l2));
                assert(out@ =~= merge_spec(spans@.take(i + 1)));
            }
        } else {
            out.push(c);
            proof {
                assert(out@ =~= out_old.push(c));
                assert(out@ =~= merge_spec(spans@.take(i + 1)));
            }
        }
        i = i + 1;
    }
    proof {
        assert(spans@.take(n as int) =~= spans@);
        lemma_merge_spec_chain(spans@);
        lemma_merge_spec_merged(spans@);
        lemma_merge_spec_ends(spans@);
    }
    *spans = out;
}

/// The spans that intersect the viewport `[vs, ve)`, in order.
pub open spec fn filter_spans(spans: Seq<CachedSpan>, vs: int, ve: int) -> Seq<CachedSpan>
    decreases spans.len(),
{
    if spans.len() == 0 {
        Seq::empty()
    } else {
        let rest = filter_spans(spans.drop_last(), vs, ve);
        if spans.last().start < ve && spans.last().end > vs {
            rest.push(spans.last())
        } else {
            rest
        }
    }
}

/// The spans with their categories resolved to theme colors.
pub open spec fn color_spans(spans: Seq<CachedSpan>, theme: Theme) -> Seq<HighlightSpan> {
    spans.map_values(
        |sp: CachedSpan|
            HighlightSpan {
                start: sp.start,
                end: sp.end,
                color: theme.spec_color_of(sp.category),
            },
    )
}

/// Filters cached spans to the viewport and resolves their colors.
pub fn filter_and_color(spans: &Vec<CachedSpan>, vs: usize, ve: usize, theme: &Theme) -> (r: Vec<
    HighlightSpan,
>)
    ensures
        r@ == color_spans(filter_spans(spans@, vs as int, ve as int), *theme),
{
    let n = spans.len();
    let mut r: Vec<HighlightSpan> = Vec::new();
    let mut i: usize = 0;
    while i < n
        invariant
            i <= n,
            n == spans@.len(),
            r@ == color_spans(filter_spans(spans@.take(i as int), vs as int, ve as int), *theme),
        decreases n - i,
    {
        let sp = spans[i];
        proof {
            assert(spans@.take(i + 1).drop_last() =~= spans@.take(i as int));
            assert(spans@.take(i + 1).last() == spans@[i as int]);
        }
        if sp.start < ve && sp.end > vs {
            r.push(
                HighlightSpan { start: sp.start, end: sp.end, color: theme.color_of(sp.category) },
            );
            proof {
                assert(r@ =~= color_spans(
                    filter_spans(spans@.take(i + 1), vs as int, ve as int),
                    *theme,
                ));
            }
        } else {
            proof {
                assert(r@ =~= color_spans(
                    filter_spans(spans@.take(i + 1), vs as int, ve as int),
                    *theme,
                ));
            }
        }
        i = i + 1;
    }
    proof {
        assert(spans@.take(n as int) =~= spans@);
    }
    r
}

/// Appends one span to a well-formed span list, keeping it a chain.
#[verifier::rlimit(100)]
#[verifier::spinoff_prover]
pub fn push_span(
    spans: Vec<CachedSpan>,
    start: usize,
    end: usize,
    category: HighlightCategory,
) -> (r: Vec<CachedSpan>)
    requires
        spans_chain(spans@),
        spans@.len() > 0 ==> spans@.last().end <= start,
        start < end,
    ensures
        spans_chain(r@),
        r@.len() == spans@.len() + 1,
        r@.last().end == end,
        spans@.len() > 0 ==> r@[0] == spans@[0],
        spans@.len() == 0 ==> r@[0] == (CachedSpan { start, end, category }),
{
    let mut spans = spans;
    spans.push(CachedSpan { start, end, category });
    spans
}

} // verus!
