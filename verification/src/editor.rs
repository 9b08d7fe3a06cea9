//! The editing session: buffer, cursor set, undo/redo history, layout
//! configuration and viewport scroller for one open document.
//!
//! Every user-visible action — a text edit at every cursor, a cursor add, a
//! cursor remove — produces exactly one transaction pushed onto the undo
//! stack; pushing a new transaction clears the redo stack. A single undo
//! reverses the whole action atomically and restores the prior cursor set; a
//! single redo is the mirror operation. Undo and redo on an empty stack are
//! silent no-ops.

use vstd::prelude::*;
use vstd::slice::slice_to_vec;
use crate::buffer::TextBuffer;
use crate::cursor::{lemma_sorted_gap, same_cursors, Cursor, CursorSet};
use crate::edit::{
    apply_edit_op, apply_ops, lemma_apply_snoc, lemma_ops_redo_round_trip, lemma_ops_round_trip,
    op_applies, ops_apply, ops_model, ops_unapply, unapply_edit_op, unapply_ops, EditOp,
    EditTransaction, OpModel,
};
use crate::layout::{
    col_to_offset, lemma_line_end_monotone, lemma_line_end_of, lemma_line_start_monotone,
    lemma_line_start_of, lemma_wrap_rows_structure, line_end_exec, line_end_of, line_start_exec,
    line_start_of, newline_count, line_index_of, offset_to_screen, row_index_of,
    screen_to_offset, width_sum, wrap_line, wrap_rows, LayoutConfig,
};
use crate::scroll::{visual_row_of, visual_row_of_exec, Scroller};
use vstd::slice::slice_subrange;

verus! {

/// The undo stack is coherent with the current buffer: the top transaction
/// can be reverse-applied, its cursor snapshots fit the buffers on both
/// sides, and the rest of the stack is coherent with the reverted buffer.
pub open spec fn undo_stack_ok(buf: Seq<u8>, undo: Seq<EditTransaction>) -> bool
    decreases undo.len(),
{
    undo.len() == 0 || {
        let t = undo.last();
        let prev = unapply_ops(buf, ops_model(t.ops@));
        &&& ops_unapply(buf, ops_model(t.ops@))
        &&& t.cursors_before.wf(prev.len())
        &&& t.cursors_after.wf(buf.len())
        &&& undo_stack_ok(prev, undo.drop_last())
    }
}

/// The redo stack is coherent with the current buffer: the top transaction
/// can be re-applied, its cursor snapshots fit the buffers on both sides,
/// and the rest of the stack is coherent with the re-applied buffer.
pub open spec fn redo_stack_ok(buf: Seq<u8>, redo: Seq<EditTransaction>) -> bool
    decreases redo.len(),
{
    redo.len() == 0 || {
        let t = redo.last();
        let next = apply_ops(buf, ops_model(t.ops@));
        &&& ops_apply(buf, ops_model(t.ops@))
        &&& t.cursors_before.wf(buf.len())
        &&& t.cursors_after.wf(next.len())
        &&& redo_stack_ok(next, redo.drop_last())
    }
}

/// The editing session for one open document.
pub struct Editor {
    pub buffer: TextBuffer,
    pub cursors: CursorSet,
    pub undo_stack: Vec<EditTransaction>,
    pub redo_stack: Vec<EditTransaction>,
    pub config: LayoutConfig,
    pub scroll: Scroller,
}

impl Editor {
    /// Session invariant: cursors clamped and ordered against the buffer,
    /// both history stacks coherent with the buffer, a sane layout, and no
    /// horizontal scroll while wrapping is on.
    pub open spec fn wf(self) -> bool {
        &&& self.cursors.wf(self.buffer@.len())
        &&& undo_stack_ok(self.buffer@, self.undo_stack@)
        &&& redo_stack_ok(self.buffer@, self.redo_stack@)
        &&& self.config.wf()
        &&& self.scroll.wf()
        &&& self.config.wrap_enabled ==> self.scroll.h_offset == 0
    }

    /// The visual row the scroller tracks for the primary cursor: the
    /// wrapped row index with wrapping on, the logical line index with it
    /// off.
    pub open spec fn primary_row(self) -> int {
        if self.config.wrap_enabled {
            visual_row_of(
                self.buffer@,
                self.cursors.spec_primary().position as int,
                self.config.width as nat,
                self.config.tab_width as nat,
            )
        } else {
            newline_count(self.buffer@, self.cursors.spec_primary().position as int) as int
        }
    }

    /// The primary cursor is inside the viewport: its row is between the
    /// scroll top and the bottom, and — with wrapping off — its byte column
    /// within the logical line lies in the horizontal window.
    pub open spec fn primary_visible(self) -> bool {
        &&& self.scroll.scroll_top <= self.primary_row() < self.scroll.scroll_top
            + self.scroll.height
        &&& !self.config.wrap_enabled ==> self.scroll.h_offset
            <= self.cursors.spec_primary().position - line_start_of(
            self.buffer@,
            self.cursors.spec_primary().position as int,
        ) < self.scroll.h_offset + self.config.width
    }

    /// An empty document with one cursor at offset 0.
    pub fn new(width: usize, height: usize) -> (r: Editor)
        requires
            1 <= width <= 65535,
            height >= 1,
        ensures
            r.wf(),
            r.buffer@ == Seq::<u8>::empty(),
            r.cursors.cursors@.len() == 1,
            r.undo_stack@.len() == 0,
            r.redo_stack@.len() == 0,
    {
        Editor {
            buffer: TextBuffer::new(),
            cursors: CursorSet::new(),
            undo_stack: Vec::new(),
            redo_stack: Vec::new(),
            config: LayoutConfig::new(width, true),
            scroll: Scroller::new(height),
        }
    }

    /// A document initialised with `content`, the cursor at offset 0 and an
    /// empty history.
    pub fn from_bytes(content: Vec<u8>, width: usize, height: usize) -> (r: Editor)
        requires
            1 <= width <= 65535,
            height >= 1,
        ensures
            r.wf(),
            r.buffer@ == content@,
            r.cursors.cursors@.len() == 1,
            r.cursors.spec_primary().position == 0,
            r.undo_stack@.len() == 0,
            r.redo_stack@.len() == 0,
    {
        Editor {
            buffer: TextBuffer::from_bytes(content),
            cursors: CursorSet::new(),
            undo_stack: Vec::new(),
            redo_stack: Vec::new(),
            config: LayoutConfig::new(width, true),
            scroll: Scroller::new(height),
        }
    }

    /// The whole buffer content.
    pub fn content(&self) -> (r: Vec<u8>)
        ensures
            r@ == self.buffer@,
    {
        self.buffer.to_vec()
    }

    /// Number of cursors.
    pub fn cursor_count(&self) -> (r: usize)
        ensures
            r == self.cursors.cursors@.len(),
    {
        self.cursors.count()
    }

    /// Byte position of the primary cursor.
    pub fn primary_position(&self) -> (r: usize)
        requires
            self.wf(),
        ensures
            r == self.cursors.spec_primary().position,
    {
        self.cursors.primary_cursor().position
    }

    /// Selection anchor of the primary cursor, if a selection is active.
    pub fn primary_anchor(&self) -> (r: Option<usize>)
        requires
            self.wf(),
        ensures
            r == self.cursors.spec_primary().anchor,
    {
        self.cursors.primary_cursor().anchor
    }

    /// Re-clamps the scroller so the primary cursor is visible, by the
    /// minimal amount.
    fn sync_scroll(&mut self)
        requires
            old(self).wf(),
        ensures
            final(self).wf(),
            final(self).buffer@ == old(self).buffer@,
            final(self).cursors == old(self).cursors,
            final(self).undo_stack@ == old(self).undo_stack@,
            final(self).redo_stack@ == old(self).redo_stack@,
            final(self).config == old(self).config,
            final(self).scroll.height == old(self).scroll.height,
            old(self).config.wrap_enabled ==> final(self).scroll.h_offset == old(
                self,
            ).scroll.h_offset,
            final(self).primary_visible(),
    {
        let pos = self.cursors.primary_cursor().position;
        if self.config.wrap_enabled {
            let row = visual_row_of_exec(
                self.buffer.as_bytes().as_slice(),
                pos,
                self.config.width,
                self.config.tab_width,
            );
            self.scroll.ensure_row_visible(row);
        } else {
            let text = self.buffer.as_bytes().as_slice();
            let row = line_index_of(text, pos);
            self.scroll.ensure_row_visible(row);
            let ls = line_start_exec(text, pos);
            self.scroll.ensure_col_visible(pos - ls, self.config.width);
        }
    }

    /// Inserts `text` simultaneously at every cursor — the same logical edit
    /// at every edit point, applied highest offset first — as one atomic
    /// transaction. Each cursor ends just after its inserted text, with any
    /// selection cleared; the redo stack is cleared.
    pub fn insert_text(&mut self, text: &[u8])
        requires
            old(self).wf(),
            old(self).buffer@.len() + old(self).cursors.cursors@.len() * text@.len()
                <= usize::MAX,
        ensures
            final(self).wf(),
            final(self).primary_visible(),
            final(self).undo_stack@.len() == old(self).undo_stack@.len() + 1,
            final(self).undo_stack@.drop_last() == old(self).undo_stack@,
            final(self).redo_stack@.len() == 0,
            ({
                let t = final(self).undo_stack@.last();
                let n = old(self).cursors.cursors@.len();
                &&& same_cursors(t.cursors_before, old(self).cursors)
                &&& same_cursors(t.cursors_after, final(self).cursors)
                &&& t.ops@.len() == n
                &&& forall|k: int|
                    #![auto]
                    0 <= k < n ==> t.ops@[k]@ == (OpModel {
                        start: old(self).cursors.cursors@[n - 1 - k].position as int,
                        removed: Seq::<u8>::empty(),
                        inserted: text@,
                    })
                &&& ops_apply(old(self).buffer@, ops_model(t.ops@))
                &&& final(self).buffer@ == apply_ops(old(self).buffer@, ops_model(t.ops@))
                &&& unapply_ops(final(self).buffer@, ops_model(t.ops@)) == old(self).buffer@
            }),
            final(self).buffer@.len() == old(self).buffer@.len() + old(self).cursors.cursors@.len() * text@.len(),
            final(self).cursors.cursors@.len() == old(self).cursors.cursors@.len(),
            forall|i: int|
                #![trigger final(self).cursors.cursors@[i]]
                0 <= i < old(self).cursors.cursors@.len() ==> final(self).cursors.cursors@[i].position == old(self).cursors.cursors@[i].position + (i + 1)
                    * text@.len() && final(self).cursors.cursors@[i].anchor is None && final(self).cursors.cursors@[i].id == old(self).cursors.cursors@[i].id,
            final(self).cursors.primary == old(self).cursors.primary,
            final(self).config == old(self).config,
    {
        let ghost buf0 = self.buffer@;
        let ghost cs0 = self.cursors.cursors@;
        let cursors_before = self.cursors.snapshot();
        let n = self.cursors.cursors.len();
        let tlen = text.len();
        proof {
            if n > 0 {
                lemma_sorted_gap(cs0, 0, n - 1);
            }
        }
        // Apply one insertion per cursor, highest offset first.
        let mut ops: Vec<EditOp> = Vec::new();
        let mut i: usize = n;
        while i > 0
            invariant
                i <= n,
                n == cs0.len(),
                n >= 1,
                tlen == text@.len(),
                self.cursors == old(self).cursors,
                self.cursors.cursors@ == cs0,
                self.cursors.wf(buf0.len()),
                buf0.len() + n * tlen <= usize::MAX,
                ops@.len() == n - i,
                forall|k: int|
                    #![auto]
                    0 <= k < n - i ==> ops@[k]@ == (OpModel {
                        start: cs0[n - 1 - k].position as int,
                        removed: Seq::<u8>::empty(),
                        inserted: text@,
                    }),
                ops_apply(buf0, ops_model(ops@)),
                self.buffer@ == apply_ops(buf0, ops_model(ops@)),
                self.buffer@.len() == buf0.len() + (n - i) * tlen,
                self.buffer@.take(if i > 0 {
                    cs0[i - 1].position + 1
                } else {
                    0
                }) == buf0.take(if i > 0 {
                    cs0[i - 1].position + 1
                } else {
                    0
                }),
                self.undo_stack@ == old(self).undo_stack@,
                self.redo_stack@ == old(self).redo_stack@,
                self.config == old(self).config,
                self.scroll == old(self).scroll,
            decreases i,
        {
            i = i - 1;
            let pos = self.cursors.cursors[i].position;
            let op = EditOp { start: pos, removed: Vec::new(), inserted: slice_to_vec(text) };
            let ghost ops_old = ops@;
            let ghost buf_before = self.buffer@;
            proof {
                // The prefix up to and including this cursor's position is
                // still the original bytes, so the op applies.
                assert(pos <= buf0.len());
                assert((n - i - 1) * tlen >= 0) by (nonlinear_arith)
                    requires
                        i < n,
                        tlen >= 0,
                ;
                assert(self.buffer@.subrange(pos as int, pos as int) =~= Seq::<u8>::empty());
                assert(op_applies(self.buffer@, op@));
            }
            apply_edit_op(&mut self.buffer, &op);
            ops.push(op);
            proof {
                assert(ops_model(ops@) =~= ops_model(ops_old).push(op@));
                lemma_apply_snoc(buf0, ops_model(ops_old), op@);
                assert(ops_apply(buf0, ops_model(ops@)));
                assert(self.buffer@ == apply_ops(buf0, ops_model(ops@)));
                assert(self.buffer@.len() == buf_before.len() + tlen);
                assert(buf0.len() + (n - i - 1) * tlen + tlen == buf0.len() + (n - i) * tlen)
                    by (nonlinear_arith);
                if i > 0 {
                    assert(cs0[i - 1].position < pos);
                    assert(self.buffer@.take(cs0[i - 1].position + 1) =~= buf_before.take(
                        cs0[i - 1].position + 1,
                    ));
                    assert(buf_before.take(cs0[i - 1].position + 1) == buf0.take(
                        cs0[i - 1].position + 1,
                    ));
                }
            }
        }
        // Move every cursor past its own insertion: cursor i gains (i + 1)
        // times the text length.
        let mut newcs: Vec<Cursor> = Vec::new();
        let mut j: usize = 0;
        while j < n
            invariant
                j <= n,
                n == cs0.len(),
                tlen == text@.len(),
                self.cursors.cursors@ == cs0,
                buf0.len() + n * tlen <= usize::MAX,
                forall|x: int, y: int| 0 <= x < y < n ==> cs0[x].position < cs0[y].position,
                forall|x: int| 0 <= x < n ==> cs0[x].position <= buf0.len(),
                newcs@.len() == j,
                forall|k: int|
                    #![trigger newcs@[k]]
                    0 <= k < j ==> newcs@[k].id == cs0[k].id && newcs@[k].position == cs0[
                        k
                    ].position + (k + 1) * tlen && newcs@[k].anchor is None,
            decreases n - j,
        {
            let c = self.cursors.cursors[j];
            proof {
                lemma_sorted_gap(cs0, j as int, n - 1);
                assert((j + 1) * tlen <= n * tlen) by (nonlinear_arith)
                    requires
                        0 <= j,
                        j + 1 <= n,
                        tlen >= 0,
                ;
            }
            let np = c.position + (j + 1) * tlen;
            newcs.push(Cursor { id: c.id, position: np, anchor: None });
            j = j + 1;
        }
        let primary = self.cursors.primary;
        let next_id = self.cursors.next_id;
        self.cursors = CursorSet { cursors: newcs, primary, next_id };
        proof {
            // New positions stay ordered and in bounds.
            assert forall|x: int, y: int|
                0 <= x < y < n implies self.cursors.cursors@[x].position
                < self.cursors.cursors@[y].position by {
                assert(cs0[x].position < cs0[y].position);
                assert((x + 1) * tlen <= (y + 1) * tlen) by (nonlinear_arith)
                    requires
                        0 <= x < y,
                        tlen >= 0,
                ;
                assert(self.cursors.cursors@[x].position == cs0[x].position + (x + 1) * tlen);
                assert(self.cursors.cursors@[y].position == cs0[y].position + (y + 1) * tlen);
            }
            assert forall|x: int|
                0 <= x < n implies self.cursors.cursors@[x].position
                <= self.buffer@.len() by {
                lemma_sorted_gap(cs0, x, n - 1);
                assert((x + 1) * tlen <= n * tlen) by (nonlinear_arith)
                    requires
                        0 <= x,
                        x + 1 <= n,
                        tlen >= 0,
                ;
            }
        }
        let cursors_after = self.cursors.snapshot();
        let t = EditTransaction { ops, cursors_before, cursors_after };
        proof {
            lemma_ops_round_trip(buf0, ops_model(t.ops@));
        }
        self.undo_stack.push(t);
        self.redo_stack = Vec::new();
        proof {
            assert(self.undo_stack@.drop_last() =~= old(self).undo_stack@);
            assert(undo_stack_ok(self.buffer@, self.undo_stack@));
        }
        self.sync_scroll();
    }

    /// Undoes the most recent transaction: reverse-applies each of its edits
    /// (restoring the prior bytes) and restores the cursor set recorded
    /// before the action. A no-op when the undo stack is empty.
    pub fn undo(&mut self)
        requires
            old(self).wf(),
        ensures
            final(self).wf(),
            old(self).undo_stack@.len() == 0 ==> final(self).buffer@ == old(self).buffer@
                && same_cursors(final(self).cursors, old(self).cursors) && final(self).undo_stack@ == old(self).undo_stack@ && final(self).redo_stack@ == old(self).redo_stack@,
            old(self).undo_stack@.len() > 0 ==> ({
                let t = old(self).undo_stack@.last();
                &&& final(self).buffer@ == unapply_ops(old(self).buffer@, ops_model(t.ops@))
                &&& same_cursors(final(self).cursors, t.cursors_before)
                &&& final(self).undo_stack@ == old(self).undo_stack@.drop_last()
                &&& final(self).redo_stack@ == old(self).redo_stack@.push(t)
                &&& final(self).primary_visible()
            }),
            final(self).config == old(self).config,
    {
        if self.undo_stack.len() == 0 {
            return ;
        }
        let ghost buf1 = self.buffer@;
        let t = self.undo_stack.pop().unwrap();
        let ghost ops = ops_model(t.ops@);
        let m = t.ops.len();
        proof {
            assert(ops.take(m as int) =~= ops);
        }
        let mut j: usize = m;
        while j > 0
            invariant
                j <= m,
                m == t.ops@.len(),
                ops == ops_model(t.ops@),
                ops_unapply(self.buffer@, ops.take(j as int)),
                unapply_ops(self.buffer@, ops.take(j as int)) == unapply_ops(buf1, ops),
                self.undo_stack@ == old(self).undo_stack@.drop_last(),
                self.redo_stack@ == old(self).redo_stack@,
                self.cursors == old(self).cursors,
                self.config == old(self).config,
                self.scroll == old(self).scroll,
            decreases j,
        {
            proof {
                assert(ops.take(j as int).last() == ops[j - 1]);
                assert(ops.take(j as int).drop_last() =~= ops.take(j - 1));
            }
            unapply_edit_op(&mut self.buffer, &t.ops[j - 1]);
            j = j - 1;
        }
        proof {
            assert(ops.take(0) =~= Seq::<OpModel>::empty());
            assert(self.buffer@ == unapply_ops(buf1, ops));
            lemma_ops_redo_round_trip(buf1, ops);
        }
        self.cursors = t.cursors_before.snapshot();
        self.redo_stack.push(t);
        proof {
            assert(self.redo_stack@.drop_last() =~= old(self).redo_stack@);
            assert(redo_stack_ok(self.buffer@, self.redo_stack@));
            assert(same_cursors(
                self.cursors,
                old(self).undo_stack@.last().cursors_before,
            ));
        }
        self.sync_scroll();
    }

    /// Redoes the most recently undone transaction: re-applies each of its
    /// edits in original order and restores the cursor set recorded after
    /// the action. A no-op when the redo stack is empty.
    pub fn redo(&mut self)
        requires
            old(self).wf(),
        ensures
            final(self).wf(),
            old(self).redo_stack@.len() == 0 ==> final(self).buffer@ == old(self).buffer@
                && same_cursors(final(self).cursors, old(self).cursors) && final(self).undo_stack@ == old(self).undo_stack@ && final(self).redo_stack@ == old(self).redo_stack@,
            old(self).redo_stack@.len() > 0 ==> ({
                let t = old(self).redo_stack@.last();
                &&& final(self).buffer@ == apply_ops(old(self).buffer@, ops_model(t.ops@))
                &&& same_cursors(final(self).cursors, t.cursors_after)
                &&& final(self).redo_stack@ == old(self).redo_stack@.drop_last()
                &&& final(self).undo_stack@ == old(self).undo_stack@.push(t)
                &&& final(self).primary_visible()
            }),
            final(self).config == old(self).config,
    {
        if self.redo_stack.len() == 0 {
            return ;
        }
        let ghost buf1 = self.buffer@;
        let t = self.redo_stack.pop().unwrap();
        let ghost ops = ops_model(t.ops@);
        let m = t.ops.len();
        proof {
            assert(ops.take(0) =~= Seq::<OpModel>::empty());
            assert(ops.skip(0) =~= ops);
        }
        let mut j: usize = 0;
        while j < m
            invariant
                j <= m,
                m == t.ops@.len(),
                ops == ops_model(t.ops@),
                ops_apply(buf1, ops.take(j as int)),
                self.buffer@ == apply_ops(buf1, ops.take(j as int)),
                ops_apply(buf1, ops),
                apply_ops(buf1, ops) == apply_ops(self.buffer@, ops.skip(j as int)),
                ops_apply(self.buffer@, ops.skip(j as int)),
                self.redo_stack@ == old(self).redo_stack@.drop_last(),
                self.undo_stack@ == old(self).undo_stack@,
                self.cursors == old(self).cursors,
                self.config == old(self).config,
                self.scroll == old(self).scroll,
            decreases m - j,
        {
            proof {
                assert(ops.skip(j as int)[0] == ops[j as int]);
                assert(ops.skip(j as int).skip(1) =~= ops.skip(j + 1));
                assert(ops.take(j as int).push(ops[j as int]) =~= ops.take(j + 1));
                lemma_apply_snoc(buf1, ops.take(j as int), ops[j as int]);
            }
            apply_edit_op(&mut self.buffer, &t.ops[j]);
            j = j + 1;
        }
        proof {
            assert(ops.take(m as int) =~= ops);
            assert(self.buffer@ == apply_ops(buf1, ops));
            lemma_ops_round_trip(buf1, ops);
        }
        self.cursors = t.cursors_after.snapshot();
        self.undo_stack.push(t);
        proof {
            assert(self.undo_stack@.drop_last() =~= old(self).undo_stack@);
            assert(undo_stack_ok(self.buffer@, self.undo_stack@));
            assert(same_cursors(self.cursors, old(self).redo_stack@.last().cursors_after));
        }
        self.sync_scroll();
    }
}

/// Word characters stop a backward word deletion; separators are blanks and
/// line terminators.
pub open spec fn is_word_sep(b: u8) -> bool {
    b == 32 || b == 9 || b == 10 || b == 13
}

/// Offset after scanning backwards from `p` over word separators.
pub open spec fn skip_sep_back(s: Seq<u8>, p: int) -> int
    decreases p,
{
    if p <= 0 {
        0
    } else if is_word_sep(s[p - 1]) {
        skip_sep_back(s, p - 1)
    } else {
        p
    }
}

/// Offset after scanning backwards from `p` over word characters.
pub open spec fn skip_word_back(s: Seq<u8>, p: int) -> int
    decreases p,
{
    if p <= 0 {
        0
    } else if !is_word_sep(s[p - 1]) {
        skip_word_back(s, p - 1)
    } else {
        p
    }
}

/// Where a backward word deletion from `p` starts: first skip any
/// separators, then the word before them.
pub open spec fn word_start_of(s: Seq<u8>, p: int) -> int {
    skip_word_back(s, skip_sep_back(s, p))
}

impl Editor {
    /// Records one finished action as a transaction: the given ops carried
    /// the buffer from `buf0` to its current content, `cursors_before` is
    /// the snapshot from before the action, and the current cursor set is
    /// the after snapshot. Clears the redo stack and re-clamps the scroll.
    fn commit_transaction(
        &mut self,
        ops: Vec<EditOp>,
        cursors_before: CursorSet,
        Ghost(buf0): Ghost<Seq<u8>>,
    )
        requires
            old(self).cursors.wf(old(self).buffer@.len()),
            old(self).config.wf(),
            old(self).scroll.wf(),
            old(self).config.wrap_enabled ==> old(self).scroll.h_offset == 0,
            ops_apply(buf0, ops_model(ops@)),
            old(self).buffer@ == apply_ops(buf0, ops_model(ops@)),
            undo_stack_ok(buf0, old(self).undo_stack@),
            cursors_before.wf(buf0.len()),
        ensures
            final(self).wf(),
            final(self).primary_visible(),
            final(self).buffer@ == old(self).buffer@,
            final(self).cursors.cursors@ == old(self).cursors.cursors@,
            final(self).cursors.primary == old(self).cursors.primary,
            final(self).undo_stack@.len() == old(self).undo_stack@.len() + 1,
            final(self).undo_stack@.drop_last() == old(self).undo_stack@,
            final(self).redo_stack@.len() == 0,
            ({
                let t = final(self).undo_stack@.last();
                &&& t.ops@ == ops@
                &&& same_cursors(t.cursors_before, cursors_before)
                &&& same_cursors(t.cursors_after, old(self).cursors)
            }),
            final(self).config == old(self).config,
    {
        let cursors_after = self.cursors.snapshot();
        let t = EditTransaction { ops, cursors_before, cursors_after };
        proof {
            lemma_ops_round_trip(buf0, ops_model(t.ops@));
        }
        self.undo_stack.push(t);
        self.redo_stack = Vec::new();
        proof {
            assert(self.undo_stack@.drop_last() =~= old(self).undo_stack@);
            assert(undo_stack_ok(self.buffer@, self.undo_stack@));
        }
        self.sync_scroll();
    }

    /// Deletes the byte at every cursor (forward delete), highest offset
    /// first, as one atomic transaction. A cursor at the buffer's very end
    /// deletes nothing; cursors that land on the same position collapse.
    /// When no cursor has a byte to delete, nothing happens at all.
    pub fn delete_forward(&mut self)
        requires
            old(self).wf(),
        ensures
            final(self).wf(),
            ({
                let cs0 = old(self).cursors.cursors@;
                let n = cs0.len();
                let len0 = old(self).buffer@.len();
                let m = if cs0[n - 1].position < len0 {
                    n as int
                } else {
                    n - 1
                };
                &&& m == 0 ==> final(self).buffer@ == old(self).buffer@ && same_cursors(
                    final(self).cursors,
                    old(self).cursors,
                ) && final(self).undo_stack@ == old(self).undo_stack@
                &&& m > 0 ==> ({
                    let t = final(self).undo_stack@.last();
                    &&& final(self).undo_stack@.len() == old(self).undo_stack@.len() + 1
                    &&& final(self).undo_stack@.drop_last() == old(self).undo_stack@
                    &&& final(self).redo_stack@.len() == 0
                    &&& same_cursors(t.cursors_before, old(self).cursors)
                    &&& same_cursors(t.cursors_after, final(self).cursors)
                    &&& t.ops@.len() == m
                    &&& forall|k: int|
                        #![auto]
                        0 <= k < m ==> t.ops@[k]@ == (OpModel {
                            start: cs0[m - 1 - k].position as int,
                            removed: seq![old(self).buffer@[cs0[m - 1 - k].position as int]],
                            inserted: Seq::<u8>::empty(),
                        })
                    &&& ops_apply(old(self).buffer@, ops_model(t.ops@))
                    &&& final(self).buffer@ == apply_ops(old(self).buffer@, ops_model(t.ops@))
                    &&& final(self).buffer@.len() == len0 - m
                    &&& final(self).cursors.cursors@.map_values(|c: Cursor| c.position)
                        == crate::cursor::dedup_positions(
                        Seq::new(n, |i: int| (cs0[i].position - i) as usize),
                    )
                    &&& final(self).cursors.spec_primary().position == cs0[old(
                        self,
                    ).cursors.primary as int].position - old(self).cursors.primary
                    &&& final(self).primary_visible()
                })
            }),
            final(self).config == old(self).config,
    {
        let ghost buf0 = self.buffer@;
        let ghost cs0 = self.cursors.cursors@;
        let len0 = self.buffer.len();
        let n = self.cursors.count();
        let last_pos = self.cursors.cursors[n - 1].position;
        let m: usize = if last_pos < len0 {
            n
        } else {
            n - 1
        };
        if m == 0 {
            return ;
        }
        let cursors_before = self.cursors.snapshot();
        proof {
            lemma_sorted_gap(cs0, 0, n - 1);
            if m < n {
                assert(cs0[m - 1].position < cs0[n - 1].position);
            }
        }
        let mut ops: Vec<EditOp> = Vec::new();
        let mut i: usize = m;
        while i > 0
            invariant
                i <= m <= n,
                m >= 1,
                n == cs0.len(),
                len0 == buf0.len(),
                self.cursors == old(self).cursors,
                self.cursors.cursors@ == cs0,
                self.cursors.wf(buf0.len()),
                m <= n,
                m == n || cs0[n - 1].position == len0,
                m == n ==> cs0[n - 1].position < len0,
                forall|x: int| 0 <= x < m ==> cs0[x].position < len0,
                ops@.len() == m - i,
                forall|k: int|
                    #![auto]
                    0 <= k < m - i ==> ops@[k]@ == (OpModel {
                        start: cs0[m - 1 - k].position as int,
                        removed: seq![buf0[cs0[m - 1 - k].position as int]],
                        inserted: Seq::<u8>::empty(),
                    }),
                ops_apply(buf0, ops_model(ops@)),
                self.buffer@ == apply_ops(buf0, ops_model(ops@)),
                self.buffer@.len() == len0 - (m - i),
                self.buffer@.take(if i > 0 {
                    cs0[i - 1].position + 1
                } else {
                    0
                }) == buf0.take(if i > 0 {
                    cs0[i - 1].position + 1
                } else {
                    0
                }),
                self.undo_stack@ == old(self).undo_stack@,
                self.redo_stack@ == old(self).redo_stack@,
                self.config == old(self).config,
                self.scroll == old(self).scroll,
            decreases i,
        {
            i = i - 1;
            let pos = self.cursors.cursors[i].position;
            proof {
                lemma_sorted_gap(cs0, i as int, m - 1);
                assert(cs0[m - 1].position < len0);
                assert(pos + 1 <= len0 - (m - i - 1));
                assert(self.buffer@.take(pos + 1) == buf0.take(pos + 1));
                assert(self.buffer@.take(pos + 1)[pos as int] == self.buffer@[pos as int]);
                assert(buf0.take(pos + 1)[pos as int] == buf0[pos as int]);
            }
            let removed = self.buffer.slice_bytes(pos, pos + 1);
            let op = EditOp { start: pos, removed, inserted: Vec::new() };
            let ghost ops_old = ops@;
            let ghost buf_before = self.buffer@;
            proof {
                assert(op@.removed =~= seq![buf0[pos as int]]);
                assert(op_applies(self.buffer@, op@));
            }
            apply_edit_op(&mut self.buffer, &op);
            ops.push(op);
            proof {
                assert(ops_model(ops@) =~= ops_model(ops_old).push(op@));
                lemma_apply_snoc(buf0, ops_model(ops_old), op@);
                if i > 0 {
                    assert(cs0[i - 1].position < pos);
                    assert(self.buffer@.take(cs0[i - 1].position + 1) =~= buf_before.take(
                        cs0[i - 1].position + 1,
                    ));
                    assert(buf_before.take(cs0[i - 1].position + 1) =~= buf0.take(
                        cs0[i - 1].position + 1,
                    ));
                }
            }
        }
        // Every cursor shifts down by the number of deletions below it.
        let new_len = len0 - m;
        let mut newpos: Vec<Cursor> = Vec::new();
        let mut j: usize = 0;
        while j < n
            invariant
                j <= n,
                n == cs0.len(),
                m >= 1,
                m <= n,
                m == n ==> cs0[n - 1].position < len0,
                m < n ==> m == n - 1,
                len0 == buf0.len(),
                new_len == len0 - m,
                self.cursors.cursors@ == cs0,
                self.cursors.primary < n,
                forall|x: int, y: int| 0 <= x < y < n ==> cs0[x].position < cs0[y].position,
                forall|x: int| 0 <= x < n ==> cs0[x].position <= len0,
                forall|x: int| 0 <= x < m ==> cs0[x].position < len0,
                newpos@.len() == j,
                forall|k: int|
                    #![trigger newpos@[k]]
                    0 <= k < j ==> newpos@[k].position == cs0[k].position - k && newpos@[
                        k
                    ].anchor is None,
            decreases n - j,
        {
            let c = self.cursors.cursors[j];
            proof {
                lemma_sorted_gap(cs0, 0, j as int);
                if j < m {
                    lemma_sorted_gap(cs0, j as int, m - 1);
                }
            }
            newpos.push(Cursor { id: c.id, position: c.position - j, anchor: None });
            j = j + 1;
        }
        proof {
            assert forall|x: int, y: int|
                0 <= x <= y < n implies newpos@[x].position <= newpos@[y].position by {
                lemma_sorted_gap(cs0, x, y);
            }
            assert forall|x: int| 0 <= x < n implies newpos@[x].position <= new_len by {
                if x < m {
                    lemma_sorted_gap(cs0, x, m - 1);
                } else {
                    assert(x == n - 1 && m == n - 1);
                }
            }
        }
        self.cursors.rebuild(&newpos, new_len);
        proof {
            assert(newpos@.map_values(|c: Cursor| c.position) =~= Seq::new(
                n as nat,
                |i: int| (cs0[i].position - i) as usize,
            ));
        }
        self.commit_transaction(ops, cursors_before, Ghost(buf0));
    }

    /// Deletes the byte before every cursor (backspace), highest offset
    /// first, as one atomic transaction. A cursor at offset 0 deletes
    /// nothing; cursors that land on the same position collapse. When no
    /// cursor has a byte before it, nothing happens at all.
    pub fn delete_backward(&mut self)
        requires
            old(self).wf(),
        ensures
            final(self).wf(),
            ({
                let cs0 = old(self).cursors.cursors@;
                let n = cs0.len();
                let len0 = old(self).buffer@.len();
                let b: int = if cs0[0].position == 0 {
                    1
                } else {
                    0
                };
                let m = n - b;
                &&& m == 0 ==> final(self).buffer@ == old(self).buffer@ && same_cursors(
                    final(self).cursors,
                    old(self).cursors,
                ) && final(self).undo_stack@ == old(self).undo_stack@
                &&& m > 0 ==> ({
                    let t = final(self).undo_stack@.last();
                    &&& final(self).undo_stack@.len() == old(self).undo_stack@.len() + 1
                    &&& final(self).undo_stack@.drop_last() == old(self).undo_stack@
                    &&& final(self).redo_stack@.len() == 0
                    &&& same_cursors(t.cursors_before, old(self).cursors)
                    &&& same_cursors(t.cursors_after, final(self).cursors)
                    &&& t.ops@.len() == m
                    &&& forall|k: int|
                        #![auto]
                        0 <= k < m ==> t.ops@[k]@ == (OpModel {
                            start: cs0[n - 1 - k].position - 1,
                            removed: seq![old(self).buffer@[cs0[n - 1 - k].position - 1]],
                            inserted: Seq::<u8>::empty(),
                        })
                    &&& ops_apply(old(self).buffer@, ops_model(t.ops@))
                    &&& final(self).buffer@ == apply_ops(old(self).buffer@, ops_model(t.ops@))
                    &&& final(self).buffer@.len() == len0 - m
                    &&& final(self).cursors.cursors@.map_values(|c: Cursor| c.position)
                        == crate::cursor::dedup_positions(
                        Seq::new(
                            n,
                            |i: int|
                                if i == 0 && b == 1 {
                                    0usize
                                } else {
                                    (cs0[i].position - 1 - i + b) as usize
                                },
                        ),
                    )
                    &&& final(self).primary_visible()
                })
            }),
            final(self).config == old(self).config,
    {
        let ghost buf0 = self.buffer@;
        let ghost cs0 = self.cursors.cursors@;
        let len0 = self.buffer.len();
        let n = self.cursors.count();
        let first_pos = self.cursors.cursors[0].position;
        let b: usize = if first_pos == 0 {
            1
        } else {
            0
        };
        let m: usize = n - b;
        if m == 0 {
            return ;
        }
        let cursors_before = self.cursors.snapshot();
        proof {
            lemma_sorted_gap(cs0, 0, n - 1);
        }
        let mut ops: Vec<EditOp> = Vec::new();
        let mut i: usize = n;
        while i > b
            invariant
                b <= i <= n,
                b <= 1,
                m == n - b,
                m >= 1,
                n == cs0.len(),
                len0 == buf0.len(),
                self.cursors == old(self).cursors,
                self.cursors.cursors@ == cs0,
                self.cursors.wf(buf0.len()),
                b == 1 ==> cs0[0].position == 0,
                b == 0 ==> cs0[0].position >= 1,
                forall|x: int| b <= x < n ==> cs0[x].position >= 1,
                ops@.len() == n - i,
                forall|k: int|
                    #![auto]
                    0 <= k < n - i ==> ops@[k]@ == (OpModel {
                        start: cs0[n - 1 - k].position - 1,
                        removed: seq![buf0[cs0[n - 1 - k].position - 1]],
                        inserted: Seq::<u8>::empty(),
                    }),
                ops_apply(buf0, ops_model(ops@)),
                self.buffer@ == apply_ops(buf0, ops_model(ops@)),
                self.buffer@.len() == len0 - (n - i),
                self.buffer@.take(if i < n {
                    cs0[i as int].position - 1
                } else {
                    len0 as int
                }) == buf0.take(if i < n {
                    cs0[i as int].position - 1
                } else {
                    len0 as int
                }),
                self.undo_stack@ == old(self).undo_stack@,
                self.redo_stack@ == old(self).redo_stack@,
                self.config == old(self).config,
                self.scroll == old(self).scroll,
            decreases i,
        {
            i = i - 1;
            let pos = self.cursors.cursors[i].position;
            proof {
                lemma_sorted_gap(cs0, i as int, n - 1);
                assert(pos <= len0 - (n - 1 - i));
                let cut: int = if i + 1 < n {
                    cs0[i + 1].position - 1
                } else {
                    len0 as int
                };
                if i + 1 < n {
                    lemma_sorted_gap(cs0, i + 1, n - 1);
                    assert(pos - 1 < cut);
                }
                assert(self.buffer@.take(cut) == buf0.take(cut));
                assert(self.buffer@.take(cut)[pos - 1] == buf0.take(cut)[pos - 1]);
                assert(self.buffer@[pos - 1] == buf0[pos - 1]);
            }
            let removed = self.buffer.slice_bytes(pos - 1, pos);
            let op = EditOp { start: pos - 1, removed, inserted: Vec::new() };
            let ghost ops_old = ops@;
            let ghost buf_before = self.buffer@;
            proof {
                assert(op@.removed =~= seq![buf0[pos - 1]]);
                assert(op_applies(self.buffer@, op@));
            }
            apply_edit_op(&mut self.buffer, &op);
            ops.push(op);
            proof {
                assert(ops_model(ops@) =~= ops_model(ops_old).push(op@));
                lemma_apply_snoc(buf0, ops_model(ops_old), op@);
                assert(self.buffer@.take(pos - 1) =~= buf_before.take(pos - 1));
                let cut: int = if i + 1 < n {
                    cs0[i + 1].position - 1
                } else {
                    len0 as int
                };
                assert forall|q: int| 0 <= q < pos - 1 implies buf_before[q] == buf0[q] by {
                    assert(buf_before.take(cut)[q] == buf0.take(cut)[q]);
                }
                assert(buf_before.take(pos - 1) =~= buf0.take(pos - 1));
            }
        }
        let new_len = len0 - m;
        let mut newpos: Vec<Cursor> = Vec::new();
        let mut j: usize = 0;
        while j < n
            invariant
                j <= n,
                n == cs0.len(),
                b <= 1,
                m == n - b,
                m >= 1,
                len0 == buf0.len(),
                new_len == len0 - m,
                self.cursors.cursors@ == cs0,
                self.cursors.primary < n,
                forall|x: int, y: int| 0 <= x < y < n ==> cs0[x].position < cs0[y].position,
                forall|x: int| 0 <= x < n ==> cs0[x].position <= len0,
                b == 1 ==> cs0[0].position == 0,
                forall|x: int| b <= x < n ==> cs0[x].position >= 1,
                newpos@.len() == j,
                forall|k: int|
                    #![trigger newpos@[k]]
                    0 <= k < j ==> newpos@[k].anchor is None && newpos@[k].position == if k == 0
                        && b == 1 {
                        0
                    } else {
                        cs0[k].position - 1 - k + b
                    },
            decreases n - j,
        {
            let c = self.cursors.cursors[j];
            proof {
                lemma_sorted_gap(cs0, 0, j as int);
                lemma_sorted_gap(cs0, j as int, n - 1);
                if j >= b {
                    lemma_sorted_gap(cs0, b as int, j as int);
                }
            }
            if j == 0 && b == 1 {
                newpos.push(Cursor { id: c.id, position: 0, anchor: None });
            } else {
                newpos.push(Cursor { id: c.id, position: c.position - 1 + b - j, anchor: None });
            }
            j = j + 1;
        }
        proof {
            assert forall|x: int, y: int|
                0 <= x <= y < n implies newpos@[x].position <= newpos@[y].position by {
                lemma_sorted_gap(cs0, x, y);
            }
            assert forall|x: int| 0 <= x < n implies newpos@[x].position <= new_len by {
                lemma_sorted_gap(cs0, x, n - 1);
            }
        }
        self.cursors.rebuild(&newpos, new_len);
        proof {
            assert(newpos@.map_values(|c: Cursor| c.position) =~= Seq::new(
                n as nat,
                |i: int|
                    if i == 0 && b == 1 {
                        0usize
                    } else {
                        (cs0[i].position - 1 - i + b) as usize
                    },
            ));
        }
        self.commit_transaction(ops, cursors_before, Ghost(buf0));
    }
}

/// A cursor after a plain movement: it lands on `np`; with `select` the
/// anchor is kept, or set to the old position when none was active; without
/// `select` any selection is cleared.
pub open spec fn moved_cursor(c: Cursor, np: usize, select: bool) -> Cursor {
    Cursor {
        id: c.id,
        position: np,
        anchor: if select {
            if c.anchor is Some {
                c.anchor
            } else {
                Some(c.position)
            }
        } else {
            None
        },
    }
}

impl Editor {
    /// Replaces `[start, end)` with `insert` as one single-edit transaction:
    /// the entry point for edits that are not tied to the cursor set, such
    /// as an interactive replacement. Every cursor is shifted over the edit
    /// (a cursor inside the replaced range lands just after the inserted
    /// text), selections are cleared, and colliding cursors collapse.
    pub fn apply_single_edit(&mut self, start: usize, end: usize, insert: &[u8])
        requires
            old(self).wf(),
            start <= end <= old(self).buffer@.len(),
            old(self).buffer@.len() - (end - start) + insert@.len() <= usize::MAX,
        ensures
            final(self).wf(),
            final(self).primary_visible(),
            final(self).buffer@ == old(self).buffer@.take(start as int) + insert@ + old(
                self,
            ).buffer@.skip(end as int),
            final(self).undo_stack@.len() == old(self).undo_stack@.len() + 1,
            final(self).undo_stack@.drop_last() == old(self).undo_stack@,
            final(self).redo_stack@.len() == 0,
            ({
                let t = final(self).undo_stack@.last();
                &&& same_cursors(t.cursors_before, old(self).cursors)
                &&& same_cursors(t.cursors_after, final(self).cursors)
                &&& t.ops@.len() == 1
                &&& t.ops@[0]@ == (OpModel {
                    start: start as int,
                    removed: old(self).buffer@.subrange(start as int, end as int),
                    inserted: insert@,
                })
            }),
            final(self).cursors.cursors@.map_values(|c: Cursor| c.position)
                == crate::cursor::dedup_positions(
                Seq::new(
                    old(self).cursors.cursors@.len(),
                    |i: int|
                        single_edit_target(
                            old(self).cursors.cursors@[i].position,
                            start,
                            end,
                            insert@.len() as usize,
                        ),
                ),
            ),
            final(self).cursors.spec_primary().position == single_edit_target(
                old(self).cursors.spec_primary().position,
                start,
                end,
                insert@.len() as usize,
            ),
            final(self).config == old(self).config,
    {
        let ghost buf0 = self.buffer@;
        let ghost cs0 = self.cursors.cursors@;
        let len0 = self.buffer.len();
        let ilen = insert.len();
        let n = self.cursors.count();
        let cursors_before = self.cursors.snapshot();
        let removed = self.buffer.slice_bytes(start, end);
        let op = EditOp { start, removed, inserted: slice_to_vec(insert) };
        proof {
            assert(op_applies(buf0, op@));
        }
        apply_edit_op(&mut self.buffer, &op);
        let mut ops: Vec<EditOp> = Vec::new();
        ops.push(op);
        proof {
            assert(ops_model(ops@) =~= Seq::<OpModel>::empty().push(ops@[0]@));
            lemma_apply_snoc(buf0, Seq::<OpModel>::empty(), ops@[0]@);
            assert(apply_ops(buf0, Seq::<OpModel>::empty()) == buf0);
            assert(ops_apply(buf0, Seq::<OpModel>::empty()));
            assert(ops_apply(buf0, ops_model(ops@)));
            assert(self.buffer@ == apply_ops(buf0, ops_model(ops@)));
        }
        let new_len = self.buffer.len();
        let mut newpos: Vec<Cursor> = Vec::new();
        let mut j: usize = 0;
        while j < n
            invariant
                j <= n,
                n == cs0.len(),
                len0 == buf0.len(),
                start <= end <= len0,
                new_len == len0 - (end - start) + ilen,
                ilen == insert@.len(),
                self.cursors.cursors@ == cs0,
                self.cursors.primary < n,
                forall|x: int| 0 <= x < n ==> cs0[x].position <= len0,
                forall|x: int, y: int| 0 <= x < y < n ==> cs0[x].position < cs0[y].position,
                newpos@.len() == j,
                forall|k: int|
                    #![trigger newpos@[k]]
                    0 <= k < j ==> newpos@[k].anchor is None && newpos@[k].position
                        == single_edit_target(cs0[k].position, start, end, ilen),
            decreases n - j,
        {
            let c = self.cursors.cursors[j];
            let np: usize = if c.position <= start {
                c.position
            } else if c.position >= end {
                c.position - (end - start) + ilen
            } else {
                start + ilen
            };
            newpos.push(Cursor { id: c.id, position: np, anchor: None });
            j = j + 1;
        }
        proof {
            assert forall|x: int, y: int|
                0 <= x <= y < n implies newpos@[x].position <= newpos@[y].position by {
                assert(cs0[x].position <= cs0[y].position);
            }
        }
        self.cursors.rebuild(&newpos, new_len);
        proof {
            assert(newpos@.map_values(|c: Cursor| c.position) =~= Seq::new(
                n as nat,
                |i: int| single_edit_target(cs0[i].position, start, end, ilen),
            ));
        }
        self.commit_transaction(ops, cursors_before, Ghost(buf0));
    }

    /// Deletes from the start of the word before every cursor up to the
    /// cursor — first any separators, then the word itself — as one atomic
    /// transaction, highest offset first; a deletion is clamped at the
    /// previous cursor so simultaneous deletions stay disjoint. Cursors
    /// that land on the same position collapse. Does nothing when no cursor
    /// has anything before it.
    #[verifier::rlimit(100)]
    #[verifier::spinoff_prover]
    pub fn delete_word_backward(&mut self)
        requires
            old(self).wf(),
        ensures
            final(self).wf(),
            final(self).config == old(self).config,
            ({
                let s = old(self).buffer@;
                let cs0 = old(self).cursors.cursors@;
                let n = cs0.len() as int;
                &&& cs0[n - 1].position == 0 ==> final(self).buffer@ == s && same_cursors(
                    final(self).cursors,
                    old(self).cursors,
                ) && final(self).undo_stack@ == old(self).undo_stack@
                &&& cs0[n - 1].position > 0 ==> ({
                    let t = final(self).undo_stack@.last();
                    &&& final(self).undo_stack@.len() == old(self).undo_stack@.len() + 1
                    &&& final(self).undo_stack@.drop_last() == old(self).undo_stack@
                    &&& final(self).redo_stack@.len() == 0
                    &&& same_cursors(t.cursors_before, old(self).cursors)
                    &&& same_cursors(t.cursors_after, final(self).cursors)
                    &&& t.ops@.len() == n
                    &&& forall|k: int|
                        #![auto]
                        0 <= k < n ==> t.ops@[k]@ == (OpModel {
                            start: word_ws(s, cs0, n - 1 - k),
                            removed: s.subrange(
                                word_ws(s, cs0, n - 1 - k),
                                cs0[n - 1 - k].position as int,
                            ),
                            inserted: Seq::<u8>::empty(),
                        })
                    &&& ops_apply(s, ops_model(t.ops@))
                    &&& final(self).buffer@ == apply_ops(s, ops_model(t.ops@))
                    &&& final(self).cursors.cursors@.map_values(|c: Cursor| c.position)
                        == crate::cursor::dedup_positions(
                        Seq::new(
                            n as nat,
                            |i: int|
                                (word_ws(s, cs0, i) - word_removed_below(s, cs0, i)) as usize,
                        ),
                    )
                    &&& final(self).primary_visible()
                })
            }),
    {
        let ghost buf0 = self.buffer@;
        let ghost cs0 = self.cursors.cursors@;
        let len0 = self.buffer.len();
        let n = self.cursors.count();
        let last_pos = self.cursors.cursors[n - 1].position;
        if last_pos == 0 {
            // Positions are strictly increasing, so this is a single cursor
            // at the buffer's start: nothing to delete anywhere.
            return ;
        }
        let cursors_before = self.cursors.snapshot();
        // Each cursor's clamped deletion start, lowest cursor first.
        let mut wsv: Vec<usize> = Vec::new();
        let mut j: usize = 0;
        while j < n
            invariant
                j <= n,
                n == cs0.len(),
                len0 == buf0.len(),
                self.buffer@ == buf0,
                self.cursors.cursors@ == cs0,
                self.cursors.wf(buf0.len()),
                wsv@.len() == j,
                forall|k: int| #![trigger wsv@[k]] 0 <= k < j ==> wsv@[k] == word_ws(buf0, cs0, k),
            decreases n - j,
        {
            let c = self.cursors.cursors[j];
            let raw = word_start_exec(self.buffer.as_bytes().as_slice(), c.position);
            let prev: usize = if j > 0 {
                self.cursors.cursors[j - 1].position
            } else {
                0
            };
            let ws = if prev > raw {
                prev
            } else {
                raw
            };
            wsv.push(ws);
            j = j + 1;
        }
        // Apply one deletion per cursor, highest offset first.
        let mut ops: Vec<EditOp> = Vec::new();
        let mut i: usize = n;
        while i > 0
            invariant
                i <= n,
                n == cs0.len(),
                n >= 1,
                len0 == buf0.len(),
                self.cursors == old(self).cursors,
                self.cursors.cursors@ == cs0,
                self.cursors.wf(buf0.len()),
                wsv@.len() == n,
                forall|k: int| #![trigger wsv@[k]] 0 <= k < n ==> wsv@[k] == word_ws(buf0, cs0, k),
                ops@.len() == n - i,
                forall|k: int|
                    #![auto]
                    0 <= k < n - i ==> ops@[k]@ == (OpModel {
                        start: word_ws(buf0, cs0, n - 1 - k),
                        removed: buf0.subrange(
                            word_ws(buf0, cs0, n - 1 - k),
                            cs0[n - 1 - k].position as int,
                        ),
                        inserted: Seq::<u8>::empty(),
                    }),
                ops_apply(buf0, ops_model(ops@)),
                self.buffer@ == apply_ops(buf0, ops_model(ops@)),
                self.buffer@.len() == len0 - (word_removed_below(buf0, cs0, n as int)
                    - word_removed_below(buf0, cs0, i as int)),
                self.buffer@.take(if i < n {
                    word_ws(buf0, cs0, i as int)
                } else {
                    len0 as int
                }) == buf0.take(if i < n {
                    word_ws(buf0, cs0, i as int)
                } else {
                    len0 as int
                }),
                self.undo_stack@ == old(self).undo_stack@,
                self.redo_stack@ == old(self).redo_stack@,
                self.config == old(self).config,
                self.scroll == old(self).scroll,
            decreases i,
        {
            i = i - 1;
            let pos = self.cursors.cursors[i].position;
            let wsi = wsv[i];
            let ghost cut: int = if i + 1 < n {
                word_ws(buf0, cs0, i as int + 1)
            } else {
                len0 as int
            };
            proof {
                lemma_word_ws_facts(buf0, cs0, i as int);
                if i + 1 < n {
                    lemma_word_ws_facts(buf0, cs0, i as int + 1);
                    lemma_word_removed_above(buf0, cs0, i as int + 1);
                }
                lemma_word_removed_below_le(buf0, cs0, i as int + 1);
                assert(pos <= self.buffer@.len());
                assert(pos as int <= cut);
                assert(self.buffer@.take(cut) == buf0.take(cut));
                assert forall|q: int| wsi <= q < pos implies self.buffer@[q] == buf0[q] by {
                    assert(self.buffer@.take(cut)[q] == buf0.take(cut)[q]);
                }
            }
            let removed = self.buffer.slice_bytes(wsi, pos);
            proof {
                assert(removed@ =~= buf0.subrange(wsi as int, pos as int));
            }
            let op = EditOp { start: wsi, removed, inserted: Vec::new() };
            let ghost ops_old = ops@;
            let ghost buf_before = self.buffer@;
            proof {
                assert(op_applies(self.buffer@, op@));
            }
            apply_edit_op(&mut self.buffer, &op);
            ops.push(op);
            proof {
                assert(ops_model(ops@) =~= ops_model(ops_old).push(op@));
                lemma_apply_snoc(buf0, ops_model(ops_old), op@);
                assert(self.buffer@.take(wsi as int) =~= buf_before.take(wsi as int));
                assert forall|q: int| 0 <= q < wsi implies buf_before[q] == buf0[q] by {
                    assert(buf_before.take(cut)[q] == buf0.take(cut)[q]);
                }
                assert(buf_before.take(wsi as int) =~= buf0.take(wsi as int));
            }
        }
        // Each cursor lands at its deletion start, shifted down by the
        // lower deletions.
        let new_len = self.buffer.len();
        let mut newpos: Vec<Cursor> = Vec::new();
        let mut shift: usize = 0;
        let mut j2: usize = 0;
        while j2 < n
            invariant
                j2 <= n,
                n == cs0.len(),
                len0 == buf0.len(),
                self.cursors.cursors@ == cs0,
                self.cursors.primary < n,
                forall|x: int, y: int| 0 <= x < y < n ==> cs0[x].position < cs0[y].position,
                forall|x: int| 0 <= x < n ==> cs0[x].position <= len0,
                wsv@.len() == n,
                forall|k: int| #![trigger wsv@[k]] 0 <= k < n ==> wsv@[k] == word_ws(buf0, cs0, k),
                new_len == len0 - word_removed_below(buf0, cs0, n as int),
                shift == word_removed_below(buf0, cs0, j2 as int),
                newpos@.len() == j2,
                forall|k: int|
                    #![trigger newpos@[k]]
                    0 <= k < j2 ==> newpos@[k].anchor is None && newpos@[k].position == word_ws(
                        buf0,
                        cs0,
                        k,
                    ) - word_removed_below(buf0, cs0, k),
            decreases n - j2,
        {
            let c = self.cursors.cursors[j2];
            let wsj = wsv[j2];
            proof {
                lemma_word_ws_facts(buf0, cs0, j2 as int);
                lemma_word_removed_below_le(buf0, cs0, j2 as int);
            }
            let np = wsj - shift;
            newpos.push(Cursor { id: c.id, position: np, anchor: None });
            shift = shift + (c.position - wsj);
            j2 = j2 + 1;
        }
        proof {
            assert forall|x: int, y: int|
                0 <= x <= y < n implies newpos@[x].position <= newpos@[y].position by {
                lemma_word_target_monotone(buf0, cs0, x, y);
            }
            assert forall|x: int| 0 <= x < n implies newpos@[x].position <= new_len by {
                lemma_word_removed_above(buf0, cs0, x);
                lemma_word_removed_below_le(buf0, cs0, x);
            }
        }
        self.cursors.rebuild(&newpos, new_len);
        proof {
            assert(newpos@.map_values(|c: Cursor| c.position) =~= Seq::new(
                n as nat,
                |i: int| (word_ws(buf0, cs0, i) - word_removed_below(buf0, cs0, i)) as usize,
            ));
        }
        self.commit_transaction(ops, cursors_before, Ghost(buf0));
    }

    /// Switches line wrapping on or off. This never changes the logical
    /// buffer content, the cursors or the history — only the visual layout;
    /// switching wrapping on resets the horizontal scroll to zero for good.
    pub fn set_wrap_enabled(&mut self, enabled: bool)
        requires
            old(self).wf(),
        ensures
            final(self).wf(),
            final(self).buffer@ == old(self).buffer@,
            final(self).cursors == old(self).cursors,
            final(self).undo_stack@ == old(self).undo_stack@,
            final(self).redo_stack@ == old(self).redo_stack@,
            final(self).config.wrap_enabled == enabled,
            final(self).config.width == old(self).config.width,
            final(self).config.tab_width == old(self).config.tab_width,
            enabled ==> final(self).scroll.h_offset == 0,
    {
        self.config.wrap_enabled = enabled;
        if enabled {
            self.scroll.reset_horizontal();
        }
    }
}

/// Executable test for a word separator.
pub fn is_word_sep_exec(b: u8) -> (r: bool)
    ensures
        r == is_word_sep(b),
{
    b == 32 || b == 9 || b == 10 || b == 13
}

/// The clamped deletion start of cursor `i`'s backward word deletion in an
/// ordered cursor list: its word start, clamped at the previous cursor's
/// position so that simultaneous word deletions stay disjoint.
pub open spec fn word_ws(s: Seq<u8>, cs: Seq<Cursor>, i: int) -> int {
    let raw = word_start_of(s, cs[i].position as int);
    if i > 0 && cs[i - 1].position > raw {
        cs[i - 1].position as int
    } else {
        raw
    }
}

/// Total bytes removed by the word deletions of the cursors below `i`.
pub open spec fn word_removed_below(s: Seq<u8>, cs: Seq<Cursor>, i: int) -> int
    decreases i,
{
    if i <= 0 {
        0
    } else {
        word_removed_below(s, cs, i - 1) + (cs[i - 1].position - word_ws(s, cs, i - 1))
    }
}

/// The backward scans stay within `[0, p]`.
proof fn lemma_skip_back_bounds(s: Seq<u8>, p: int)
    requires
        0 <= p,
    ensures
        0 <= skip_sep_back(s, p) <= p,
        0 <= skip_word_back(s, p) <= p,
    decreases p,
{
    if p > 0 {
        lemma_skip_back_bounds(s, p - 1);
    }
}

/// A backward word deletion from a positive position removes at least one
/// byte: its start lies strictly before the position.
pub proof fn lemma_word_start_bounds(s: Seq<u8>, p: int)
    requires
        0 <= p,
    ensures
        0 <= word_start_of(s, p) <= p,
        p > 0 ==> word_start_of(s, p) < p,
{
    lemma_skip_back_bounds(s, p);
    let q = skip_sep_back(s, p);
    lemma_skip_back_bounds(s, q);
    if p > 0 {
        if is_word_sep(s[p - 1]) {
            assert(skip_sep_back(s, p) == skip_sep_back(s, p - 1));
            lemma_skip_back_bounds(s, p - 1);
        } else {
            assert(q == p);
            assert(skip_word_back(s, p) == skip_word_back(s, p - 1));
            lemma_skip_back_bounds(s, p - 1);
        }
    }
}

/// The clamped deletion starts of an ordered cursor list stay between the
/// previous cursor and their own cursor, strictly below it when it can
/// delete at all.
proof fn lemma_word_ws_facts(s: Seq<u8>, cs: Seq<Cursor>, i: int)
    requires
        0 <= i < cs.len(),
        forall|x: int, y: int| 0 <= x < y < cs.len() ==> cs[x].position < cs[y].position,
        forall|x: int| 0 <= x < cs.len() ==> cs[x].position <= s.len(),
    ensures
        0 <= word_ws(s, cs, i) <= cs[i].position,
        cs[i].position > 0 ==> word_ws(s, cs, i) < cs[i].position,
        i > 0 ==> word_ws(s, cs, i) >= cs[i - 1].position,
{
    lemma_word_start_bounds(s, cs[i].position as int);
}

/// Lower word deletions fit below a cursor's own deletion start.
proof fn lemma_word_removed_below_le(s: Seq<u8>, cs: Seq<Cursor>, i: int)
    requires
        0 <= i <= cs.len(),
        forall|x: int, y: int| 0 <= x < y < cs.len() ==> cs[x].position < cs[y].position,
        forall|x: int| 0 <= x < cs.len() ==> cs[x].position <= s.len(),
    ensures
        0 <= word_removed_below(s, cs, i),
        i < cs.len() ==> word_removed_below(s, cs, i) <= word_ws(s, cs, i),
        i > 0 ==> word_removed_below(s, cs, i) <= cs[i - 1].position,
    decreases i,
{
    if i > 0 {
        lemma_word_removed_below_le(s, cs, i - 1);
        lemma_word_ws_facts(s, cs, i - 1);
        if i < cs.len() {
            lemma_word_ws_facts(s, cs, i);
        }
    } else if i < cs.len() {
        lemma_word_ws_facts(s, cs, i);
    }
}

/// What the word deletions at and above cursor `i` remove fits above its
/// own deletion start.
proof fn lemma_word_removed_above(s: Seq<u8>, cs: Seq<Cursor>, i: int)
    requires
        0 <= i < cs.len(),
        forall|x: int, y: int| 0 <= x < y < cs.len() ==> cs[x].position < cs[y].position,
        forall|x: int| 0 <= x < cs.len() ==> cs[x].position <= s.len(),
    ensures
        word_removed_below(s, cs, cs.len() as int) - word_removed_below(s, cs, i) <= s.len()
            - word_ws(s, cs, i),
    decreases cs.len() - i,
{
    lemma_word_ws_facts(s, cs, i);
    if i < cs.len() - 1 {
        lemma_word_removed_above(s, cs, i + 1);
        lemma_word_ws_facts(s, cs, i + 1);
    }
}

/// The cursor landing positions of a simultaneous word deletion are
/// non-decreasing.
proof fn lemma_word_target_monotone(s: Seq<u8>, cs: Seq<Cursor>, x: int, y: int)
    requires
        0 <= x <= y < cs.len(),
        forall|a: int, b: int| 0 <= a < b < cs.len() ==> cs[a].position < cs[b].position,
        forall|a: int| 0 <= a < cs.len() ==> cs[a].position <= s.len(),
    ensures
        word_ws(s, cs, x) - word_removed_below(s, cs, x) <= word_ws(s, cs, y)
            - word_removed_below(s, cs, y),
    decreases y - x,
{
    if x < y {
        lemma_word_target_monotone(s, cs, x, y - 1);
        lemma_word_ws_facts(s, cs, y);
        lemma_word_ws_facts(s, cs, y - 1);
    }
}

/// Finds the start of the word before `p`: scans back over separators,
/// then over the word itself.
pub fn word_start_exec(text: &[u8], p: usize) -> (r: usize)
    requires
        p <= text@.len(),
    ensures
        r == word_start_of(text@, p as int),
        r <= p,
{
    let mut q: usize = p;
    while q > 0 && is_word_sep_exec(text[q - 1])
        invariant
            q <= p <= text@.len(),
            skip_sep_back(text@, p as int) == skip_sep_back(text@, q as int),
        decreases q,
    {
        q = q - 1;
    }
    proof {
        assert(skip_sep_back(text@, q as int) == q as int);
    }
    let mut ws: usize = q;
    while ws > 0 && !is_word_sep_exec(text[ws - 1])
        invariant
            ws <= q <= text@.len(),
            skip_word_back(text@, q as int) == skip_word_back(text@, ws as int),
        decreases ws,
    {
        ws = ws - 1;
    }
    proof {
        assert(skip_word_back(text@, ws as int) == ws as int);
    }
    ws
}

/// Where a byte position lands after one replace-range edit: positions at or
/// before the edit stay, positions past it shift by the length delta, and a
/// position inside the replaced range lands just after the inserted text.
pub open spec fn single_edit_target(p: usize, start: usize, end: usize, ilen: usize) -> usize
    recommends
        start <= end,
{
    if p <= start {
        p
    } else if p >= end {
        ((p - (end - start)) + ilen) as usize
    } else {
        (start + ilen) as usize
    }
}

impl Editor {
    /// Moves every cursor one byte left (clamped at 0). With `select`, the
    /// selection anchor is kept or started at the old position; without it,
    /// selections are cleared. Cursors that collide collapse.
    pub fn move_left(&mut self, select: bool)
        requires
            old(self).wf(),
        ensures
            final(self).wf(),
            final(self).primary_visible(),
            final(self).buffer@ == old(self).buffer@,
            final(self).undo_stack@ == old(self).undo_stack@,
            final(self).redo_stack@ == old(self).redo_stack@,
            final(self).config == old(self).config,
            final(self).cursors.spec_primary().position == if old(
                self,
            ).cursors.spec_primary().position == 0 {
                0
            } else {
                old(self).cursors.spec_primary().position - 1
            },
            ({
                let cs0 = old(self).cursors.cursors@;
                let mapped = Seq::new(
                    cs0.len(),
                    |i: int|
                        moved_cursor(
                            cs0[i],
                            if cs0[i].position == 0 {
                                0
                            } else {
                                (cs0[i].position - 1) as usize
                            },
                            select,
                        ),
                );
                (forall|x: int, y: int|
                    0 <= x < y < mapped.len() ==> mapped[x].position < mapped[y].position)
                    ==> final(self).cursors.cursors@ == mapped
            }),
    {
        let ghost cs0 = self.cursors.cursors@;
        let n = self.cursors.count();
        let len = self.buffer.len();
        let mut newcs: Vec<Cursor> = Vec::new();
        let mut j: usize = 0;
        while j < n
            invariant
                j <= n,
                n == cs0.len(),
                self.cursors.cursors@ == cs0,
                self.cursors.primary < n,
                len == self.buffer@.len(),
                self.cursors.wf(len as nat),
                newcs@.len() == j,
                forall|k: int|
                    #![trigger newcs@[k]]
                    0 <= k < j ==> newcs@[k] == moved_cursor(
                        cs0[k],
                        if cs0[k].position == 0 {
                            0
                        } else {
                            (cs0[k].position - 1) as usize
                        },
                        select,
                    ),
            decreases n - j,
        {
            let c = self.cursors.cursors[j];
            let np: usize = if c.position == 0 {
                0
            } else {
                c.position - 1
            };
            let anchor: Option<usize> = if select {
                match c.anchor {
                    Some(a) => Some(a),
                    None => Some(c.position),
                }
            } else {
                None
            };
            newcs.push(Cursor { id: c.id, position: np, anchor });
            j = j + 1;
        }
        proof {
            assert(newcs@ =~= Seq::new(
                cs0.len(),
                |i: int|
                    moved_cursor(
                        cs0[i],
                        if cs0[i].position == 0 {
                            0
                        } else {
                            (cs0[i].position - 1) as usize
                        },
                        select,
                    ),
            ));
        }
        self.cursors.rebuild(&newcs, len);
        self.sync_scroll();
    }

    /// Moves every cursor one byte right (clamped at the buffer's end);
    /// selection handling as in `move_left`.
    pub fn move_right(&mut self, select: bool)
        requires
            old(self).wf(),
        ensures
            final(self).wf(),
            final(self).primary_visible(),
            final(self).buffer@ == old(self).buffer@,
            final(self).undo_stack@ == old(self).undo_stack@,
            final(self).redo_stack@ == old(self).redo_stack@,
            final(self).config == old(self).config,
            final(self).cursors.spec_primary().position == if old(self).cursors.spec_primary().position
                >= old(self).buffer@.len() {
                old(self).buffer@.len() as int
            } else {
                old(self).cursors.spec_primary().position + 1
            },
            ({
                let cs0 = old(self).cursors.cursors@;
                let len = old(self).buffer@.len() as usize;
                let mapped = Seq::new(
                    cs0.len(),
                    |i: int|
                        moved_cursor(
                            cs0[i],
                            if cs0[i].position >= len {
                                len
                            } else {
                                (cs0[i].position + 1) as usize
                            },
                            select,
                        ),
                );
                (forall|x: int, y: int|
                    0 <= x < y < mapped.len() ==> mapped[x].position < mapped[y].position)
                    ==> final(self).cursors.cursors@ == mapped
            }),
    {
        let ghost cs0 = self.cursors.cursors@;
        let n = self.cursors.count();
        let len = self.buffer.len();
        let mut newcs: Vec<Cursor> = Vec::new();
        let mut j: usize = 0;
        while j < n
            invariant
                j <= n,
                n == cs0.len(),
                self.cursors.cursors@ == cs0,
                self.cursors.primary < n,
                len == self.buffer@.len(),
                self.cursors.wf(len as nat),
                newcs@.len() == j,
                forall|k: int|
                    #![trigger newcs@[k]]
                    0 <= k < j ==> newcs@[k] == moved_cursor(
                        cs0[k],
                        if cs0[k].position >= len {
                            len
                        } else {
                            (cs0[k].position + 1) as usize
                        },
                        select,
                    ),
            decreases n - j,
        {
            let c = self.cursors.cursors[j];
            let np: usize = if c.position >= len {
                len
            } else {
                c.position + 1
            };
            let anchor: Option<usize> = if select {
                match c.anchor {
                    Some(a) => Some(a),
                    None => Some(c.position),
                }
            } else {
                None
            };
            newcs.push(Cursor { id: c.id, position: np, anchor });
            j = j + 1;
        }
        proof {
            assert(newcs@ =~= Seq::new(
                cs0.len(),
                |i: int|
                    moved_cursor(
                        cs0[i],
                        if cs0[i].position >= len {
                            len
                        } else {
                            (cs0[i].position + 1) as usize
                        },
                        select,
                    ),
            ));
        }
        self.cursors.rebuild(&newcs, len);
        self.sync_scroll();
    }

    /// Moves every cursor to the start of its logical line. Home always
    /// lands on the logical line start, independent of which visual row of a
    /// wrapped line the cursor started on.
    pub fn move_home(&mut self, select: bool)
        requires
            old(self).wf(),
        ensures
            final(self).wf(),
            final(self).primary_visible(),
            final(self).buffer@ == old(self).buffer@,
            final(self).undo_stack@ == old(self).undo_stack@,
            final(self).redo_stack@ == old(self).redo_stack@,
            final(self).config == old(self).config,
            final(self).cursors.spec_primary().position == line_start_of(
                old(self).buffer@,
                old(self).cursors.spec_primary().position as int,
            ),
    {
        let ghost cs0 = self.cursors.cursors@;
        let ghost buf = self.buffer@;
        let n = self.cursors.count();
        let len = self.buffer.len();
        let mut newcs: Vec<Cursor> = Vec::new();
        let mut j: usize = 0;
        while j < n
            invariant
                j <= n,
                n == cs0.len(),
                self.cursors.cursors@ == cs0,
                self.cursors.primary < n,
                buf == self.buffer@,
                len == buf.len(),
                self.cursors.wf(len as nat),
                newcs@.len() == j,
                forall|k: int|
                    #![trigger newcs@[k]]
                    0 <= k < j ==> newcs@[k].position == line_start_of(buf, cs0[k].position as int)
                        && newcs@[k].id == cs0[k].id && newcs@[k].anchor == moved_cursor(
                        cs0[k],
                        0,
                        select,
                    ).anchor,
            decreases n - j,
        {
            let c = self.cursors.cursors[j];
            let np = line_start_exec(self.buffer.as_bytes().as_slice(), c.position);
            proof {
                lemma_line_start_of(buf, c.position as int);
            }
            let anchor: Option<usize> = if select {
                match c.anchor {
                    Some(a) => Some(a),
                    None => Some(c.position),
                }
            } else {
                None
            };
            newcs.push(Cursor { id: c.id, position: np, anchor });
            j = j + 1;
        }
        proof {
            assert forall|x: int, y: int|
                0 <= x <= y < n implies newcs@[x].position <= newcs@[y].position by {
                lemma_line_start_monotone(buf, cs0[x].position as int, cs0[y].position as int);
            }
            assert forall|x: int| 0 <= x < n implies newcs@[x].position <= len by {
                lemma_line_start_of(buf, cs0[x].position as int);
            }
        }
        self.cursors.rebuild(&newcs, len);
        self.sync_scroll();
    }

    /// Moves every cursor to the end of its logical line (the last byte
    /// before the terminator). End always lands on the logical line end,
    /// independent of which visual row the cursor started on; with wrapping
    /// enabled this never scrolls horizontally, only vertically.
    pub fn move_end(&mut self, select: bool)
        requires
            old(self).wf(),
        ensures
            final(self).wf(),
            final(self).primary_visible(),
            final(self).buffer@ == old(self).buffer@,
            final(self).undo_stack@ == old(self).undo_stack@,
            final(self).redo_stack@ == old(self).redo_stack@,
            final(self).config == old(self).config,
            final(self).cursors.spec_primary().position == line_end_of(
                old(self).buffer@,
                old(self).cursors.spec_primary().position as int,
            ),
            final(self).config.wrap_enabled ==> final(self).scroll.h_offset == 0,
    {
        let ghost cs0 = self.cursors.cursors@;
        let ghost buf = self.buffer@;
        let n = self.cursors.count();
        let len = self.buffer.len();
        let mut newcs: Vec<Cursor> = Vec::new();
        let mut j: usize = 0;
        while j < n
            invariant
                j <= n,
                n == cs0.len(),
                self.cursors.cursors@ == cs0,
                self.cursors.primary < n,
                buf == self.buffer@,
                len == buf.len(),
                self.cursors.wf(len as nat),
                newcs@.len() == j,
                forall|k: int|
                    #![trigger newcs@[k]]
                    0 <= k < j ==> newcs@[k].position == line_end_of(buf, cs0[k].position as int)
                        && newcs@[k].id == cs0[k].id && newcs@[k].anchor == moved_cursor(
                        cs0[k],
                        0,
                        select,
                    ).anchor,
            decreases n - j,
        {
            let c = self.cursors.cursors[j];
            let np = line_end_exec(self.buffer.as_bytes().as_slice(), c.position);
            proof {
                lemma_line_end_of(buf, c.position as int);
            }
            let anchor: Option<usize> = if select {
                match c.anchor {
                    Some(a) => Some(a),
                    None => Some(c.position),
                }
            } else {
                None
            };
            newcs.push(Cursor { id: c.id, position: np, anchor });
            j = j + 1;
        }
        proof {
            assert forall|x: int, y: int|
                0 <= x <= y < n implies newcs@[x].position <= newcs@[y].position by {
                lemma_line_end_monotone(buf, cs0[x].position as int, cs0[y].position as int);
            }
            assert forall|x: int| 0 <= x < n implies newcs@[x].position <= len by {
                lemma_line_end_of(buf, cs0[x].position as int);
            }
        }
        self.cursors.rebuild(&newcs, len);
        self.sync_scroll();
    }

    /// Collapses to a single cursor at the buffer's start.
    pub fn move_to_buffer_start(&mut self)
        requires
            old(self).wf(),
        ensures
            final(self).wf(),
            final(self).primary_visible(),
            final(self).buffer@ == old(self).buffer@,
            final(self).undo_stack@ == old(self).undo_stack@,
            final(self).redo_stack@ == old(self).redo_stack@,
            final(self).config == old(self).config,
            final(self).cursors.cursors@.len() == 1,
            final(self).cursors.spec_primary().position == 0,
    {
        let ghost cs0 = self.cursors.cursors@;
        let n = self.cursors.count();
        let len = self.buffer.len();
        let mut newcs: Vec<Cursor> = Vec::new();
        let mut j: usize = 0;
        while j < n
            invariant
                j <= n,
                n == cs0.len(),
                self.cursors.cursors@ == cs0,
                self.cursors.primary < n,
                len == self.buffer@.len(),
                self.cursors.wf(len as nat),
                newcs@.len() == j,
                forall|k: int|
                    #![trigger newcs@[k]]
                    0 <= k < j ==> newcs@[k].position == 0 && newcs@[k].anchor is None,
            decreases n - j,
        {
            let c = self.cursors.cursors[j];
            newcs.push(Cursor { id: c.id, position: 0, anchor: None });
            j = j + 1;
        }
        self.cursors.rebuild(&newcs, len);
        proof {
            let pmap = newcs@.map_values(|c: Cursor| c.position);
            lemma_dedup_all_equal(pmap);
        }
        self.sync_scroll();
    }

    /// Collapses to a single cursor at the buffer's end.
    pub fn move_to_buffer_end(&mut self)
        requires
            old(self).wf(),
        ensures
            final(self).wf(),
            final(self).primary_visible(),
            final(self).buffer@ == old(self).buffer@,
            final(self).undo_stack@ == old(self).undo_stack@,
            final(self).redo_stack@ == old(self).redo_stack@,
            final(self).config == old(self).config,
            final(self).cursors.cursors@.len() == 1,
            final(self).cursors.spec_primary().position == old(self).buffer@.len(),
    {
        let ghost cs0 = self.cursors.cursors@;
        let n = self.cursors.count();
        let len = self.buffer.len();
        let mut newcs: Vec<Cursor> = Vec::new();
        let mut j: usize = 0;
        while j < n
            invariant
                j <= n,
                n == cs0.len(),
                self.cursors.cursors@ == cs0,
                self.cursors.primary < n,
                len == self.buffer@.len(),
                self.cursors.wf(len as nat),
                newcs@.len() == j,
                forall|k: int|
                    #![trigger newcs@[k]]
                    0 <= k < j ==> newcs@[k].position == len && newcs@[k].anchor is None,
            decreases n - j,
        {
            let c = self.cursors.cursors[j];
            newcs.push(Cursor { id: c.id, position: len, anchor: None });
            j = j + 1;
        }
        self.cursors.rebuild(&newcs, len);
        proof {
            let pmap = newcs@.map_values(|c: Cursor| c.position);
            lemma_dedup_all_equal(pmap);
        }
        self.sync_scroll();
    }
}

/// A constant non-empty position sequence collapses to a single entry.
pub proof fn lemma_dedup_all_equal(v: Seq<usize>)
    requires
        v.len() >= 1,
        forall|i: int, j: int| 0 <= i < v.len() && 0 <= j < v.len() ==> v[i] == v[j],
    ensures
        crate::cursor::dedup_positions(v).len() == 1,
    decreases v.len(),
{
    if v.len() > 1 {
        lemma_dedup_all_equal(v.drop_last());
        assert(crate::cursor::dedup_positions(v.drop_last()).len() == 1);
        crate::cursor::lemma_dedup_last(v.drop_last());
        assert(v.drop_last().last() == v.last());
        assert(crate::cursor::dedup_positions(v) == crate::cursor::dedup_positions(
            v.drop_last(),
        ));
    } else {
        assert(v.drop_last() =~= Seq::<usize>::empty());
        assert(crate::cursor::dedup_positions(v.drop_last()) =~= Seq::<usize>::empty());
    }
}

/// The byte offset one visual row below (or above) `pos`, at the same
/// display column where possible, clamped by the cell-to-offset rounding
/// rule. Crossing from the last row of a wrapped logical line continues on
/// the first row of the next logical line (mirrored upward); at the
/// buffer's edges the position stays put.
#[verifier::opaque]
pub open spec fn spec_vertical_target(s: Seq<u8>, pos: int, down: bool, width: nat, tab: nat) -> int {
    let ls = line_start_of(s, pos);
    let le = line_end_of(s, pos);
    let line = s.subrange(ls, le);
    let rows = wrap_rows(line, width, tab);
    let ri = row_index_of(rows, pos - ls);
    let col = width_sum(line, rows[ri].0, pos - ls, tab) as int;
    if down {
        if ri + 1 < rows.len() {
            ls + col_to_offset(line, ri + 1, col, width, tab)
        } else if le < s.len() {
            let nls = le + 1;
            let nle = line_end_of(s, nls);
            nls + col_to_offset(s.subrange(nls, nle), 0, col, width, tab)
        } else {
            pos
        }
    } else {
        if ri > 0 {
            ls + col_to_offset(line, ri - 1, col, width, tab)
        } else if ls > 0 {
            let ple = ls - 1;
            let pls = line_start_of(s, ple);
            let pline = s.subrange(pls, ple);
            pls + col_to_offset(pline, wrap_rows(pline, width, tab).len() - 1, col, width, tab)
        } else {
            pos
        }
    }
}

/// The vertical-movement targets of a cursor list, one per cursor.
pub open spec fn vertical_targets(
    s: Seq<u8>,
    cs: Seq<Cursor>,
    down: bool,
    width: nat,
    tab: nat,
) -> Seq<usize> {
    Seq::new(
        cs.len(),
        |i: int| spec_vertical_target(s, cs[i].position as int, down, width, tab) as usize,
    )
}

/// The outcome of adding a cursor on the adjacent visual row: when the
/// primary cursor has an adjacent-row target, a cursor with no selection is
/// added there (merging if one already sits there), it becomes primary, and
/// one cursor-topology transaction with no edits is recorded; when the
/// target equals the primary's own position (no adjacent row), nothing
/// changes.
pub open spec fn vertical_add_post(pre: Editor, post: Editor, down: bool) -> bool {
    let tgt = spec_vertical_target(
        pre.buffer@,
        pre.cursors.spec_primary().position as int,
        down,
        pre.config.width as nat,
        pre.config.tab_width as nat,
    );
    &&& (tgt == pre.cursors.spec_primary().position ==> same_cursors(post.cursors, pre.cursors)
        && post.undo_stack@ == pre.undo_stack@ && post.redo_stack@ == pre.redo_stack@)
    &&& (tgt != pre.cursors.spec_primary().position ==> {
        &&& post.cursors.spec_primary().position == tgt
        &&& forall|p: nat|
            post.cursors.has_position(p) <==> (pre.cursors.has_position(p) || p == tgt as nat)
        &&& post.cursors.cursors@.len() == if pre.cursors.has_position(tgt as nat) {
            pre.cursors.cursors@.len()
        } else {
            pre.cursors.cursors@.len() + 1
        }
        &&& !pre.cursors.has_position(tgt as nat) ==> post.cursors.spec_primary().anchor is None
        &&& post.undo_stack@.len() == pre.undo_stack@.len() + 1
        &&& post.undo_stack@.drop_last() == pre.undo_stack@
        &&& post.redo_stack@.len() == 0
        &&& post.undo_stack@.last().ops@.len() == 0
        &&& same_cursors(post.undo_stack@.last().cursors_before, pre.cursors)
        &&& same_cursors(post.undo_stack@.last().cursors_after, post.cursors)
    })
}

impl Editor {
    /// Computes `spec_vertical_target` for this editor's layout.
    fn vertical_target(&self, pos: usize, down: bool) -> (r: usize)
        requires
            self.wf(),
            pos <= self.buffer@.len(),
        ensures
            r <= self.buffer@.len(),
            r == spec_vertical_target(
                self.buffer@,
                pos as int,
                down,
                self.config.width as nat,
                self.config.tab_width as nat,
            ),
    {
        proof {
            reveal(spec_vertical_target);
        }
        let text = self.buffer.as_bytes().as_slice();
        let n = text.len();
        let width = self.config.width;
        let tab = self.config.tab_width;
        let ls = line_start_exec(text, pos);
        let le = line_end_exec(text, pos);
        proof {
            lemma_line_start_of(text@, pos as int);
            lemma_line_end_of(text@, pos as int);
        }
        let line = slice_subrange(text, ls, le);
        proof {
            lemma_wrap_rows_structure(line@, 0, width as nat, tab as nat);
        }
        let rc = offset_to_screen(line, pos - ls, width, tab);
        let rows = wrap_line(line, width, tab);
        let nrows = rows.len();
        proof {
            crate::layout::lemma_row_index_of(
                crate::layout::wrap_rows(line@, width as nat, tab as nat),
                pos - ls,
            );
        }
        if down {
            if rc.0 + 1 < nrows {
                let off = screen_to_offset(line, rc.0 + 1, rc.1, width, tab);
                ls + off
            } else if le < n {
                let nls = le + 1;
                let nle = line_end_exec(text, nls);
                proof {
                    lemma_line_end_of(text@, nls as int);
                }
                let nline = slice_subrange(text, nls, nle);
                proof {
                    lemma_wrap_rows_structure(nline@, 0, width as nat, tab as nat);
                }
                let off = screen_to_offset(nline, 0, rc.1, width, tab);
                nls + off
            } else {
                pos
            }
        } else {
            if rc.0 > 0 {
                let off = screen_to_offset(line, rc.0 - 1, rc.1, width, tab);
                ls + off
            } else if ls > 0 {
                let ple = ls - 1;
                let pls = line_start_exec(text, ple);
                proof {
                    lemma_line_start_of(text@, ple as int);
                }
                let pline = slice_subrange(text, pls, ple);
                proof {
                    lemma_wrap_rows_structure(pline@, 0, width as nat, tab as nat);
                }
                let prows = wrap_line(pline, width, tab);
                let off = screen_to_offset(pline, prows.len() - 1, rc.1, width, tab);
                pls + off
            } else {
                pos
            }
        }
    }

    /// Moves every cursor one visual row down (or up with `down == false`),
    /// to the same display column when possible, clamped to the target
    /// row's length. A movement whose targets would reorder the cursor set
    /// leaves the set unchanged (this cannot arise from the row-by-row
    /// targets in practice); colliding cursors collapse.
    #[verifier::rlimit(100)]
    #[verifier::spinoff_prover]
    pub fn move_vertical(&mut self, down: bool, select: bool)
        requires
            old(self).wf(),
        ensures
            final(self).wf(),
            final(self).primary_visible(),
            final(self).buffer@ == old(self).buffer@,
            final(self).undo_stack@ == old(self).undo_stack@,
            final(self).redo_stack@ == old(self).redo_stack@,
            final(self).config == old(self).config,
            final(self).cursors.cursors@.len() <= old(self).cursors.cursors@.len(),
            ({
                let tgts = vertical_targets(
                    old(self).buffer@,
                    old(self).cursors.cursors@,
                    down,
                    old(self).config.width as nat,
                    old(self).config.tab_width as nat,
                );
                let ordered = forall|k: int|
                    0 <= k < tgts.len() - 1 ==> #[trigger] tgts[k] <= tgts[k + 1];
                &&& ordered ==> final(self).cursors.cursors@.map_values(|c: Cursor| c.position)
                    == crate::cursor::dedup_positions(tgts)
                    && final(self).cursors.spec_primary().position == tgts[old(
                    self,
                ).cursors.primary as int]
                &&& !ordered ==> same_cursors(final(self).cursors, old(self).cursors)
            }),
    {
        let ghost cs0 = self.cursors.cursors@;
        let ghost w = self.config.width as nat;
        let ghost t = self.config.tab_width as nat;
        let n = self.cursors.count();
        let len = self.buffer.len();
        let mut newcs: Vec<Cursor> = Vec::new();
        let mut j: usize = 0;
        while j < n
            invariant
                j <= n,
                n == cs0.len(),
                self.cursors.cursors@ == cs0,
                self.cursors.primary < n,
                len == self.buffer@.len(),
                self.wf(),
                self.cursors.wf(len as nat),
                w == self.config.width as nat,
                t == self.config.tab_width as nat,
                newcs@.len() == j,
                forall|k: int|
                    #![trigger newcs@[k]]
                    0 <= k < j ==> newcs@[k].position == spec_vertical_target(
                        self.buffer@,
                        cs0[k].position as int,
                        down,
                        w,
                        t,
                    ) && newcs@[k].position <= len && (newcs@[k].anchor is Some ==> newcs@[
                        k
                    ].anchor->0 <= len),
            decreases n - j,
        {
            let c = self.cursors.cursors[j];
            let np = self.vertical_target(c.position, down);
            let anchor: Option<usize> = if select {
                match c.anchor {
                    Some(a) => Some(a),
                    None => Some(c.position),
                }
            } else {
                None
            };
            newcs.push(Cursor { id: c.id, position: np, anchor });
            j = j + 1;
        }
        // A vertical move whose targets would reorder the set is ignored.
        let mut sorted: bool = true;
        let mut k: usize = 1;
        while k < n
            invariant
                1 <= k <= n || n == 0,
                n == newcs@.len(),
                sorted <==> forall|x: int|
                    #![trigger newcs@[x]]
                    1 <= x < k ==> newcs@[x - 1].position <= newcs@[x].position,
            decreases n - k,
        {
            if newcs[k - 1].position > newcs[k].position {
                sorted = false;
            }
            k = k + 1;
        }
        proof {
            if sorted {
                assert forall|x: int, y: int|
                    0 <= x <= y < n implies newcs@[x].position <= newcs@[y].position by {
                    lemma_adjacent_sorted(newcs@, x, y);
                }
            }
        }
        proof {
            let tgts = vertical_targets(old(self).buffer@, cs0, down, w, t);
            assert(newcs@.map_values(|c: Cursor| c.position) =~= tgts);
            assert forall|x: int| 0 <= x < n implies #[trigger] tgts[x] == newcs@[
                x
            ].position by {
                assert(newcs@.map_values(|c: Cursor| c.position)[x] == newcs@[x].position);
            }
            if !sorted {
                let x = choose|x: int|
                    1 <= x < n && !((#[trigger] newcs@[x]).position >= newcs@[x - 1].position);
                assert(tgts[x - 1] > tgts[x]);
            }
        }
        if sorted {
            self.cursors.rebuild(&newcs, len);
        }
        self.sync_scroll();
    }

    /// Drops every secondary cursor, as one undoable cursor-topology
    /// transaction (with no buffer edits). A no-op with a single cursor.
    pub fn remove_secondary(&mut self)
        requires
            old(self).wf(),
        ensures
            final(self).wf(),
            final(self).buffer@ == old(self).buffer@,
            final(self).config == old(self).config,
            old(self).cursors.cursors@.len() <= 1 ==> same_cursors(
                final(self).cursors,
                old(self).cursors,
            ) && final(self).undo_stack@ == old(self).undo_stack@,
            old(self).cursors.cursors@.len() > 1 ==> ({
                let t = final(self).undo_stack@.last();
                &&& final(self).cursors.cursors@ =~= seq![old(self).cursors.spec_primary()]
                &&& final(self).undo_stack@.len() == old(self).undo_stack@.len() + 1
                &&& final(self).undo_stack@.drop_last() == old(self).undo_stack@
                &&& final(self).redo_stack@.len() == 0
                &&& t.ops@.len() == 0
                &&& same_cursors(t.cursors_before, old(self).cursors)
                &&& same_cursors(t.cursors_after, final(self).cursors)
                &&& final(self).primary_visible()
            }),
    {
        if self.cursors.count() <= 1 {
            return ;
        }
        let ghost buf0 = self.buffer@;
        let cursors_before = self.cursors.snapshot();
        self.cursors.remove_secondary();
        let ops: Vec<EditOp> = Vec::new();
        proof {
            assert(ops_model(ops@) =~= Seq::<OpModel>::empty());
            assert(ops_apply(buf0, ops_model(ops@)));
            assert(apply_ops(buf0, ops_model(ops@)) == buf0);
        }
        self.commit_transaction(ops, cursors_before, Ghost(buf0));
    }

    /// Adds a cursor on the adjacent visual row below (or above) the
    /// primary cursor, at the primary's display column, clamped to the
    /// target row; the new cursor becomes primary, so the operation chains.
    /// Recorded as one undoable cursor-topology transaction. A no-op when
    /// there is no adjacent row.
    pub fn add_cursor_vertical(&mut self, down: bool)
        requires
            old(self).wf(),
        ensures
            final(self).wf(),
            final(self).buffer@ == old(self).buffer@,
            final(self).config == old(self).config,
            final(self).cursors.cursors@.len() <= old(self).cursors.cursors@.len() + 1,
            final(self).cursors.cursors@.len() >= old(self).cursors.cursors@.len(),
            vertical_add_post(*old(self), *final(self), down),
    {
        let p = self.cursors.primary_cursor().position;
        let target = self.vertical_target(p, down);
        if target == p {
            return ;
        }
        let ghost buf0 = self.buffer@;
        let cursors_before = self.cursors.snapshot();
        let len = self.buffer.len();
        self.cursors.add_cursor(target, None, len);
        let ops: Vec<EditOp> = Vec::new();
        proof {
            assert(ops_model(ops@) =~= Seq::<OpModel>::empty());
            assert(ops_apply(buf0, ops_model(ops@)));
            assert(apply_ops(buf0, ops_model(ops@)) == buf0);
        }
        self.commit_transaction(ops, cursors_before, Ghost(buf0));
    }

    /// `add_cursor_vertical` downward: the common chained form.
    pub fn add_cursor_below(&mut self)
        requires
            old(self).wf(),
        ensures
            final(self).wf(),
            final(self).buffer@ == old(self).buffer@,
            final(self).config == old(self).config,
            final(self).cursors.cursors@.len() <= old(self).cursors.cursors@.len() + 1,
            final(self).cursors.cursors@.len() >= old(self).cursors.cursors@.len(),
            vertical_add_post(*old(self), *final(self), true),
    {
        self.add_cursor_vertical(true);
    }

    /// `add_cursor_vertical` upward.
    pub fn add_cursor_above(&mut self)
        requires
            old(self).wf(),
        ensures
            final(self).wf(),
            final(self).buffer@ == old(self).buffer@,
            final(self).config == old(self).config,
            final(self).cursors.cursors@.len() <= old(self).cursors.cursors@.len() + 1,
            final(self).cursors.cursors@.len() >= old(self).cursors.cursors@.len(),
            vertical_add_post(*old(self), *final(self), false),
    {
        self.add_cursor_vertical(false);
    }

    /// Extends the primary selection by searching forward from its end for
    /// the next literal occurrence of the selected text, adding a new
    /// cursor with that occurrence selected and promoting it to primary.
    /// Recorded as one undoable cursor-topology transaction. A no-op when
    /// the primary cursor has no (non-empty) selection or no further
    /// occurrence exists.
    pub fn add_cursor_at_next_match(&mut self)
        requires
            old(self).wf(),
        ensures
            final(self).wf(),
            final(self).buffer@ == old(self).buffer@,
            final(self).config == old(self).config,
            ({
                let c = old(self).cursors.spec_primary();
                let lo: int = if c.anchor is Some && c.anchor->0 < c.position {
                    c.anchor->0 as int
                } else {
                    c.position as int
                };
                let hi: int = if c.anchor is Some && c.anchor->0 < c.position {
                    c.position as int
                } else if c.anchor is Some {
                    c.anchor->0 as int
                } else {
                    c.position as int
                };
                let pat = old(self).buffer@.subrange(lo, hi);
                &&& (c.anchor is None || lo == hi) ==> same_cursors(
                    final(self).cursors,
                    old(self).cursors,
                ) && final(self).undo_stack@ == old(self).undo_stack@
                &&& (c.anchor is Some && lo < hi) ==> ({
                    match crate::search::first_match(
                        old(self).buffer@,
                        pat,
                        hi,
                        old(self).buffer@.len() as int,
                    ) {
                        Option::Some(f) => {
                            &&& old(self).cursors.has_position((f + (hi - lo)) as nat)
                                ==> same_cursors(final(self).cursors, old(self).cursors)
                                && final(self).undo_stack@ == old(self).undo_stack@
                            &&& !old(self).cursors.has_position((f + (hi - lo)) as nat) ==> ({
                                &&& final(self).cursors.spec_primary().position == f + (hi - lo)
                                &&& final(self).cursors.spec_primary().anchor == Some(
                                    f as usize,
                                )
                                &&& final(self).cursors.cursors@.len() == old(
                                    self,
                                ).cursors.cursors@.len() + 1
                                &&& final(self).undo_stack@.len() == old(
                                    self,
                                ).undo_stack@.len() + 1
                            })
                        },
                        Option::None => same_cursors(final(self).cursors, old(self).cursors)
                            && final(self).undo_stack@ == old(self).undo_stack@,
                    }
                })
            }),
    {
        let c = self.cursors.primary_cursor();
        let p = c.position;
        let (lo, hi): (usize, usize) = match c.anchor {
            Some(a) => if a < p {
                (a, p)
            } else {
                (p, a)
            },
            None => {
                return ;
            },
        };
        if lo == hi {
            return ;
        }
        let len = self.buffer.len();
        let pat = self.buffer.slice_bytes(lo, hi);
        let text = self.buffer.as_bytes().as_slice();
        let found = crate::search::find_in_range(text, pat.as_slice(), hi, len);
        match found {
            Some(f) => {
                proof {
                    crate::search::lemma_first_match(
                        self.buffer@,
                        pat@,
                        hi as int,
                        len as int,
                    );
                }
                let ghost buf0 = self.buffer@;
                let cursors_before = self.cursors.snapshot();
                let plen = hi - lo;
                proof {
                    // The new cursor position lies past every existing one
                    // only sometimes; adding handles ordering, and the
                    // found occurrence starts at or after the selection
                    // end, so it cannot collide with the primary cursor's
                    // own position... it may collide with another cursor,
                    // in which case the sets merge and the count would not
                    // grow; the occurrence found lies strictly past `hi`,
                    // while every present cursor position is recorded in
                    // the snapshot.
                }
                if self.cursors_has_position(f + plen) {
                    return ;
                }
                self.cursors.add_cursor(f + plen, Some(f), len);
                let ops: Vec<EditOp> = Vec::new();
                proof {
                    assert(ops_model(ops@) =~= Seq::<OpModel>::empty());
                    assert(ops_apply(buf0, ops_model(ops@)));
                    assert(apply_ops(buf0, ops_model(ops@)) == buf0);
                }
                self.commit_transaction(ops, cursors_before, Ghost(buf0));
            },
            None => {},
        }
    }

    /// Whether some cursor already sits at byte position `p`.
    fn cursors_has_position(&self, p: usize) -> (r: bool)
        ensures
            r == self.cursors.has_position(p as nat),
    {
        let n = self.cursors.count();
        let mut i: usize = 0;
        while i < n
            invariant
                i <= n,
                n == self.cursors.cursors@.len(),
                forall|k: int| 0 <= k < i ==> self.cursors.cursors@[k].position != p,
            decreases n - i,
        {
            if self.cursors.cursors[i].position == p {
                assert(self.cursors.cursors@[i as int].position == p);
                return true;
            }
            i = i + 1;
        }
        false
    }
}

impl Editor {
    /// Collapses to a single cursor at `pos` with no selection: used for
    /// jumps such as placing the cursor on a search match. A position past
    /// the buffer clamps silently to its end.
    pub fn move_to(&mut self, pos: usize)
        requires
            old(self).wf(),
        ensures
            final(self).wf(),
            final(self).primary_visible(),
            final(self).buffer@ == old(self).buffer@,
            final(self).undo_stack@ == old(self).undo_stack@,
            final(self).redo_stack@ == old(self).redo_stack@,
            final(self).config == old(self).config,
            final(self).cursors.cursors@.len() == 1,
            final(self).cursors.spec_primary().position == if pos <= old(self).buffer@.len() {
                pos as int
            } else {
                old(self).buffer@.len() as int
            },
            final(self).cursors.spec_primary().anchor is None,
    {
        let ghost cs0 = self.cursors.cursors@;
        let n = self.cursors.count();
        let len = self.buffer.len();
        let target = if pos <= len {
            pos
        } else {
            len
        };
        let mut newcs: Vec<Cursor> = Vec::new();
        let mut j: usize = 0;
        while j < n
            invariant
                j <= n,
                n == cs0.len(),
                self.cursors.cursors@ == cs0,
                self.cursors.primary < n,
                len == self.buffer@.len(),
                target <= len,
                self.cursors.wf(len as nat),
                newcs@.len() == j,
                forall|k: int|
                    #![trigger newcs@[k]]
                    0 <= k < j ==> newcs@[k].position == target && newcs@[k].anchor is None,
            decreases n - j,
        {
            let c = self.cursors.cursors[j];
            newcs.push(Cursor { id: c.id, position: target, anchor: None });
            j = j + 1;
        }
        self.cursors.rebuild(&newcs, len);
        proof {
            let pmap = newcs@.map_values(|c: Cursor| c.position);
            lemma_dedup_all_equal(pmap);
        }
        self.sync_scroll();
    }
}

impl Editor {
    /// Handles a mouse click at viewport cell (`row`, `col`), both relative
    /// to the viewport's top-left: translates the cell through the inverse
    /// of the visible-row accounting (`buffer_cell_offset`) to a byte
    /// offset and collapses to a single cursor there. Clicks past the text
    /// clamp to the nearest position.
    pub fn click(&mut self, row: usize, col: usize)
        requires
            old(self).wf(),
        ensures
            final(self).wf(),
            final(self).primary_visible(),
            final(self).buffer@ == old(self).buffer@,
            final(self).undo_stack@ == old(self).undo_stack@,
            final(self).redo_stack@ == old(self).redo_stack@,
            final(self).config == old(self).config,
            final(self).cursors.cursors@.len() == 1,
            ({
                let arow = old(self).scroll.scroll_top + row;
                let acol: int = if old(self).config.wrap_enabled {
                    col as int
                } else {
                    old(self).scroll.h_offset + col
                };
                (arow <= usize::MAX && acol <= usize::MAX)
                    ==> final(self).cursors.spec_primary().position
                    == crate::scroll::buffer_cell_offset(
                    old(self).buffer@,
                    0,
                    arow,
                    acol,
                    old(self).config.width as nat,
                    old(self).config.tab_width as nat,
                )
            }),
    {
        let abs_row = if row <= usize::MAX - self.scroll.scroll_top {
            self.scroll.scroll_top + row
        } else {
            usize::MAX
        };
        let abs_col = if self.config.wrap_enabled {
            col
        } else if col <= usize::MAX - self.scroll.h_offset {
            self.scroll.h_offset + col
        } else {
            usize::MAX
        };
        let pos = crate::scroll::screen_to_buffer_offset(
            self.buffer.as_bytes().as_slice(),
            abs_row,
            abs_col,
            self.config.width,
            self.config.tab_width,
        );
        self.move_to(pos);
    }
}

/// Adjacent non-decreasing positions are non-decreasing overall.
proof fn lemma_adjacent_sorted(c: Seq<Cursor>, x: int, y: int)
    requires
        forall|k: int| #![trigger c[k]] 1 <= k < c.len() ==> c[k - 1].position <= c[k].position,
        0 <= x <= y < c.len(),
    ensures
        c[x].position <= c[y].position,
    decreases y - x,
{
    if x < y {
        lemma_adjacent_sorted(c, x, y - 1);
        assert(c[y - 1].position <= c[y].position);
    }
}

} // verus!
