//! The viewport scroller.
//!
//! Keeps the vertical scroll offset (in visual rows) so that the primary
//! cursor stays visible, adjusting by the minimal amount — never re-centering.
//! A downward move that crosses from one visual row to the next within the
//! same wrapped logical line scrolls by one visual row, not one logical line,
//! because all accounting here is in visual rows. Horizontal scrolling is
//! used only when wrapping is disabled; with wrapping enabled the horizontal
//! offset is permanently zero.

use vstd::prelude::*;
use vstd::slice::slice_subrange;
use crate::layout::{
    col_to_offset, line_end_of, line_end_exec, lemma_line_end_of, lemma_wrap_rows_structure,
    lemma_row_index_of, offset_to_screen, row_index_of, wrap_line, wrap_rows,
};

verus! {

/// The visual row index of byte offset `o` within the whole buffer, counting
/// the wrapped rows of every logical line before it: scanned line by line
/// starting at line offset `from`.
pub open spec fn visual_row_from(s: Seq<u8>, from: int, o: int, width: nat, tab: nat) -> int
    decreases s.len() - from,
{
    let e = line_end_of(s, from);
    if 0 <= from <= e && e < s.len() && o > e {
        wrap_rows(s.subrange(from, e), width, tab).len() + visual_row_from(
            s,
            e + 1,
            o,
            width,
            tab,
        )
    } else {
        row_index_of(wrap_rows(s.subrange(from, e), width, tab), o - from)
    }
}

/// The visual row index of byte offset `o` in buffer `s`.
pub open spec fn visual_row_of(s: Seq<u8>, o: int, width: nat, tab: nat) -> int {
    visual_row_from(s, 0, o, width, tab)
}

/// Computes the buffer-wide visual row index of offset `o`.
pub fn visual_row_of_exec(text: &[u8], o: usize, width: usize, tab: usize) -> (r: usize)
    requires
        o <= text@.len(),
        1 <= width <= 65535,
        1 <= tab <= 16,
    ensures
        r == visual_row_of(text@, o as int, width as nat, tab as nat),
        r <= text@.len(),
{
    let n = text.len();
    let mut from: usize = 0;
    let mut acc: usize = 0;
    loop
        invariant_except_break
            acc <= from,
            visual_row_of(text@, o as int, width as nat, tab as nat) == acc + visual_row_from(
                text@,
                from as int,
                o as int,
                width as nat,
                tab as nat,
            ),
        invariant
            from <= o <= n,
            n == text@.len(),
            1 <= width <= 65535,
            1 <= tab <= 16,
        ensures
            acc <= text@.len(),
            visual_row_of(text@, o as int, width as nat, tab as nat) == acc,
        decreases n - from,
    {
        let e = line_end_exec(text, from);
        proof {
            lemma_line_end_of(text@, from as int);
        }
        let line_slice = slice_subrange(text, from, e);
        proof {
            lemma_wrap_rows_structure(line_slice@, 0, width as nat, tab as nat);
        }
        if o <= e {
            let rc = offset_to_screen(line_slice, o - from, width, tab);
            proof {
                let rows = wrap_rows(line_slice@, width as nat, tab as nat);
                lemma_row_index_of(rows, o - from);
                assert(line_slice@ =~= text@.subrange(from as int, e as int));
                assert(visual_row_from(text@, from as int, o as int, width as nat, tab as nat)
                    == row_index_of(rows, o - from));
            }
            acc = acc + rc.0;
            break ;
        } else {
            let rows = wrap_line(line_slice, width, tab);
            acc = acc + rows.len();
            from = e + 1;
        }
    }
    acc
}

/// The byte offset a buffer-wide visual cell maps to: walks the logical
/// lines from `from`, counting each line's wrapped rows; within the line
/// holding the target row, the per-line cell-to-offset mapping applies with
/// its rounding rule; a row past the last line lands at the buffer's end.
pub open spec fn buffer_cell_offset(
    s: Seq<u8>,
    from: int,
    row: int,
    col: int,
    width: nat,
    tab: nat,
) -> int
    decreases s.len() - from,
{
    let e = line_end_of(s, from);
    let nrows = wrap_rows(s.subrange(from, e), width, tab).len() as int;
    if row < nrows {
        from + col_to_offset(s.subrange(from, e), row, col, width, tab)
    } else if 0 <= from <= e && e < s.len() {
        buffer_cell_offset(s, e + 1, row - nrows, col, width, tab)
    } else {
        s.len() as int
    }
}

/// Translates a buffer-wide visual row and column back to a byte offset:
/// the inverse of the visible-row accounting, used for mouse hit-testing.
#[verifier::rlimit(100)]
#[verifier::spinoff_prover]
pub fn screen_to_buffer_offset(text: &[u8], row: usize, col: usize, width: usize, tab: usize) -> (
    r: usize)
    requires
        1 <= width <= 65535,
        1 <= tab <= 16,
    ensures
        r <= text@.len(),
        r == buffer_cell_offset(text@, 0, row as int, col as int, width as nat, tab as nat),
{
    let n = text.len();
    let mut from: usize = 0;
    let mut acc: usize = 0;
    loop
        invariant
            from <= n,
            n == text@.len(),
            1 <= width <= 65535,
            1 <= tab <= 16,
            acc <= from,
            acc <= row,
            buffer_cell_offset(text@, 0, row as int, col as int, width as nat, tab as nat)
                == buffer_cell_offset(
                text@,
                from as int,
                row - acc,
                col as int,
                width as nat,
                tab as nat,
            ),
        decreases n - from + 1,
    {
        let e = line_end_exec(text, from);
        let line_slice = slice_subrange(text, from, e);
        proof {
            lemma_wrap_rows_structure(line_slice@, 0, width as nat, tab as nat);
        }
        let rows = wrap_line(line_slice, width, tab);
        let nrows = rows.len();
        // acc + nrows stays within the buffer length plus one.
        proof {
            assert(rows@.len() <= line_slice@.len() + 1);
        }
        if row - acc < nrows {
            let off = crate::layout::screen_to_offset(line_slice, row - acc, col, width, tab);
            proof {
                let rows_g = wrap_rows(line_slice@, width as nat, tab as nat);
                let k: int = if (row - acc) < rows_g.len() {
                    row - acc
                } else {
                    rows_g.len() - 1
                };
                assert(off <= rows_g[k].1);
                assert(rows_g[k].1 <= line_slice@.len());
                assert(line_slice@ =~= text@.subrange(from as int, e as int));
                assert(buffer_cell_offset(
                    text@,
                    from as int,
                    row - acc,
                    col as int,
                    width as nat,
                    tab as nat,
                ) == from + off);
            }
            return from + off;
        }
        if e >= n {
            proof {
                assert(line_slice@ =~= text@.subrange(from as int, e as int));
                assert(buffer_cell_offset(
                    text@,
                    from as int,
                    row - acc,
                    col as int,
                    width as nat,
                    tab as nat,
                ) == n);
            }
            return n;
        }
        proof {
            assert(line_slice@ =~= text@.subrange(from as int, e as int));
        }
        acc = acc + nrows;
        from = e + 1;
        proof {
            assert(acc <= from);
        }
    }
}

/// The viewport scroller: the first visible visual row, the viewport height
/// in rows, and the horizontal column offset (used only without wrapping).
#[derive(Clone, Copy, Debug)]
pub struct Scroller {
    /// First visible visual row.
    pub scroll_top: usize,
    /// Viewport height in visual rows.
    pub height: usize,
    /// First visible column; stays zero while wrapping is enabled.
    pub h_offset: usize,
}

impl Scroller {
    pub open spec fn wf(self) -> bool {
        self.height >= 1
    }

    pub fn new(height: usize) -> (r: Scroller)
        requires
            height >= 1,
        ensures
            r.wf(),
            r.scroll_top == 0,
            r.height == height,
            r.h_offset == 0,
    {
        Scroller { scroll_top: 0, height, h_offset: 0 }
    }

    /// Brings visual row `row` into the viewport by the minimal adjustment:
    /// unchanged when already visible, scrolled up exactly to the row when it
    /// is above, scrolled down exactly far enough when it is below — never
    /// re-centered.
    pub fn ensure_row_visible(&mut self, row: usize)
        requires
            old(self).wf(),
        ensures
            final(self).wf(),
            final(self).height == old(self).height,
            final(self).h_offset == old(self).h_offset,
            row < old(self).scroll_top ==> final(self).scroll_top == row,
            old(self).scroll_top <= row < old(self).scroll_top + old(self).height
                ==> final(self).scroll_top == old(self).scroll_top,
            row >= old(self).scroll_top + old(self).height ==> final(self).scroll_top == row + 1
                - old(self).height,
            final(self).scroll_top <= row < final(self).scroll_top + final(self).height,
    {
        if row < self.scroll_top {
            self.scroll_top = row;
        } else if row - self.scroll_top >= self.height {
            self.scroll_top = row - (self.height - 1);
        }
    }

    /// Brings column `col` into the horizontal window of `width` columns by
    /// the minimal adjustment. Only meaningful when wrapping is disabled.
    pub fn ensure_col_visible(&mut self, col: usize, width: usize)
        requires
            old(self).wf(),
            width >= 1,
        ensures
            final(self).wf(),
            final(self).height == old(self).height,
            final(self).scroll_top == old(self).scroll_top,
            col < old(self).h_offset ==> final(self).h_offset == col,
            old(self).h_offset <= col < old(self).h_offset + width
                ==> final(self).h_offset == old(self).h_offset,
            col >= old(self).h_offset + width ==> final(self).h_offset == col + 1 - width,
            final(self).h_offset <= col < final(self).h_offset + width,
    {
        if col < self.h_offset {
            self.h_offset = col;
        } else if col - self.h_offset >= width {
            self.h_offset = col - (width - 1);
        }
    }

    /// Resets the horizontal offset; done whenever wrapping is switched on.
    pub fn reset_horizontal(&mut self)
        ensures
            final(self).h_offset == 0,
            final(self).scroll_top == old(self).scroll_top,
            final(self).height == old(self).height,
    {
        self.h_offset = 0;
    }
}

} // verus!
